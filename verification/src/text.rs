//! Character-level text operations: the trimming, splitting, joining and
//! searching that the extraction and normalisation rules are written in.
//! Text is handled as `Vec<char>` and specified over `Seq<char>`, the view of
//! `String` and `str`.

use vstd::prelude::*;

verus! {

/// `char::is_whitespace`: the Unicode `White_Space` property.
pub open spec fn is_space(c: char) -> bool {
    let u = c as u32;
    ||| 0x9 <= u && u <= 0xD
    ||| u == 0x20
    ||| u == 0x85
    ||| u == 0xA0
    ||| u == 0x1680
    ||| 0x2000 <= u && u <= 0x200A
    ||| u == 0x2028
    ||| u == 0x2029
    ||| u == 0x202F
    ||| u == 0x205F
    ||| u == 0x3000
}

/// The characters that a trim removes.
#[derive(Clone, Copy, PartialEq, Eq)]
pub enum Strip {
    /// Whitespace, as `is_space` says (`str::trim`).
    Whitespace,
    /// The full stop `.` (`str::trim_matches('.')`).
    Dot,
}

pub open spec fn is_stripped(kind: Strip, c: char) -> bool {
    match kind {
        Strip::Whitespace => is_space(c),
        Strip::Dot => c == '.',
    }
}

/// Drops the leading characters of the given kind.
pub open spec fn strip_start(s: Seq<char>, kind: Strip) -> Seq<char>
    decreases s.len(),
{
    if s.len() > 0 && is_stripped(kind, s[0]) {
        strip_start(s.drop_first(), kind)
    } else {
        s
    }
}

/// Drops the trailing characters of the given kind.
pub open spec fn strip_end(s: Seq<char>, kind: Strip) -> Seq<char>
    decreases s.len(),
{
    if s.len() > 0 && is_stripped(kind, s.last()) {
        strip_end(s.drop_last(), kind)
    } else {
        s
    }
}

/// Drops the leading and trailing characters of the given kind.
pub open spec fn strip(s: Seq<char>, kind: Strip) -> Seq<char> {
    strip_end(strip_start(s, kind), kind)
}

/// `str::trim`: drops leading and trailing whitespace.
pub open spec fn trim(s: Seq<char>) -> Seq<char> {
    strip(s, Strip::Whitespace)
}

/// The first `n` characters of `s` (all of `s` when it is shorter):
/// `s.chars().take(n)`.
pub open spec fn take_chars(s: Seq<char>, n: nat) -> Seq<char> {
    if s.len() <= n {
        s
    } else {
        s.subrange(0, n as int)
    }
}

/// The separators that the text is cut at.
#[derive(Clone, Copy, PartialEq, Eq)]
pub enum Separator {
    /// Sentence ends: `。！？.!?` and the line breaks `\r`, `\n`.
    SentenceEnd,
    /// Whitespace, as `is_space` says.
    Whitespace,
    /// The line feed `\n`.
    Newline,
    /// Every character that is not a search character (`is_search_char`).
    NonSearch,
}

/// The characters that a full-text search term is made of: letters, digits,
/// `_` and the CJK unified ideographs `U+4E00..=U+9FFF`.
pub open spec fn is_search_char(c: char) -> bool {
    ||| alphanumeric(c)
    ||| c == '_'
    ||| (0x4e00 <= (c as u32) && (c as u32) <= 0x9fff)
}

pub open spec fn is_separator(sep: Separator, c: char) -> bool {
    match sep {
        Separator::SentenceEnd => {
            ||| c == '。'
            ||| c == '！'
            ||| c == '？'
            ||| c == '.'
            ||| c == '!'
            ||| c == '?'
            ||| c == '\r'
            ||| c == '\n'
        },
        Separator::Whitespace => is_space(c),
        Separator::Newline => c == '\n',
        Separator::NonSearch => !is_search_char(c),
    }
}

/// `str::split` with a character predicate: the pieces between separators,
/// empty pieces included; the empty text is one empty piece.
pub open spec fn split(s: Seq<char>, sep: Separator) -> Seq<Seq<char>>
    decreases s.len(),
{
    if s.len() == 0 {
        seq![Seq::empty()]
    } else {
        let init = split(s.drop_last(), sep);
        if is_separator(sep, s.last()) {
            init.push(Seq::empty())
        } else {
            init.update(init.len() - 1, init.last().push(s.last()))
        }
    }
}

/// The non-empty pieces of `pieces`, in order.
pub open spec fn non_empty(pieces: Seq<Seq<char>>) -> Seq<Seq<char>>
    decreases pieces.len(),
{
    if pieces.len() == 0 {
        pieces
    } else {
        let rest = non_empty(pieces.drop_last());
        if pieces.last().len() > 0 {
            rest.push(pieces.last())
        } else {
            rest
        }
    }
}

/// `str::split_whitespace`: the maximal runs of non-whitespace characters.
pub open spec fn words(s: Seq<char>) -> Seq<Seq<char>> {
    non_empty(split(s, Separator::Whitespace))
}

/// `join` of a list of texts with a separator.
pub open spec fn join(parts: Seq<Seq<char>>, sep: Seq<char>) -> Seq<char>
    decreases parts.len(),
{
    if parts.len() == 0 {
        Seq::empty()
    } else if parts.len() == 1 {
        parts[0]
    } else {
        join(parts.drop_last(), sep) + sep + parts.last()
    }
}

/// `needle` occurs in `hay` starting at position `i`.
pub open spec fn occurs_at(hay: Seq<char>, needle: Seq<char>, i: int) -> bool {
    &&& 0 <= i
    &&& i + needle.len() <= hay.len()
    &&& hay.subrange(i, i + needle.len()) == needle
}

/// `str::contains`: `needle` is a substring of `hay`.
pub open spec fn contains(hay: Seq<char>, needle: Seq<char>) -> bool {
    exists|i: int| occurs_at(hay, needle, i)
}

/// ASCII case folding of a code point: `A`..`Z` to `a`..`z`.
pub open spec fn fold_ascii(u: u32) -> u32 {
    if 65 <= u && u <= 90 {
        (u + 32) as u32
    } else {
        u
    }
}

/// `str::eq_ignore_ascii_case`.
pub open spec fn eq_ignore_ascii_case(a: Seq<char>, b: Seq<char>) -> bool {
    &&& a.len() == b.len()
    &&& forall|i: int| 0 <= i < a.len() ==> fold_ascii(a[i] as u32) == fold_ascii(b[i] as u32)
}

pub open spec fn digit_char(d: nat) -> char {
    if d == 0 {
        '0'
    } else if d == 1 {
        '1'
    } else if d == 2 {
        '2'
    } else if d == 3 {
        '3'
    } else if d == 4 {
        '4'
    } else if d == 5 {
        '5'
    } else if d == 6 {
        '6'
    } else if d == 7 {
        '7'
    } else if d == 8 {
        '8'
    } else {
        '9'
    }
}

/// The decimal digits of `n`, as `Display` writes an unsigned integer.
pub open spec fn decimal(n: nat) -> Seq<char>
    decreases n,
{
    if n < 10 {
        seq![digit_char(n)]
    } else {
        decimal(n / 10).push(digit_char(n % 10))
    }
}

/// The views of a list of character vectors.
pub open spec fn char_seqs(v: Seq<Vec<char>>) -> Seq<Seq<char>> {
    v.map_values(|p: Vec<char>| p@)
}

/// The views of a list of strings.
pub open spec fn string_seqs(v: Seq<String>) -> Seq<Seq<char>> {
    v.map_values(|p: String| p@)
}

/// What `str::to_lowercase` returns for a text (the full Unicode mapping).
pub uninterp spec fn lowercased(s: Seq<char>) -> Seq<char>;

/// What `char::is_alphanumeric` returns for a character (the Unicode
/// `Alphabetic` and `Numeric` properties).
pub uninterp spec fn alphanumeric(c: char) -> bool;

pub proof fn lemma_split_len(s: Seq<char>, sep: Separator)
    ensures
        split(s, sep).len() >= 1,
    decreases s.len(),
{
    if s.len() > 0 {
        lemma_split_len(s.drop_last(), sep);
    }
}

pub proof fn lemma_non_empty_len(pieces: Seq<Seq<char>>)
    ensures
        non_empty(pieces).len() <= pieces.len(),
        forall|i: int| 0 <= i < non_empty(pieces).len() ==> #[trigger] non_empty(pieces)[i].len() > 0,
    decreases pieces.len(),
{
    if pieces.len() > 0 {
        lemma_non_empty_len(pieces.drop_last());
    }
}

/// Stripping keeps only characters of the text.
pub proof fn lemma_strip_keeps_chars(s: Seq<char>, kind: Strip)
    ensures
        strip_start(s, kind).len() <= s.len(),
        strip_end(s, kind).len() <= s.len(),
        forall|i: int| 0 <= i < strip_start(s, kind).len() ==> s.contains(#[trigger] strip_start(s, kind)[i]),
        forall|i: int| 0 <= i < strip_end(s, kind).len() ==> s.contains(#[trigger] strip_end(s, kind)[i]),
    decreases s.len(),
{
    if s.len() > 0 {
        lemma_strip_keeps_chars(s.drop_first(), kind);
        lemma_strip_keeps_chars(s.drop_last(), kind);
        assert forall|i: int| 0 <= i < strip_start(s, kind).len() implies s.contains(#[trigger] strip_start(s, kind)[i]) by {
            if is_stripped(kind, s[0]) {
                let x = strip_start(s, kind)[i];
                let k = choose|k: int| 0 <= k < s.drop_first().len() && s.drop_first()[k] == x;
                assert(s[k + 1] == x);
            } else {
                assert(s[i] == strip_start(s, kind)[i]);
            }
        }
        assert forall|i: int| 0 <= i < strip_end(s, kind).len() implies s.contains(#[trigger] strip_end(s, kind)[i]) by {
            if is_stripped(kind, s.last()) {
                let x = strip_end(s, kind)[i];
                let k = choose|k: int| 0 <= k < s.drop_last().len() && s.drop_last()[k] == x;
                assert(s[k] == x);
            } else {
                assert(s[i] == strip_end(s, kind)[i]);
            }
        }
    }
}

/// `str::to_lowercase`.
#[verifier::external_body]
pub(crate) fn lowercase(s: &str) -> (out: String)
    ensures
        out@ == lowercased(s@),
{
    s.to_lowercase()
}

/// `char::is_alphanumeric`.
#[verifier::external_body]
pub(crate) fn is_alphanumeric_char(c: char) -> (out: bool)
    ensures
        out == alphanumeric(c),
{
    c.is_alphanumeric()
}

/// `String: FromIterator<&char>`: the string made of the given characters.
#[verifier::external_body]
pub(crate) fn string_from_chars(chars: &Vec<char>) -> (out: String)
    ensures
        out@ == chars@,
{
    String::from_iter(chars.iter())
}

/// The characters of a string slice.
pub fn chars_of(s: &str) -> (out: Vec<char>)
    ensures
        out@ == s@,
{
    let mut out: Vec<char> = Vec::new();
    for c in it: s.chars()
        invariant
            out@ == it.seq().take(it.index() as int),
    {
        out.push(c);
    }
    out
}

/// Appends the characters of `s` to `out`.
pub fn append_chars(out: &mut Vec<char>, s: &Vec<char>)
    ensures
        final(out)@ == old(out)@ + s@,
{
    let mut i: usize = 0;
    while i < s.len()
        invariant
            i <= s.len(),
            out@ == old(out)@ + s@.take(i as int),
        decreases s.len() - i,
    {
        out.push(s[i]);
        i += 1;
        assert(s@.take(i as int) == s@.take((i - 1) as int).push(s@[i - 1]));
    }
    assert(s@.take(s.len() as int) == s@);
}

/// Appends the characters of a string slice to `out`.
pub fn append_str(out: &mut Vec<char>, s: &str)
    ensures
        final(out)@ == old(out)@ + s@,
{
    let chars = chars_of(s);
    append_chars(out, &chars);
}

pub fn is_space_char(c: char) -> (out: bool)
    ensures
        out == is_space(c),
{
    let u = c as u32;
    (0x9 <= u && u <= 0xD) || u == 0x20 || u == 0x85 || u == 0xA0 || u == 0x1680 || (0x2000 <= u
        && u <= 0x200A) || u == 0x2028 || u == 0x2029 || u == 0x202F || u == 0x205F || u == 0x3000
}

pub fn is_separator_char(sep: Separator, c: char) -> (out: bool)
    ensures
        out == is_separator(sep, c),
{
    match sep {
        Separator::SentenceEnd => c == '。' || c == '！' || c == '？' || c == '.' || c == '!' || c
            == '?' || c == '\r' || c == '\n',
        Separator::Whitespace => is_space_char(c),
        Separator::Newline => c == '\n',
        Separator::NonSearch => !(is_alphanumeric_char(c) || c == '_' || (0x4e00 <= (c as u32) && (
        c as u32) <= 0x9fff)),
    }
}

/// The characters of `v` from position `lo` up to `hi`.
pub fn sub_chars(v: &Vec<char>, lo: usize, hi: usize) -> (out: Vec<char>)
    requires
        lo <= hi <= v.len(),
    ensures
        out@ == v@.subrange(lo as int, hi as int),
{
    let mut out: Vec<char> = Vec::new();
    let mut i = lo;
    while i < hi
        invariant
            lo <= i <= hi <= v.len(),
            out@ == v@.subrange(lo as int, i as int),
        decreases hi - i,
    {
        out.push(v[i]);
        i += 1;
        assert(v@.subrange(lo as int, i as int) == v@.subrange(lo as int, (i - 1) as int).push(
            v@[i - 1],
        ));
    }
    out
}

pub fn is_stripped_char(kind: Strip, c: char) -> (out: bool)
    ensures
        out == is_stripped(kind, c),
{
    match kind {
        Strip::Whitespace => is_space_char(c),
        Strip::Dot => c == '.',
    }
}

proof fn lemma_strip_start_skip(s: Seq<char>, kind: Strip, i: int)
    requires
        0 <= i <= s.len(),
        forall|k: int| 0 <= k < i ==> is_stripped(kind, #[trigger] s[k]),
    ensures
        strip_start(s, kind) == strip_start(s.subrange(i, s.len() as int), kind),
    decreases i,
{
    if i > 0 {
        assert(is_stripped(kind, s[0]));
        let t = s.drop_first();
        assert forall|k: int| 0 <= k < i - 1 implies is_stripped(kind, #[trigger] t[k]) by {
            assert(t[k] == s[k + 1]);
        }
        lemma_strip_start_skip(t, kind, i - 1);
        assert(t.subrange(i - 1, t.len() as int) == s.subrange(i, s.len() as int));
    } else {
        assert(s.subrange(0, s.len() as int) == s);
    }
}

proof fn lemma_strip_end_skip(s: Seq<char>, kind: Strip, j: int)
    requires
        0 <= j <= s.len(),
        forall|k: int| j <= k < s.len() ==> is_stripped(kind, #[trigger] s[k]),
    ensures
        strip_end(s, kind) == strip_end(s.subrange(0, j), kind),
    decreases s.len() - j,
{
    if j < s.len() {
        assert(is_stripped(kind, s.last()));
        let t = s.drop_last();
        assert forall|k: int| j <= k < t.len() implies is_stripped(kind, #[trigger] t[k]) by {
            assert(t[k] == s[k]);
        }
        lemma_strip_end_skip(t, kind, j);
        assert(t.subrange(0, j) == s.subrange(0, j));
    } else {
        assert(s.subrange(0, j) == s);
    }
}

/// Drops the leading and trailing characters of the given kind.
pub fn strip_chars(v: &Vec<char>, kind: Strip) -> (out: Vec<char>)
    ensures
        out@ == strip(v@, kind),
{
    let n = v.len();
    let mut i: usize = 0;
    while i < n && is_stripped_char(kind, v[i])
        invariant
            i <= n == v.len(),
            forall|k: int| 0 <= k < i ==> is_stripped(kind, #[trigger] v@[k]),
        decreases n - i,
    {
        i += 1;
    }
    proof {
        lemma_strip_start_skip(v@, kind, i as int);
    }
    let ghost rest = v@.subrange(i as int, n as int);
    assert(strip_start(rest, kind) == rest);
    let mut j: usize = n;
    while j > i && is_stripped_char(kind, v[j - 1])
        invariant
            i <= j <= n == v.len(),
            forall|k: int| j <= k < n ==> is_stripped(kind, #[trigger] v@[k]),
        decreases j,
    {
        j -= 1;
    }
    proof {
        assert forall|k: int| j - i <= k < rest.len() implies is_stripped(kind, #[trigger] rest[k]) by {
            assert(rest[k] == v@[k + i]);
        }
        lemma_strip_end_skip(rest, kind, j - i);
        let core = rest.subrange(0, j - i);
        assert(core == v@.subrange(i as int, j as int));
        if core.len() > 0 {
            assert(core.last() == v@[j - 1]);
        }
    }
    sub_chars(v, i, j)
}

/// `str::trim` on characters.
pub fn trim_chars(v: &Vec<char>) -> (out: Vec<char>)
    ensures
        out@ == trim(v@),
{
    strip_chars(v, Strip::Whitespace)
}

/// `str::trim`.
pub fn trim_str(s: &str) -> (out: String)
    ensures
        out@ == trim(s@),
{
    let chars = chars_of(s);
    let trimmed = trim_chars(&chars);
    string_from_chars(&trimmed)
}

/// `s.chars().take(n)` on characters.
pub fn take_prefix(v: &Vec<char>, n: usize) -> (out: Vec<char>)
    ensures
        out@ == take_chars(v@, n as nat),
{
    if v.len() <= n {
        sub_chars(v, 0, v.len())
    } else {
        sub_chars(v, 0, n)
    }
}

/// `str::split` at a class of separator characters.
pub fn split_chars(v: &Vec<char>, sep: Separator) -> (out: Vec<Vec<char>>)
    ensures
        char_seqs(out@) == split(v@, sep),
{
    let mut pieces: Vec<Vec<char>> = Vec::new();
    let mut cur: Vec<char> = Vec::new();
    let mut i: usize = 0;
    assert(v@.take(0) == Seq::<char>::empty());
    assert(char_seqs(pieces@).push(cur@) =~= split(v@.take(0), sep));
    while i < v.len()
        invariant
            i <= v.len(),
            char_seqs(pieces@).push(cur@) == split(v@.take(i as int), sep),
        decreases v.len() - i,
    {
        let c = v[i];
        let ghost prev = v@.take(i as int);
        let ghost before = char_seqs(pieces@);
        let ghost cur_before = cur@;
        assert(v@.take(i + 1).drop_last() == prev);
        assert(v@.take(i + 1).last() == c);
        if is_separator_char(sep, c) {
            pieces.push(cur);
            cur = Vec::new();
            assert(char_seqs(pieces@) =~= before.push(cur_before));
            assert(char_seqs(pieces@).push(cur@) =~= split(v@.take(i + 1), sep));
        } else {
            cur.push(c);
            assert(char_seqs(pieces@).push(cur@) =~= before.push(cur_before).update(
                before.len() as int,
                cur_before.push(c),
            ));
        }
        i += 1;
    }
    assert(v@.take(v.len() as int) == v@);
    let ghost before = char_seqs(pieces@);
    let ghost last = cur@;
    pieces.push(cur);
    assert(char_seqs(pieces@) =~= before.push(last));
    pieces
}

/// The non-empty pieces, in order.
pub fn non_empty_pieces(pieces: &Vec<Vec<char>>) -> (out: Vec<Vec<char>>)
    ensures
        char_seqs(out@) == non_empty(char_seqs(pieces@)),
{
    let ghost all = char_seqs(pieces@);
    let mut out: Vec<Vec<char>> = Vec::new();
    let mut i: usize = 0;
    assert(all.take(0) =~= Seq::<Seq<char>>::empty());
    while i < pieces.len()
        invariant
            i <= pieces.len(),
            all == char_seqs(pieces@),
            char_seqs(out@) == non_empty(all.take(i as int)),
        decreases pieces.len() - i,
    {
        assert(all.take(i + 1).drop_last() == all.take(i as int));
        assert(all[i as int] == pieces[i as int]@);
        let ghost out_before = char_seqs(out@);
        if pieces[i].len() > 0 {
            let p = sub_chars(&pieces[i], 0, pieces[i].len());
            assert(p@ =~= pieces[i as int]@);
            out.push(p);
            assert(char_seqs(out@) =~= out_before.push(all[i as int]));
        }
        i += 1;
    }
    assert(all.take(pieces.len() as int) == all);
    out
}

/// `str::split_whitespace` on characters.
pub fn words_of(v: &Vec<char>) -> (out: Vec<Vec<char>>)
    ensures
        char_seqs(out@) == words(v@),
{
    let pieces = split_chars(v, Separator::Whitespace);
    non_empty_pieces(&pieces)
}

/// Joins pieces with a separator.
pub fn join_chars(parts: &Vec<Vec<char>>, sep: &Vec<char>) -> (out: Vec<char>)
    ensures
        out@ == join(char_seqs(parts@), sep@),
{
    let ghost all = char_seqs(parts@);
    let mut out: Vec<char> = Vec::new();
    let mut i: usize = 0;
    assert(all.take(0) =~= Seq::<Seq<char>>::empty());
    while i < parts.len()
        invariant
            i <= parts.len(),
            all == char_seqs(parts@),
            out@ == join(all.take(i as int), sep@),
        decreases parts.len() - i,
    {
        assert(all.take(i + 1).drop_last() == all.take(i as int));
        assert(all[i as int] == parts[i as int]@);
        if i > 0 {
            append_chars(&mut out, sep);
            append_chars(&mut out, &parts[i]);
        } else {
            append_chars(&mut out, &parts[i]);
            assert(all.take(1) =~= seq![all[0]]);
        }
        i += 1;
    }
    assert(all.take(parts.len() as int) == all);
    out
}

/// Whether `needle` occurs in `hay` at position `i`.
fn occurs_at_chars(hay: &Vec<char>, needle: &Vec<char>, i: usize) -> (out: bool)
    requires
        i + needle.len() <= hay.len(),
    ensures
        out == occurs_at(hay@, needle@, i as int),
{
    let mut j: usize = 0;
    while j < needle.len()
        invariant
            j <= needle.len(),
            i + needle.len() <= hay.len(),
            forall|k: int| 0 <= k < j ==> hay@[i + k] == needle@[k],
        decreases needle.len() - j,
    {
        if hay[i + j] != needle[j] {
            assert(hay@.subrange(i as int, i + needle.len())[j as int] == hay@[i + j]);
            return false;
        }
        j += 1;
    }
    assert(hay@.subrange(i as int, i + needle.len()) =~= needle@);
    true
}

/// `str::contains` on characters.
pub fn contains_chars(hay: &Vec<char>, needle: &Vec<char>) -> (out: bool)
    ensures
        out == contains(hay@, needle@),
{
    if needle.len() > hay.len() {
        return false;
    }
    let last = hay.len() - needle.len();
    let mut i: usize = 0;
    loop
        invariant
            last == hay.len() - needle.len(),
            i <= last,
            forall|k: int| 0 <= k < i ==> !occurs_at(hay@, needle@, k),
        decreases last - i,
    {
        if occurs_at_chars(hay, needle, i) {
            return true;
        }
        if i == last {
            return false;
        }
        i += 1;
    }
}

/// `str::eq_ignore_ascii_case`.
pub fn eq_ignore_ascii_case_str(a: &str, b: &str) -> (out: bool)
    ensures
        out == eq_ignore_ascii_case(a@, b@),
{
    let x = chars_of(a);
    let y = chars_of(b);
    if x.len() != y.len() {
        return false;
    }
    let mut i: usize = 0;
    while i < x.len()
        invariant
            i <= x.len() == y.len(),
            x@ == a@,
            y@ == b@,
            forall|k: int| 0 <= k < i ==> fold_ascii(x@[k] as u32) == fold_ascii(y@[k] as u32),
        decreases x.len() - i,
    {
        let u = x[i] as u32;
        let w = y[i] as u32;
        let fu = if 65 <= u && u <= 90 {
            u + 32
        } else {
            u
        };
        let fw = if 65 <= w && w <= 90 {
            w + 32
        } else {
            w
        };
        if fu != fw {
            assert(fold_ascii(x@[i as int] as u32) != fold_ascii(y@[i as int] as u32));
            return false;
        }
        i += 1;
    }
    true
}

/// Whether two texts are equal.
pub fn same_text(a: &str, b: &str) -> (out: bool)
    ensures
        out == (a@ == b@),
{
    let x = chars_of(a);
    let y = chars_of(b);
    if x.len() != y.len() {
        return false;
    }
    let mut i: usize = 0;
    while i < x.len()
        invariant
            i <= x.len() == y.len(),
            x@ == a@,
            y@ == b@,
            forall|k: int| 0 <= k < i ==> x@[k] == y@[k],
        decreases x.len() - i,
    {
        if x[i] != y[i] {
            return false;
        }
        i += 1;
    }
    assert(x@ =~= y@);
    true
}

fn digit(d: usize) -> (c: char)
    requires
        d < 10,
    ensures
        c == digit_char(d as nat),
{
    if d == 0 {
        '0'
    } else if d == 1 {
        '1'
    } else if d == 2 {
        '2'
    } else if d == 3 {
        '3'
    } else if d == 4 {
        '4'
    } else if d == 5 {
        '5'
    } else if d == 6 {
        '6'
    } else if d == 7 {
        '7'
    } else if d == 8 {
        '8'
    } else {
        '9'
    }
}

/// The decimal digits of `n`.
pub fn decimal_chars(n: usize) -> (out: Vec<char>)
    ensures
        out@ == decimal(n as nat),
    decreases n,
{
    if n < 10 {
        let mut v: Vec<char> = Vec::new();
        v.push(digit(n));
        assert(v@ =~= seq![digit_char(n as nat)]);
        v
    } else {
        let mut v = decimal_chars(n / 10);
        v.push(digit(n % 10));
        v
    }
}

} // verus!
