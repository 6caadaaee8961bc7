//! Normalisation of user input: conversation titles, file names, relation
//! types, mastery states, tags and full-text search queries.

use vstd::prelude::*;
use crate::text::{
    char_seqs, chars_of, join, join_chars, non_empty, non_empty_pieces, split, split_chars, string_from_chars, string_seqs, strip, strip_chars, take_chars,
    take_prefix, trim, trim_chars, trim_str, words, words_of, Separator, Strip,
};

verus! {

/// The relation types that the relation table accepts.
pub open spec fn is_relation_type(t: Seq<char>) -> bool {
    ||| t == "prerequisite"@
    ||| t == "contains"@
    ||| t == "related"@
    ||| t == "contrast"@
    ||| t == "application"@
    ||| t == "source"@
    ||| t == "supports"@
}

/// A relation type as entered: trimmed, and `related` unless it is one of
/// the accepted types.
pub open spec fn relation_type_of(value: Seq<char>) -> Seq<char> {
    if is_relation_type(trim(value)) {
        trim(value)
    } else {
        "related"@
    }
}

/// A mastery state as entered: `learning` or `mastered` when it says so
/// (after trimming), `new` otherwise.
pub open spec fn mastery_of(value: Seq<char>) -> Seq<char> {
    if trim(value) == "learning"@ {
        "learning"@
    } else if trim(value) == "mastered"@ {
        "mastered"@
    } else {
        "new"@
    }
}

pub open spec fn trim_all(items: Seq<Seq<char>>) -> Seq<Seq<char>> {
    items.map_values(|t: Seq<char>| trim(t))
}

/// Tags as entered: trimmed, the empty ones dropped.
pub open spec fn clean_tags(tags: Seq<Seq<char>>) -> Seq<Seq<char>> {
    non_empty(trim_all(tags))
}

/// The first line of a text whose trimmed form is not empty, trimmed.
pub open spec fn first_filled_line(lines: Seq<Seq<char>>) -> Option<Seq<char>>
    decreases lines.len(),
{
    if lines.len() == 0 {
        None
    } else if trim(lines[0]).len() > 0 {
        Some(trim(lines[0]))
    } else {
        first_filled_line(lines.drop_first())
    }
}

/// The title made for a conversation that has none: the first non-blank
/// line (lines end at `\n`; a `\r` before it is whitespace), trimmed and cut
/// to 60 characters, or `Untitled conversation`.
pub open spec fn title_from_content(raw: Seq<char>) -> Seq<char> {
    match first_filled_line(split(raw, Separator::Newline)) {
        Some(line) => take_chars(line, 60),
        None => "Untitled conversation"@,
    }
}

pub open spec fn is_reserved_in_filename(c: char) -> bool {
    ||| c == '<'
    ||| c == '>'
    ||| c == ':'
    ||| c == '"'
    ||| c == '/'
    ||| c == '\\'
    ||| c == '|'
    ||| c == '?'
    ||| c == '*'
}

pub open spec fn replace_reserved(s: Seq<char>) -> Seq<char> {
    s.map_values(|c: char| if is_reserved_in_filename(c) { '-' } else { c })
}

/// A card title made safe as a file name: the reserved characters
/// `<>:"/\|?*` become `-`, whitespace and then full stops are trimmed from
/// both ends, and the result is cut to 80 characters; `CardMind Card` when
/// nothing is left.
pub open spec fn safe_filename_of(value: Seq<char>) -> Seq<char> {
    let cleaned = strip(trim(replace_reserved(value)), Strip::Dot);
    if cleaned.len() == 0 {
        "CardMind Card"@
    } else {
        take_chars(cleaned, 80)
    }
}

/// The pieces of each word cut at its non-search characters, word after
/// word, empty pieces included.
pub open spec fn word_pieces(ws: Seq<Seq<char>>) -> Seq<Seq<char>>
    decreases ws.len(),
{
    if ws.len() == 0 {
        Seq::empty()
    } else {
        word_pieces(ws.drop_last()) + split(ws.last(), Separator::NonSearch)
    }
}

/// The search terms of a list of words: the non-empty runs of search
/// characters in each word, in order.
pub open spec fn search_terms(ws: Seq<Seq<char>>) -> Seq<Seq<char>> {
    non_empty(word_pieces(ws))
}

/// A query made safe for the full-text index: each word is cut at the
/// characters that are not search characters (`is_search_char`), empty
/// pieces are dropped, the rest joined by spaces.
pub open spec fn fts_query_of(query: Seq<char>) -> Seq<char> {
    join(search_terms(words(query)), " "@)
}

/// The relation type stored for the entered one.
pub fn normalize_relation_type(value: &str) -> (out: &'static str)
    ensures
        out@ == relation_type_of(value@),
{
    let t = trim_str(value);
    let ts = t.as_str();
    if crate::text::same_text(ts, "prerequisite") {
        "prerequisite"
    } else if crate::text::same_text(ts, "contains") {
        "contains"
    } else if crate::text::same_text(ts, "contrast") {
        "contrast"
    } else if crate::text::same_text(ts, "application") {
        "application"
    } else if crate::text::same_text(ts, "source") {
        "source"
    } else if crate::text::same_text(ts, "supports") {
        "supports"
    } else {
        "related"
    }
}

/// Whether a relation type is one the relation table accepts.
pub fn is_known_relation_type(value: &str) -> (out: bool)
    ensures
        out == is_relation_type(value@),
{
    crate::text::same_text(value, "prerequisite") || crate::text::same_text(value, "contains")
        || crate::text::same_text(value, "related") || crate::text::same_text(value, "contrast")
        || crate::text::same_text(value, "application") || crate::text::same_text(value, "source")
        || crate::text::same_text(value, "supports")
}

/// The mastery state stored for the entered one.
pub fn normalize_mastery_status(value: &str) -> (out: &'static str)
    ensures
        out@ == mastery_of(value@),
{
    let t = trim_str(value);
    if crate::text::same_text(t.as_str(), "learning") {
        "learning"
    } else if crate::text::same_text(t.as_str(), "mastered") {
        "mastered"
    } else {
        "new"
    }
}

/// The tags stored for the entered ones.
pub fn normalize_tags(tags: &Vec<String>) -> (out: Vec<String>)
    ensures
        string_seqs(out@) == clean_tags(string_seqs(tags@)),
{
    let ghost all = trim_all(string_seqs(tags@));
    let mut out: Vec<String> = Vec::new();
    let mut i: usize = 0;
    assert(all.take(0) =~= Seq::<Seq<char>>::empty());
    while i < tags.len()
        invariant
            i <= tags.len(),
            all == trim_all(string_seqs(tags@)),
            string_seqs(out@) == non_empty(all.take(i as int)),
        decreases tags.len() - i,
    {
        assert(all.take(i + 1).drop_last() == all.take(i as int));
        assert(all[i as int] == trim(tags@[i as int]@));
        let tag_chars = chars_of(tags[i].as_str());
        let t = trim_chars(&tag_chars);
        let ghost before = string_seqs(out@);
        if t.len() > 0 {
            out.push(string_from_chars(&t));
            assert(string_seqs(out@) =~= before.push(all[i as int]));
        }
        i += 1;
    }
    assert(all.take(tags.len() as int) == all);
    out
}

/// The title of a conversation imported without one.
pub fn create_title(raw_content: &str) -> (out: String)
    ensures
        out@ == title_from_content(raw_content@),
{
    let chars = chars_of(raw_content);
    let lines = split_chars(&chars, Separator::Newline);
    let ghost all = char_seqs(lines@);
    let mut i: usize = 0;
    assert(all.subrange(0, all.len() as int) == all);
    while i < lines.len()
        invariant
            i <= lines.len(),
            all == char_seqs(lines@),
            first_filled_line(all) == first_filled_line(all.subrange(i as int, all.len() as int)),
            chars@ == raw_content@,
            all == split(chars@, Separator::Newline),
        decreases lines.len() - i,
    {
        let t = trim_chars(&lines[i]);
        let ghost rest = all.subrange(i as int, all.len() as int);
        assert(rest[0] == lines@[i as int]@);
        if t.len() > 0 {
            let cut = take_prefix(&t, 60);
            return string_from_chars(&cut);
        }
        assert(rest.drop_first() == all.subrange(i + 1, all.len() as int));
        i += 1;
    }
    String::from_str("Untitled conversation")
}

/// A file name for a card title.
pub fn safe_filename(value: &str) -> (out: String)
    ensures
        out@ == safe_filename_of(value@),
{
    let chars = chars_of(value);
    let mut replaced: Vec<char> = Vec::new();
    let mut i: usize = 0;
    while i < chars.len()
        invariant
            i <= chars.len(),
            chars@ == value@,
            replaced@ == replace_reserved(chars@.take(i as int)),
        decreases chars.len() - i,
    {
        let c = chars[i];
        let d = if c == '<' || c == '>' || c == ':' || c == '"' || c == '/' || c == '\\' || c == '|'
            || c == '?' || c == '*' {
            '-'
        } else {
            c
        };
        replaced.push(d);
        i += 1;
        assert(replaced@ =~= replace_reserved(chars@.take(i as int)));
    }
    assert(chars@.take(chars.len() as int) == chars@);
    let trimmed = trim_chars(&replaced);
    let cleaned = strip_chars(&trimmed, Strip::Dot);
    if cleaned.len() == 0 {
        String::from_str("CardMind Card")
    } else {
        let cut = take_prefix(&cleaned, 80);
        string_from_chars(&cut)
    }
}

/// The full-text query for a search text.
pub fn sanitize_fts_query(query: &str) -> (out: String)
    ensures
        out@ == fts_query_of(query@),
{
    let chars = chars_of(query);
    let ws = words_of(&chars);
    let ghost all = char_seqs(ws@);
    let mut pieces: Vec<Vec<char>> = Vec::new();
    let mut i: usize = 0;
    assert(all.take(0) =~= Seq::<Seq<char>>::empty());
    while i < ws.len()
        invariant
            i <= ws.len(),
            all == char_seqs(ws@),
            char_seqs(pieces@) == word_pieces(all.take(i as int)),
        decreases ws.len() - i,
    {
        assert(all.take(i + 1).drop_last() == all.take(i as int));
        assert(all.take(i + 1).last() == ws@[i as int]@);
        let mut parts = split_chars(&ws[i], Separator::NonSearch);
        let ghost before = char_seqs(pieces@);
        let ghost added = char_seqs(parts@);
        pieces.append(&mut parts);
        assert(char_seqs(pieces@) =~= before + added);
        i += 1;
    }
    assert(all.take(ws.len() as int) == all);
    let terms = non_empty_pieces(&pieces);
    let space = chars_of(" ");
    let joined = join_chars(&terms, &space);
    string_from_chars(&joined)
}

} // verus!
