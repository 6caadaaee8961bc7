//! Keyword search over cards.
//!
//! A search with a blank query and blank filters lists every card. Otherwise
//! the full-text index answers when it is available and accepts the query:
//! it names the cards that match the query, and the cards are kept that it
//! names and that pass the other filters;
//! else the cards are matched as SQLite's `LIKE` would match them: the query
//! within the title, summary or content, the tag filter within the stored
//! tag list (its JSON text), and the type and mastery filters exactly.

use vstd::prelude::*;
use crate::models::{CardView, KnowledgeCard, SearchCardsInput, SearchCardsResult, card_views};
use crate::codec::{tags_column, tags_json_text};
use crate::normalize::{fts_query_of, sanitize_fts_query};
use crate::repository::{CardMindRepository, newest_cards};
use crate::text::{append_chars, chars_of, fold_ascii, same_text, string_seqs, trim, trim_str};

verus! {

/// SQLite `LIKE` without an escape character, from pattern position `i` and
/// text position `j` on: `%` matches any run of characters, `_` any one
/// character, and any other character itself up to ASCII case.
pub open spec fn like_from(p: Seq<char>, s: Seq<char>, i: int, j: int) -> bool
    decreases p.len() - i, s.len() - j,
{
    if i >= p.len() {
        j >= s.len()
    } else if p[i] == '%' {
        like_from(p, s, i + 1, j) || (j < s.len() && like_from(p, s, i, j + 1))
    } else if j >= s.len() {
        false
    } else if p[i] == '_' {
        like_from(p, s, i + 1, j + 1)
    } else {
        fold_ascii(p[i] as u32) == fold_ascii(s[j] as u32) && like_from(p, s, i + 1, j + 1)
    }
}

/// `s LIKE p`.
pub open spec fn like_matches(p: Seq<char>, s: Seq<char>) -> bool {
    like_from(p, s, 0, 0)
}

/// `text LIKE '%' || needle || '%'`.
pub open spec fn like_contains(text: Seq<char>, needle: Seq<char>) -> bool {
    like_matches(seq!['%'] + needle + seq!['%'], text)
}

/// The trimmed filters of a search.
pub struct SearchFilters {
    pub query: String,
    pub fts_query: String,
    pub tag: String,
    pub card_type: String,
    pub mastery_status: String,
}

pub struct FiltersView {
    pub query: Seq<char>,
    pub fts_query: Seq<char>,
    pub tag: Seq<char>,
    pub card_type: Seq<char>,
    pub mastery_status: Seq<char>,
}

impl View for SearchFilters {
    type V = FiltersView;

    open spec fn view(&self) -> FiltersView {
        FiltersView {
            query: self.query@,
            fts_query: self.fts_query@,
            tag: self.tag@,
            card_type: self.card_type@,
            mastery_status: self.mastery_status@,
        }
    }
}

pub struct SearchView {
    pub query: Seq<char>,
    pub tag: Option<Seq<char>>,
    pub card_type: Option<Seq<char>>,
    pub mastery_status: Option<Seq<char>>,
}

impl View for SearchCardsInput {
    type V = SearchView;

    open spec fn view(&self) -> SearchView {
        SearchView {
            query: self.query@,
            tag: match self.tag {
                Some(t) => Some(t@),
                None => None,
            },
            card_type: match self.card_type {
                Some(t) => Some(t@),
                None => None,
            },
            mastery_status: match self.mastery_status {
                Some(t) => Some(t@),
                None => None,
            },
        }
    }
}

/// An optional filter, trimmed; a missing one is empty.
pub open spec fn filter_text(o: Option<Seq<char>>) -> Seq<char> {
    match o {
        Some(s) => trim(s),
        None => Seq::empty(),
    }
}

pub open spec fn filters_of(input: SearchView) -> FiltersView {
    FiltersView {
        query: trim(input.query),
        fts_query: fts_query_of(trim(input.query)),
        tag: filter_text(input.tag),
        card_type: filter_text(input.card_type),
        mastery_status: filter_text(input.mastery_status),
    }
}

/// The query and every filter are blank.
pub open spec fn search_is_blank(input: SearchView) -> bool {
    let f = filters_of(input);
    &&& f.query.len() == 0
    &&& f.tag.len() == 0
    &&& f.card_type.len() == 0
    &&& f.mastery_status.len() == 0
}

/// A card passes the `LIKE` search with the given filters.
pub open spec fn like_hit(c: CardView, f: FiltersView) -> bool {
    &&& (f.query.len() == 0 || like_contains(c.title, f.query) || like_contains(c.summary, f.query)
        || like_contains(c.content, f.query))
    &&& (f.tag.len() == 0 || like_contains(tags_json_text(c.tags), f.tag))
    &&& (f.card_type.len() == 0 || c.card_type == f.card_type)
    &&& (f.mastery_status.len() == 0 || c.mastery_status == f.mastery_status)
}

/// The cards that pass the `LIKE` search, in order.
pub open spec fn cards_matching(cards: Seq<CardView>, f: FiltersView) -> Seq<CardView>
    decreases cards.len(),
{
    if cards.len() == 0 {
        cards
    } else {
        let rest = cards_matching(cards.drop_last(), f);
        if like_hit(cards.last(), f) {
            rest.push(cards.last())
        } else {
            rest
        }
    }
}

/// A card passes the full-text search with the given filters: its id is
/// among those the index matched for the query (unless no query is left
/// after making it safe), and it passes the tag, type and mastery filters.
pub open spec fn fts_hit(c: CardView, matched: Seq<Seq<char>>, f: FiltersView) -> bool {
    &&& (f.fts_query.len() == 0 || matched.contains(c.id))
    &&& (f.tag.len() == 0 || like_contains(tags_json_text(c.tags), f.tag))
    &&& (f.card_type.len() == 0 || c.card_type == f.card_type)
    &&& (f.mastery_status.len() == 0 || c.mastery_status == f.mastery_status)
}

/// The cards that pass the full-text search, in order.
pub open spec fn cards_found(cards: Seq<CardView>, matched: Seq<Seq<char>>, f: FiltersView) -> Seq<CardView>
    decreases cards.len(),
{
    if cards.len() == 0 {
        cards
    } else {
        let rest = cards_found(cards.drop_last(), matched, f);
        if fts_hit(cards.last(), matched, f) {
            rest.push(cards.last())
        } else {
            rest
        }
    }
}

fn folded(c: char) -> (out: u32)
    ensures
        out == fold_ascii(c as u32),
{
    let u = c as u32;
    if 65 <= u && u <= 90 {
        u + 32
    } else {
        u
    }
}

/// Whether text `s` matches the `LIKE` pattern `p`.
///
/// Fills, from the last pattern position to the first, the row of answers
/// for every text position.
pub fn like_match_chars(p: &Vec<char>, s: &Vec<char>) -> (out: bool)
    ensures
        out == like_matches(p@, s@),
{
    let n = s.len();
    let mut next: Vec<bool> = Vec::new();
    let mut j: usize = 0;
    while j < n
        invariant
            j <= n == s.len(),
            next.len() == j,
            forall|k: int| 0 <= k < j ==> !#[trigger] next@[k],
        decreases n - j,
    {
        next.push(false);
        j += 1;
    }
    next.push(true);
    assert forall|k: int| 0 <= k <= n implies #[trigger] next@[k] == like_from(p@, s@, p.len() as int, k) by {}
    let mut i: usize = p.len();
    while i > 0
        invariant
            i <= p.len(),
            n == s.len(),
            next.len() == n + 1,
            forall|k: int| 0 <= k <= n ==> #[trigger] next@[k] == like_from(p@, s@, i as int, k),
        decreases i,
    {
        i -= 1;
        let pc = p[i];
        let mut cur: Vec<bool> = next.clone();
        if pc == '%' {
            assert(cur@[n as int] == like_from(p@, s@, i as int, n as int));
            let mut j: usize = n;
            while j > 0
                invariant
                    j <= n == s.len(),
                    i < p.len(),
                    p@[i as int] == '%',
                    next.len() == n + 1,
                    cur.len() == n + 1,
                    forall|k: int| 0 <= k <= n ==> #[trigger] next@[k] == like_from(p@, s@, i + 1, k),
                    forall|k: int| j <= k <= n ==> #[trigger] cur@[k] == like_from(p@, s@, i as int, k),
                decreases j,
            {
                j -= 1;
                let v = next[j] || cur[j + 1];
                cur.set(j, v);
                assert(cur@[j as int] == like_from(p@, s@, i as int, j as int));
            }
        } else {
            cur.set(n, false);
            let mut j: usize = n;
            while j > 0
                invariant
                    j <= n == s.len(),
                    i < p.len(),
                    p@[i as int] == pc,
                    pc != '%',
                    next.len() == n + 1,
                    cur.len() == n + 1,
                    forall|k: int| 0 <= k <= n ==> #[trigger] next@[k] == like_from(p@, s@, i + 1, k),
                    forall|k: int| j <= k <= n ==> #[trigger] cur@[k] == like_from(p@, s@, i as int, k),
                decreases j,
            {
                j -= 1;
                let hit = pc == '_' || folded(pc) == folded(s[j]);
                let v = hit && next[j + 1];
                cur.set(j, v);
                assert(cur@[j as int] == like_from(p@, s@, i as int, j as int));
            }
        }
        next = cur;
    }
    next[0]
}

/// `text LIKE '%' || needle || '%'`.
fn like_contains_str(text: &str, needle: &Vec<char>) -> (out: bool)
    ensures
        out == like_contains(text@, needle@),
{
    let mut pattern: Vec<char> = Vec::new();
    pattern.push('%');
    append_chars(&mut pattern, needle);
    pattern.push('%');
    assert(pattern@ =~= seq!['%'] + needle@ + seq!['%']);
    let chars = chars_of(text);
    like_match_chars(&pattern, &chars)
}

/// An optional filter, trimmed.
fn filter_of(o: &Option<String>) -> (out: String)
    ensures
        out@ == filter_text(
            match o {
                Some(t) => Some(t@),
                None => None,
            },
        ),
{
    match o {
        Some(t) => trim_str(t.as_str()),
        None => String::new(),
    }
}

/// The trimmed filters of a search, or `None` when the query and every
/// filter are blank.
pub fn search_filters(input: &SearchCardsInput) -> (out: Option<SearchFilters>)
    ensures
        match out {
            None => search_is_blank(input@),
            Some(f) => !search_is_blank(input@) && f@ == filters_of(input@),
        },
{
    let query = trim_str(input.query.as_str());
    let tag = filter_of(&input.tag);
    let card_type = filter_of(&input.card_type);
    let mastery_status = filter_of(&input.mastery_status);
    if query.as_str().is_empty() && tag.as_str().is_empty() && card_type.as_str().is_empty()
        && mastery_status.as_str().is_empty() {
        return None;
    }
    let fts_query = sanitize_fts_query(query.as_str());
    Some(SearchFilters { query, fts_query, tag, card_type, mastery_status })
}

/// Whether a card passes the `LIKE` search.
fn card_hits(card: &KnowledgeCard, f: &SearchFilters) -> (out: bool)
    ensures
        out == like_hit(card@, f@),
{
    let query = chars_of(f.query.as_str());
    let query_hit = query.len() == 0 || like_contains_str(card.title.as_str(), &query)
        || like_contains_str(card.summary.as_str(), &query) || like_contains_str(
        card.content.as_str(),
        &query,
    );
    if !query_hit {
        return false;
    }
    let tag = chars_of(f.tag.as_str());
    let tag_hit = tag.len() == 0 || {
        let text = tags_column(&card.tags);
        like_contains_str(text.as_str(), &tag)
    };
    if !tag_hit {
        return false;
    }
    let type_hit = f.card_type.as_str().is_empty() || same_text(card.card_type.as_str(), f.card_type.as_str());
    let mastery_hit = f.mastery_status.as_str().is_empty() || same_text(
        card.mastery_status.as_str(),
        f.mastery_status.as_str(),
    );
    type_hit && mastery_hit
}

/// Whether a text is one of the given ids.
fn is_listed(ids: &Vec<String>, id: &str) -> (out: bool)
    ensures
        out == string_seqs(ids@).contains(id@),
{
    let ghost iv = string_seqs(ids@);
    let mut i: usize = 0;
    while i < ids.len()
        invariant
            i <= ids.len(),
            iv == string_seqs(ids@),
            forall|k: int| 0 <= k < i ==> iv[k] != id@,
        decreases ids.len() - i,
    {
        if same_text(ids[i].as_str(), id) {
            assert(iv[i as int] == id@);
            return true;
        }
        i += 1;
    }
    false
}

/// Whether a card passes the full-text search.
fn card_found(card: &KnowledgeCard, matched: &Vec<String>, f: &SearchFilters) -> (out: bool)
    ensures
        out == fts_hit(card@, string_seqs(matched@), f@),
{
    let match_hit = f.fts_query.as_str().is_empty() || is_listed(matched, card.id.as_str());
    if !match_hit {
        return false;
    }
    let tag = chars_of(f.tag.as_str());
    let tag_hit = tag.len() == 0 || {
        let text = tags_column(&card.tags);
        like_contains_str(text.as_str(), &tag)
    };
    if !tag_hit {
        return false;
    }
    let type_hit = f.card_type.as_str().is_empty() || same_text(card.card_type.as_str(), f.card_type.as_str());
    let mastery_hit = f.mastery_status.as_str().is_empty() || same_text(
        card.mastery_status.as_str(),
        f.mastery_status.as_str(),
    );
    type_hit && mastery_hit
}

impl CardMindRepository {
    /// The cards that pass the full-text search, newest first, given the ids
    /// of the cards that the index matched for the query.
    pub fn search_cards_fts(&self, f: &SearchFilters, matched: &Vec<String>) -> (out: Vec<KnowledgeCard>)
        ensures
            card_views(out@) == cards_found(newest_cards(self@.cards), string_seqs(matched@), f@),
    {
        let cards = self.list_cards();
        let ghost cv = card_views(cards@);
        let ghost mv = string_seqs(matched@);
        let mut out: Vec<KnowledgeCard> = Vec::new();
        let mut i: usize = 0;
        assert(cv.take(0) =~= Seq::<CardView>::empty());
        while i < cards.len()
            invariant
                i <= cards.len(),
                cv == card_views(cards@),
                mv == string_seqs(matched@),
                card_views(out@) == cards_found(cv.take(i as int), mv, f@),
            decreases cards.len() - i,
        {
            assert(cv.take(i + 1).drop_last() =~= cv.take(i as int));
            assert(cv.take(i + 1).last() == cards@[i as int]@);
            if card_found(&cards[i], matched, f) {
                let ghost before = card_views(out@);
                out.push(cards[i].duplicate());
                assert(card_views(out@) =~= before.push(cards@[i as int]@));
            }
            i += 1;
        }
        assert(cv.take(cards.len() as int) =~= cv);
        out
    }

    /// The cards that pass the `LIKE` search, newest first.
    pub fn search_cards_like(&self, f: &SearchFilters) -> (out: Vec<KnowledgeCard>)
        ensures
            card_views(out@) == cards_matching(newest_cards(self@.cards), f@),
    {
        let cards = self.list_cards();
        let ghost cv = card_views(cards@);
        let mut out: Vec<KnowledgeCard> = Vec::new();
        let mut i: usize = 0;
        assert(cv.take(0) =~= Seq::<CardView>::empty());
        while i < cards.len()
            invariant
                i <= cards.len(),
                cv == card_views(cards@),
                card_views(out@) == cards_matching(cv.take(i as int), f@),
            decreases cards.len() - i,
        {
            assert(cv.take(i + 1).drop_last() =~= cv.take(i as int));
            assert(cv.take(i + 1).last() == cards@[i as int]@);
            if card_hits(&cards[i], f) {
                let ghost before = card_views(out@);
                out.push(cards[i].duplicate());
                assert(card_views(out@) =~= before.push(cards@[i as int]@));
            }
            i += 1;
        }
        assert(cv.take(cards.len() as int) =~= cv);
        out
    }

    /// Searches the cards. `fts` is what the full-text index answered for
    /// the safe query of `search_filters`: the ids of the cards it matched,
    /// `None` where the index is not available, an error where it refused
    /// the query.
    pub fn search_cards(&self, input: &SearchCardsInput, fts: Option<Result<Vec<String>, String>>) -> (out:
        SearchCardsResult)
        ensures
            if search_is_blank(input@) {
                &&& card_views(out.cards@) == newest_cards(self@.cards)
                &&& out.engine@ == (if fts is None {
                    "like"@
                } else {
                    "fts5"@
                })
            } else {
                match fts {
                    Some(Ok(matched)) => card_views(out.cards@) == cards_found(
                        newest_cards(self@.cards),
                        string_seqs(matched@),
                        filters_of(input@),
                    ) && out.engine@ == "fts5"@,
                    _ => card_views(out.cards@) == cards_matching(newest_cards(self@.cards), filters_of(input@))
                        && out.engine@ == "like"@,
                }
            },
    {
        match search_filters(input) {
            None => {
                let engine = if fts.is_none() {
                    String::from_str("like")
                } else {
                    String::from_str("fts5")
                };
                SearchCardsResult { cards: self.list_cards(), engine }
            },
            Some(f) => match fts {
                Some(Ok(matched)) => SearchCardsResult {
                    cards: self.search_cards_fts(&f, &matched),
                    engine: String::from_str("fts5"),
                },
                _ => SearchCardsResult { cards: self.search_cards_like(&f), engine: String::from_str("like") },
            },
        }
    }
}

} // verus!
