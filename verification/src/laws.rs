//! What holds of the library as a whole: the laws that relate its
//! operations, each proved over the views that the operations' contracts
//! speak of.

use vstd::prelude::*;
use crate::extractor::{fallback_cards, local_extraction};
use crate::normalize::{first_filled_line, title_from_content};
use crate::openai::{PreviewStep, preview_started, usable_key};
use crate::repository::{conversation_title, edge_of, edited_relation, node_of};
use crate::models::{GraphEdgeView, GraphNodeView};
use crate::text::{Separator, is_separator, is_space, join, non_empty, split, take_chars, words};
use crate::normalize::{fts_query_of, search_terms, word_pieces};
use crate::text::is_search_char;
use crate::text::{contains, occurs_at};
use crate::export::{card_section, card_sections, markdown_export, relation_line, relation_lines};
use crate::search::like_contains;
use crate::models::{CardEditView, CardView, ConversationView, RelationView};
use crate::normalize::{
    is_relation_type, is_reserved_in_filename, mastery_of, relation_type_of, replace_reserved,
    safe_filename_of,
};
use crate::search::{FiltersView, cards_found, cards_matching, fts_hit, like_hit};
use crate::text::{Strip, lemma_strip_keeps_chars, strip, strip_end, strip_start, trim};
use crate::repository::{
    RepositoryView, card_ids, cards_without, conversation_ids, edited_card, find_card,
    find_conversation, find_relation, lemma_cards_without, lemma_position_of,
    lemma_relations_without_card, relation_ids, relations_touching, relations_without_card,
    valid_tables,
};
use crate::merge::{
    has_tag, lemma_first_links_distinct, lemma_first_links_hold_links, lemma_without_self_links_keeps, merge_edit,
    merged_relations, merged_tags, redirect_relation, redirect_relations, same_link,
    without_self_links,
};
use crate::repository::{newest_cards, newest_conversations, newest_relations};
use crate::tables::{
    lemma_newest_first_sorted, lemma_order_positions, newest_first_order, position_of, text_lt,
};

verus! {

/// The local extractor always proposes at least one card, and links each
/// card to the next one by a relation of an accepted type; nothing else.
pub proof fn law_extraction_links_consecutive_cards(text: Seq<char>)
    ensures
        local_extraction(text).cards.len() >= 1,
        local_extraction(text).relations.len() == local_extraction(text).cards.len() - 1,
        forall|i: int|
            0 <= i < local_extraction(text).relations.len() ==> {
                let r = #[trigger] local_extraction(text).relations[i];
                &&& r.source_title == local_extraction(text).cards[i].title
                &&& r.target_title == local_extraction(text).cards[i + 1].title
                &&& is_relation_type(r.relation_type)
            },
{
    let cards = local_extraction(text).cards;
    if cards == fallback_cards(text) {
        law_fallback_cards_count(text);
    }
}

/// Without a known concept the extractor writes one note card per long
/// sentence, at most three, or a single card for the whole conversation.
pub proof fn law_fallback_cards_count(text: Seq<char>)
    ensures
        1 <= fallback_cards(text).len() <= 3,
        forall|i: int|
            0 <= i < fallback_cards(text).len() ==> (#[trigger] fallback_cards(text)[i]).card_type
                == "note"@,
{
}

/// Reading a card after editing it gives the edited card.
pub proof fn law_get_after_update(v: RepositoryView, c: CardView, e: CardEditView, updated_at: Seq<char>)
    requires
        valid_tables(v),
        find_card(v.cards, c.id) == Some(c),
    ensures
        find_card(
            v.cards.update(position_of(card_ids(v.cards), c.id), edited_card(c, e, updated_at)),
            c.id,
        ) == Some(edited_card(c, e, updated_at)),
{
    let ids = card_ids(v.cards);
    let p = position_of(ids, c.id);
    let u = edited_card(c, e, updated_at);
    let cards = v.cards.update(p, u);
    assert(ids.contains(c.id));
    assert(0 <= p < ids.len() && ids[p] == c.id);
    assert(card_ids(cards) =~= ids);
}

/// Reading a conversation after importing it gives the imported one.
pub proof fn law_get_after_create_conversation(v: RepositoryView, c: ConversationView)
    requires
        valid_tables(v),
        !conversation_ids(v.conversations).contains(c.id),
    ensures
        find_conversation(v.conversations.push(c), c.id) == Some(c),
{
    let ids = conversation_ids(v.conversations);
    let pushed = conversation_ids(v.conversations.push(c));
    assert(pushed =~= ids.push(c.id));
    assert forall|a: int, b: int| 0 <= a < pushed.len() && 0 <= b < pushed.len() && a != b implies pushed[a]
        != pushed[b] by {
        if a < ids.len() && b < ids.len() {
            assert(pushed[a] == ids[a] && pushed[b] == ids[b]);
        } else if a < ids.len() {
            assert(pushed[a] == ids[a]);
        } else {
            assert(pushed[b] == ids[b]);
        }
    }
    lemma_position_of(pushed, ids.len() as int);
}

/// A relation created by hand can be read back by its id, and it is the
/// last of the relations that touch its source card.
pub proof fn law_get_after_create_relation(v: RepositoryView, r: RelationView)
    requires
        valid_tables(v),
        !relation_ids(v.relations).contains(r.id),
    ensures
        find_relation(v.relations.push(r), r.id) == Some(r),
        relations_touching(v.relations.push(r), r.source_card_id) == relations_touching(
            v.relations,
            r.source_card_id,
        ).push(r),
{
    let ids = relation_ids(v.relations);
    let pushed = relation_ids(v.relations.push(r));
    assert(pushed =~= ids.push(r.id));
    assert forall|a: int, b: int| 0 <= a < pushed.len() && 0 <= b < pushed.len() && a != b implies pushed[a]
        != pushed[b] by {
        if a < ids.len() && b < ids.len() {
            assert(pushed[a] == ids[a] && pushed[b] == ids[b]);
        } else if a < ids.len() {
            assert(pushed[a] == ids[a]);
        } else {
            assert(pushed[b] == ids[b]);
        }
    }
    lemma_position_of(pushed, ids.len() as int);
    assert(v.relations.push(r).drop_last() =~= v.relations);
}

/// A deleted relation can no longer be read.
pub proof fn law_get_after_delete_relation(v: RepositoryView, id: Seq<char>)
    requires
        valid_tables(v),
        relation_ids(v.relations).contains(id),
    ensures
        find_relation(v.relations.remove(position_of(relation_ids(v.relations), id)), id) is None,
{
    let ids = relation_ids(v.relations);
    let p = position_of(ids, id);
    let rest = v.relations.remove(p);
    assert(0 <= p < ids.len() && ids[p] == id);
    assert(relation_ids(rest) =~= ids.remove(p));
    if relation_ids(rest).contains(id) {
        let k = choose|k: int| 0 <= k < relation_ids(rest).len() && relation_ids(rest)[k] == id;
        if k < p {
            assert(ids[k] == id);
        } else {
            assert(ids[k + 1] == id);
        }
    }
}

/// A card found in `cards_without(cards, id)` under another id is the stored
/// card with that id.
proof fn lemma_find_in_cards_without(cards: Seq<CardView>, id: Seq<char>, other: Seq<char>)
    requires
        card_ids(cards).no_duplicates(),
        other != id,
    ensures
        find_card(cards_without(cards, id), other) == find_card(cards, other),
{
    lemma_cards_without(cards, id);
    let rest = cards_without(cards, id);
    let ids = card_ids(cards);
    let rids = card_ids(rest);
    if ids.contains(other) {
        assert(rids.contains(other));
        let q = position_of(rids, other);
        assert(0 <= q < rids.len() && rids[q] == other);
        assert(cards.contains(rest[q]));
        let k = choose|k: int| 0 <= k < cards.len() && cards[k] == rest[q];
        assert(ids[k] == other);
        lemma_position_of(ids, k);
    }
}

/// Deleting a card removes it and every relation that touches it, and
/// leaves every other card as it was.
pub proof fn law_delete_card(v: RepositoryView, id: Seq<char>, other: Seq<char>)
    requires
        valid_tables(v),
    ensures
        find_card(cards_without(v.cards, id), id) is None,
        forall|i: int|
            0 <= i < relations_without_card(v.relations, id).len() ==> {
                let r = #[trigger] relations_without_card(v.relations, id)[i];
                r.source_card_id != id && r.target_card_id != id
            },
        other != id ==> find_card(cards_without(v.cards, id), other) == find_card(v.cards, other),
{
    lemma_cards_without(v.cards, id);
    lemma_relations_without_card(v.relations, id);
    if card_ids(v.cards).contains(id) {
        assert(!card_ids(cards_without(v.cards, id)).contains(id));
    } else {
        assert(!card_ids(cards_without(v.cards, id)).contains(id));
    }
    if other != id {
        lemma_find_in_cards_without(v.cards, id, other);
    }
}


/// Cards are listed newest first: each is not older than the ones after it,
/// and the list holds exactly the stored cards.
pub proof fn law_cards_newest_first(cards: Seq<CardView>)
    ensures
        newest_cards(cards).len() == cards.len(),
        forall|x: CardView| cards.contains(x) <==> newest_cards(cards).contains(x),
        forall|p: int, q: int|
            0 <= p < q < cards.len() ==> !text_lt(
                (#[trigger] newest_cards(cards)[p]).created_at,
                (#[trigger] newest_cards(cards)[q]).created_at,
            ),
{
    let stamps = cards.map_values(|c: CardView| c.created_at);
    let order = newest_first_order(stamps, cards.len());
    let out = newest_cards(cards);
    lemma_order_positions(stamps, cards.len());
    lemma_newest_first_sorted(stamps, cards.len());
    assert forall|p: int, q: int| 0 <= p < q < cards.len() implies !text_lt(
        (#[trigger] out[p]).created_at,
        (#[trigger] out[q]).created_at,
    ) by {
        assert(out[p] == cards[order[p]] && out[q] == cards[order[q]]);
        assert(stamps[order[p]] == out[p].created_at && stamps[order[q]] == out[q].created_at);
    }
    assert forall|x: CardView| cards.contains(x) implies out.contains(x) by {
        let k = choose|k: int| 0 <= k < cards.len() && cards[k] == x;
        assert(order.contains(k));
        let m = choose|m: int| 0 <= m < order.len() && order[m] == k;
        assert(out[m] == x);
    }
    assert forall|x: CardView| out.contains(x) implies cards.contains(x) by {
        let m = choose|m: int| 0 <= m < out.len() && out[m] == x;
        assert(out[m] == cards[order[m]]);
    }
}

/// Conversations are listed newest first, and the list holds exactly the
/// stored conversations.
pub proof fn law_conversations_newest_first(conversations: Seq<ConversationView>)
    ensures
        newest_conversations(conversations).len() == conversations.len(),
        forall|x: ConversationView| conversations.contains(x) <==> newest_conversations(conversations).contains(x),
        forall|p: int, q: int|
            0 <= p < q < conversations.len() ==> !text_lt(
                (#[trigger] newest_conversations(conversations)[p]).created_at,
                (#[trigger] newest_conversations(conversations)[q]).created_at,
            ),
{
    let stamps = conversations.map_values(|c: ConversationView| c.created_at);
    let order = newest_first_order(stamps, conversations.len());
    let out = newest_conversations(conversations);
    lemma_order_positions(stamps, conversations.len());
    lemma_newest_first_sorted(stamps, conversations.len());
    assert forall|p: int, q: int| 0 <= p < q < conversations.len() implies !text_lt(
        (#[trigger] out[p]).created_at,
        (#[trigger] out[q]).created_at,
    ) by {
        assert(out[p] == conversations[order[p]] && out[q] == conversations[order[q]]);
        assert(stamps[order[p]] == out[p].created_at && stamps[order[q]] == out[q].created_at);
    }
    assert forall|x: ConversationView| conversations.contains(x) implies out.contains(x) by {
        let k = choose|k: int| 0 <= k < conversations.len() && conversations[k] == x;
        assert(order.contains(k));
        let m = choose|m: int| 0 <= m < order.len() && order[m] == k;
        assert(out[m] == x);
    }
    assert forall|x: ConversationView| out.contains(x) implies conversations.contains(x) by {
        let m = choose|m: int| 0 <= m < out.len() && out[m] == x;
        assert(out[m] == conversations[order[m]]);
    }
}

/// Relations are listed newest first, and the list holds exactly the stored
/// relations.
pub proof fn law_relations_newest_first(relations: Seq<RelationView>)
    ensures
        newest_relations(relations).len() == relations.len(),
        forall|x: RelationView| relations.contains(x) <==> newest_relations(relations).contains(x),
        forall|p: int, q: int|
            0 <= p < q < relations.len() ==> !text_lt(
                (#[trigger] newest_relations(relations)[p]).created_at,
                (#[trigger] newest_relations(relations)[q]).created_at,
            ),
{
    let stamps = relations.map_values(|r: RelationView| r.created_at);
    let order = newest_first_order(stamps, relations.len());
    let out = newest_relations(relations);
    lemma_order_positions(stamps, relations.len());
    lemma_newest_first_sorted(stamps, relations.len());
    assert forall|p: int, q: int| 0 <= p < q < relations.len() implies !text_lt(
        (#[trigger] out[p]).created_at,
        (#[trigger] out[q]).created_at,
    ) by {
        assert(out[p] == relations[order[p]] && out[q] == relations[order[q]]);
        assert(stamps[order[p]] == out[p].created_at && stamps[order[q]] == out[q].created_at);
    }
    assert forall|x: RelationView| relations.contains(x) implies out.contains(x) by {
        let k = choose|k: int| 0 <= k < relations.len() && relations[k] == x;
        assert(order.contains(k));
        let m = choose|m: int| 0 <= m < order.len() && order[m] == k;
        assert(out[m] == x);
    }
    assert forall|x: RelationView| out.contains(x) implies relations.contains(x) by {
        let m = choose|m: int| 0 <= m < out.len() && out[m] == x;
        assert(out[m] == relations[order[m]]);
    }
}

/// Merging removes the source card, keeps the target under its id with the
/// merged edit applied, and leaves no relation that touches the source or
/// links a card to itself.
pub proof fn law_merge_cards(v: RepositoryView, src: CardView, tgt: CardView, updated_at: Seq<char>)
    requires
        valid_tables(v),
        find_card(v.cards, src.id) == Some(src),
        find_card(v.cards, tgt.id) == Some(tgt),
        src.id != tgt.id,
    ensures
        ({
            let u = edited_card(tgt, merge_edit(src, tgt), updated_at);
            let cards = cards_without(
                v.cards.update(position_of(card_ids(v.cards), tgt.id), u),
                src.id,
            );
            &&& find_card(cards, src.id) is None
            &&& find_card(cards, tgt.id) == Some(u)
        }),
        forall|i: int|
            0 <= i < merged_relations(v.relations, src.id, tgt.id).len() ==> {
                let r = #[trigger] merged_relations(v.relations, src.id, tgt.id)[i];
                &&& r.source_card_id != src.id
                &&& r.target_card_id != src.id
                &&& r.source_card_id != r.target_card_id
            },
{
    let u = edited_card(tgt, merge_edit(src, tgt), updated_at);
    let ids = card_ids(v.cards);
    let p = position_of(ids, tgt.id);
    let updated = v.cards.update(p, u);
    assert(ids.contains(tgt.id));
    assert(card_ids(updated) =~= ids);
    law_get_after_update(v, tgt, merge_edit(src, tgt), updated_at);
    lemma_find_in_cards_without(updated, src.id, tgt.id);
    lemma_cards_without(updated, src.id);
    assert(ids.contains(src.id));
    assert(!card_ids(cards_without(updated, src.id)).contains(src.id));
    assert(crate::merge::relation_ids_of(v.relations) =~= relation_ids(v.relations));
    crate::merge::lemma_merged_relations(v.relations, src.id, tgt.id);
}

/// The merged tag list starts with the target's tags and holds every tag of
/// the source, ASCII case ignored.
pub proof fn law_merged_tags(tags: Seq<Seq<char>>, extra: Seq<Seq<char>>)
    ensures
        merged_tags(tags, extra).len() >= tags.len(),
        merged_tags(tags, extra).take(tags.len() as int) == tags,
        forall|j: int| 0 <= j < extra.len() ==> has_tag(merged_tags(tags, extra), #[trigger] extra[j]),
    decreases extra.len(),
{
    if extra.len() > 0 {
        let init = extra.drop_last();
        law_merged_tags(tags, init);
        let acc = merged_tags(tags, init);
        let out = merged_tags(tags, extra);
        assert forall|j: int| 0 <= j < extra.len() implies has_tag(out, #[trigger] extra[j]) by {
            if j < init.len() {
                assert(extra[j] == init[j]);
                assert(has_tag(acc, init[j]));
                let k = choose|k: int| 0 <= k < acc.len() && crate::text::eq_ignore_ascii_case(#[trigger] acc[k], init[j]);
                assert(out[k] == acc[k]);
            } else {
                assert(extra[j] == extra.last());
                if !has_tag(acc, extra.last()) {
                    assert(out[acc.len() as int] == extra.last());
                    assert(crate::text::eq_ignore_ascii_case(out[acc.len() as int], extra.last()));
                }
            }
        }
        assert(out.take(tags.len() as int) =~= acc.take(tags.len() as int));
    } else {
        assert(tags.take(tags.len() as int) =~= tags);
    }
}


/// An entered relation type is stored as an accepted type, and storing it
/// again changes nothing.
pub proof fn law_relation_type_normalized(value: Seq<char>)
    ensures
        is_relation_type(relation_type_of(value)),
        relation_type_of(relation_type_of(value)) == relation_type_of(value),
{
    reveal_strlit("prerequisite");
    reveal_strlit("contains");
    reveal_strlit("related");
    reveal_strlit("contrast");
    reveal_strlit("application");
    reveal_strlit("source");
    reveal_strlit("supports");
    let t = relation_type_of(value);
    assert(strip_start(t, Strip::Whitespace) == t);
    assert(strip_end(t, Strip::Whitespace) == t);
}

/// An entered mastery state is stored as `new`, `learning` or `mastered`,
/// and storing it again changes nothing.
pub proof fn law_mastery_normalized(value: Seq<char>)
    ensures
        mastery_of(value) == "new"@ || mastery_of(value) == "learning"@ || mastery_of(value)
            == "mastered"@,
        mastery_of(mastery_of(value)) == mastery_of(value),
{
    reveal_strlit("new");
    reveal_strlit("learning");
    reveal_strlit("mastered");
    let t = mastery_of(value);
    assert(strip_start(t, Strip::Whitespace) == t);
    assert(strip_end(t, Strip::Whitespace) == t);
}

/// The `LIKE` search finds exactly the given cards that pass its filters.
pub proof fn law_like_search(cards: Seq<CardView>, f: FiltersView)
    ensures
        forall|x: CardView|
            #![trigger cards_matching(cards, f).contains(x)]
            #![trigger cards.contains(x)]
            cards_matching(cards, f).contains(x) <==> (cards.contains(x) && like_hit(x, f)),
    decreases cards.len(),
{
    if cards.len() > 0 {
        let init = cards.drop_last();
        law_like_search(init, f);
        let rest = cards_matching(init, f);
        let out = cards_matching(cards, f);
        assert forall|x: CardView| out.contains(x) implies (cards.contains(x) && like_hit(x, f)) by {
            let k = choose|k: int| 0 <= k < out.len() && out[k] == x;
            if k < rest.len() {
                assert(rest[k] == x);
                assert(rest.contains(x));
                let m = choose|m: int| 0 <= m < init.len() && init[m] == x;
                assert(cards[m] == x);
            } else {
                assert(x == cards.last());
                assert(cards[cards.len() - 1] == x);
            }
        }
        assert forall|x: CardView| (cards.contains(x) && like_hit(x, f)) implies out.contains(x) by {
            let k = choose|k: int| 0 <= k < cards.len() && cards[k] == x;
            if k < init.len() {
                assert(init[k] == x);
                assert(rest.contains(x));
                let m = choose|m: int| 0 <= m < rest.len() && rest[m] == x;
                assert(out[m] == x);
            } else {
                assert(out[out.len() - 1] == x);
            }
        }
    } else {
        assert forall|x: CardView| !cards_matching(cards, f).contains(x) by {}
    }
}

/// The file name made from a card title is never empty, has at most eighty
/// characters, and holds none of `<>:"/\|?*`.
pub proof fn law_safe_filename(value: Seq<char>)
    ensures
        safe_filename_of(value).len() > 0,
        safe_filename_of(value).len() <= 80,
        forall|i: int| 0 <= i < safe_filename_of(value).len() ==> !is_reserved_in_filename(#[trigger] safe_filename_of(value)[i]),
{
    reveal_strlit("CardMind Card");
    let r = replace_reserved(value);
    let a = strip_start(r, Strip::Whitespace);
    let b = strip_end(a, Strip::Whitespace);
    let c = strip_start(b, Strip::Dot);
    let d = strip_end(c, Strip::Dot);
    lemma_strip_keeps_chars(r, Strip::Whitespace);
    lemma_strip_keeps_chars(a, Strip::Whitespace);
    lemma_strip_keeps_chars(b, Strip::Dot);
    lemma_strip_keeps_chars(c, Strip::Dot);
    assert(trim(r) == b);
    assert(strip(b, Strip::Dot) == d);
    assert forall|i: int| 0 <= i < d.len() implies !is_reserved_in_filename(#[trigger] d[i]) by {
        assert(c.contains(d[i]));
        let k3 = choose|k: int| 0 <= k < c.len() && c[k] == d[i];
        assert(b.contains(c[k3]));
        let k2 = choose|k: int| 0 <= k < b.len() && b[k] == c[k3];
        assert(a.contains(b[k2]));
        let k1 = choose|k: int| 0 <= k < a.len() && a[k] == b[k2];
        assert(r.contains(a[k1]));
        let k0 = choose|k: int| 0 <= k < r.len() && r[k] == a[k1];
        assert(r[k0] == (if is_reserved_in_filename(value[k0]) { '-' } else { value[k0] }));
    }
    if d.len() > 0 {
        let out = safe_filename_of(value);
        assert forall|i: int| 0 <= i < out.len() implies !is_reserved_in_filename(#[trigger] out[i]) by {
            assert(out[i] == d[i]);
        }
    }
}


/// Reading a relation after editing it gives the edited relation.
pub proof fn law_get_after_update_relation(
    v: RepositoryView,
    r: RelationView,
    relation_type: Seq<char>,
    reason: Seq<char>,
    confidence_bits: u64,
)
    requires
        valid_tables(v),
        find_relation(v.relations, r.id) == Some(r),
    ensures
        find_relation(
            v.relations.update(
                position_of(relation_ids(v.relations), r.id),
                edited_relation(r, relation_type, reason, confidence_bits),
            ),
            r.id,
        ) == Some(edited_relation(r, relation_type, reason, confidence_bits)),
{
    let ids = relation_ids(v.relations);
    let p = position_of(ids, r.id);
    let u = edited_relation(r, relation_type, reason, confidence_bits);
    assert(ids.contains(r.id));
    assert(0 <= p < ids.len() && ids[p] == r.id);
    assert(relation_ids(v.relations.update(p, u)) =~= ids);
}

/// Without a usable API key the preview is ready at once and holds exactly
/// what the local extractor proposes, so confirming it saves what a direct
/// extraction saves.
pub proof fn law_keyless_preview_is_local_extraction(
    step: PreviewStep,
    text: Seq<char>,
    key: Option<Seq<char>>,
    model: Seq<char>,
)
    requires
        preview_started(step, text, key, model),
        usable_key(key) is None,
    ensures
        step matches PreviewStep::Ready(p) && p@.cards == local_extraction(text).cards
            && p@.relations == local_extraction(text).relations && p@.provider == "mock"@,
{
}

proof fn lemma_first_filled_line(lines: Seq<Seq<char>>)
    ensures
        match first_filled_line(lines) {
            Some(l) => l.len() > 0,
            None => true,
        },
    decreases lines.len(),
{
    if lines.len() > 0 && trim(lines[0]).len() == 0 {
        lemma_first_filled_line(lines.drop_first());
    }
}

/// An imported conversation always has a title: the given one, trimmed, if
/// it is not blank; else its first filled line, at most sixty characters.
pub proof fn law_conversation_title(title: Option<Seq<char>>, raw: Seq<char>)
    ensures
        conversation_title(title, raw).len() > 0,
        title_from_content(raw).len() <= 60,
{
    reveal_strlit("Untitled conversation");
    lemma_first_filled_line(split(raw, Separator::Newline));
    match first_filled_line(split(raw, Separator::Newline)) {
        Some(line) => {
            assert(take_chars(line, 60).len() > 0);
        },
        None => {},
    }
}


/// The graph has one node per stored card and one edge per stored relation,
/// each made from its row.
pub proof fn law_graph_covers_tables(v: RepositoryView)
    ensures
        newest_cards(v.cards).map_values(|c: CardView| node_of(c)).len() == v.cards.len(),
        newest_relations(v.relations).map_values(|r: RelationView| edge_of(r)).len() == v.relations.len(),
        forall|k: int|
            0 <= k < v.cards.len() ==> newest_cards(v.cards).map_values(|c: CardView| node_of(c)).contains(
                node_of(#[trigger] v.cards[k]),
            ),
        forall|k: int|
            0 <= k < v.relations.len() ==> newest_relations(v.relations).map_values(
                |r: RelationView| edge_of(r),
            ).contains(edge_of(#[trigger] v.relations[k])),
{
    law_cards_newest_first(v.cards);
    law_relations_newest_first(v.relations);
    let nodes: Seq<GraphNodeView> = newest_cards(v.cards).map_values(|c: CardView| node_of(c));
    let edges: Seq<GraphEdgeView> = newest_relations(v.relations).map_values(|r: RelationView| edge_of(r));
    assert forall|k: int| 0 <= k < v.cards.len() implies nodes.contains(node_of(#[trigger] v.cards[k])) by {
        assert(v.cards.contains(v.cards[k]));
        let m = choose|m: int| 0 <= m < newest_cards(v.cards).len() && newest_cards(v.cards)[m] == v.cards[k];
        assert(nodes[m] == node_of(v.cards[k]));
    }
    assert forall|k: int| 0 <= k < v.relations.len() implies edges.contains(edge_of(#[trigger] v.relations[k])) by {
        assert(v.relations.contains(v.relations[k]));
        let m = choose|m: int|
            0 <= m < newest_relations(v.relations).len() && newest_relations(v.relations)[m] == v.relations[k];
        assert(edges[m] == edge_of(v.relations[k]));
    }
}


/// After a merge no two relations link the same cards the same way for the
/// same reason, and every stored relation, moved from the merged card to
/// the target, is still held by one of them unless it became a self-link.
pub proof fn law_merge_keeps_links(relations: Seq<RelationView>, from: Seq<char>, to: Seq<char>)
    ensures
        forall|a: int, b: int|
            0 <= a < b < merged_relations(relations, from, to).len() ==> !same_link(
                #[trigger] merged_relations(relations, from, to)[a],
                #[trigger] merged_relations(relations, from, to)[b],
            ),
        forall|i: int|
            0 <= i < relations.len() && redirect_relation(#[trigger] relations[i], from, to).source_card_id
                != redirect_relation(relations[i], from, to).target_card_id ==> exists|k: int|
                0 <= k < merged_relations(relations, from, to).len() && same_link(
                    #[trigger] merged_relations(relations, from, to)[k],
                    redirect_relation(relations[i], from, to),
                ),
{
    let red = redirect_relations(relations, from, to);
    let ws = without_self_links(red);
    lemma_without_self_links_keeps(red);
    lemma_first_links_distinct(ws);
    lemma_first_links_hold_links(ws);
    assert forall|i: int|
        0 <= i < relations.len() && redirect_relation(#[trigger] relations[i], from, to).source_card_id
            != redirect_relation(relations[i], from, to).target_card_id implies exists|k: int|
            0 <= k < merged_relations(relations, from, to).len() && same_link(
                #[trigger] merged_relations(relations, from, to)[k],
                redirect_relation(relations[i], from, to),
            ) by {
        assert(red[i] == redirect_relation(relations[i], from, to));
        assert(ws.contains(red[i]));
        let w = choose|w: int| 0 <= w < ws.len() && ws[w] == red[i];
        let k = choose|k: int| 0 <= k < crate::merge::first_links(ws).len() && same_link(
            #[trigger] crate::merge::first_links(ws)[k],
            #[trigger] ws[w],
        );
        assert(same_link(merged_relations(relations, from, to)[k], redirect_relation(relations[i], from, to)));
    }
}


/// No piece of a split holds a separator.
proof fn lemma_split_pieces_plain(s: Seq<char>, sep: Separator)
    ensures
        split(s, sep).len() >= 1,
        forall|i: int, j: int|
            0 <= i < split(s, sep).len() && 0 <= j < split(s, sep)[i].len() ==> !is_separator(
                sep,
                #[trigger] split(s, sep)[i][j],
            ),
    decreases s.len(),
{
    if s.len() > 0 {
        lemma_split_pieces_plain(s.drop_last(), sep);
        let init = split(s.drop_last(), sep);
        let out = split(s, sep);
        assert forall|i: int, j: int|
            0 <= i < out.len() && 0 <= j < out[i].len() implies !is_separator(sep, #[trigger] out[i][j]) by {
            if !is_separator(sep, s.last()) && i == init.len() - 1 {
                if j < init.last().len() {
                    assert(out[i][j] == init[i][j]);
                }
            } else if i < init.len() {
                assert(out[i] == init[i]);
            }
        }
    }
}

/// Appending separator-free characters extends the last piece.
proof fn lemma_split_append_plain(a: Seq<char>, b: Seq<char>, sep: Separator)
    requires
        forall|j: int| 0 <= j < b.len() ==> !is_separator(sep, #[trigger] b[j]),
    ensures
        split(a + b, sep) == split(a, sep).update(
            split(a, sep).len() - 1,
            split(a, sep).last() + b,
        ),
    decreases b.len(),
{
    lemma_split_pieces_plain(a, sep);
    if b.len() == 0 {
        assert(a + b =~= a);
        assert(split(a, sep).last() + b =~= split(a, sep).last());
        assert(split(a, sep).update(split(a, sep).len() - 1, split(a, sep).last()) =~= split(a, sep));
    } else {
        let b0 = b.drop_last();
        let c = b.last();
        lemma_split_append_plain(a, b0, sep);
        assert((a + b).drop_last() =~= a + b0);
        assert((a + b).last() == c);
        assert(!is_separator(sep, b[b.len() - 1]));
        let p = split(a, sep);
        let l = p.last();
        assert((l + b0).push(c) =~= l + b);
        assert(split(a + b, sep) =~= p.update(p.len() - 1, l + b));
    }
}

/// Two or more separator-free, non-empty pieces joined by a space split
/// back into the pieces.
proof fn lemma_split_join(t: Seq<Seq<char>>)
    requires
        t.len() >= 1,
        forall|i: int, j: int| 0 <= i < t.len() && 0 <= j < t[i].len() ==> !is_space(#[trigger] t[i][j]),
    ensures
        split(join(t, " "@), Separator::Whitespace) == t,
    decreases t.len(),
{
    reveal_strlit(" ");
    let e = Seq::<char>::empty();
    assert(split(e, Separator::Whitespace) == seq![e]);
    if t.len() == 1 {
        lemma_split_append_plain(e, t[0], Separator::Whitespace);
        assert(e + t[0] =~= t[0]);
        assert(seq![e].update(0, e + t[0]) =~= t);
    } else {
        let t0 = t.drop_last();
        let w = t.last();
        assert forall|i: int, j: int| 0 <= i < t0.len() && 0 <= j < t0[i].len() implies !is_space(#[trigger] t0[i][j]) by {
            assert(t0[i] == t[i]);
        }
        lemma_split_join(t0);
        let a = join(t0, " "@) + " "@;
        assert(a =~= join(t0, " "@).push(' '));
        assert(a.drop_last() =~= join(t0, " "@));
        assert(is_space(' '));
        assert(split(a, Separator::Whitespace) == t0.push(e));
        assert forall|j: int| 0 <= j < w.len() implies !is_separator(Separator::Whitespace, #[trigger] w[j]) by {
            assert(w == t[t.len() - 1]);
        }
        lemma_split_append_plain(a, w, Separator::Whitespace);
        assert(t0.push(e).update(t0.len() as int, e + w) =~= t);
    }
}

/// Non-empty pieces are kept as they are.
proof fn lemma_non_empty_keeps(t: Seq<Seq<char>>)
    requires
        forall|i: int| 0 <= i < t.len() ==> (#[trigger] t[i]).len() > 0,
    ensures
        non_empty(t) == t,
    decreases t.len(),
{
    if t.len() > 0 {
        assert forall|i: int| 0 <= i < t.drop_last().len() implies (#[trigger] t.drop_last()[i]).len() > 0 by {
            assert(t.drop_last()[i] == t[i]);
        }
        lemma_non_empty_keeps(t.drop_last());
        assert(t.drop_last().push(t.last()) =~= t);
    }
}

/// What `non_empty` keeps comes from its input.
proof fn lemma_non_empty_members(t: Seq<Seq<char>>)
    ensures
        forall|i: int| 0 <= i < non_empty(t).len() ==> t.contains(#[trigger] non_empty(t)[i]),
        forall|i: int| 0 <= i < non_empty(t).len() ==> (#[trigger] non_empty(t)[i]).len() > 0,
    decreases t.len(),
{
    if t.len() > 0 {
        lemma_non_empty_members(t.drop_last());
        let rest = non_empty(t.drop_last());
        let out = non_empty(t);
        assert forall|i: int| 0 <= i < out.len() implies t.contains(#[trigger] out[i]) && out[i].len() > 0 by {
            if i < rest.len() {
                assert(out[i] == rest[i]);
                let k = choose|k: int| 0 <= k < t.drop_last().len() && t.drop_last()[k] == rest[i];
                assert(t[k] == rest[i]);
            } else {
                assert(t[t.len() - 1] == t.last());
            }
        }
    }
}

/// Every character of a piece of a split text is a character of the text,
/// so a property of all characters of the text holds of the pieces.
proof fn lemma_split_keeps(s: Seq<char>, sep: Separator, p: spec_fn(char) -> bool)
    requires
        forall|x: int| 0 <= x < s.len() ==> p(#[trigger] s[x]),
    ensures
        forall|i: int, j: int|
            0 <= i < split(s, sep).len() && 0 <= j < split(s, sep)[i].len() ==> p(
                #[trigger] split(s, sep)[i][j],
            ),
    decreases s.len(),
{
    if s.len() > 0 {
        let init = s.drop_last();
        assert forall|x: int| 0 <= x < init.len() implies p(#[trigger] init[x]) by {
            assert(init[x] == s[x]);
        }
        lemma_split_keeps(init, sep, p);
        lemma_split_pieces_plain(init, sep);
        let before = split(init, sep);
        let out = split(s, sep);
        assert(p(s[s.len() - 1]));
        assert forall|i: int, j: int| 0 <= i < out.len() && 0 <= j < out[i].len() implies p(
            #[trigger] out[i][j],
        ) by {
            if !is_separator(sep, s.last()) && i == before.len() - 1 {
                if j < before[i].len() {
                    assert(out[i][j] == before[i][j]);
                } else {
                    assert(out[i][j] == s.last());
                }
            } else if i < before.len() {
                assert(out[i] == before[i]);
            }
        }
    }
}

/// The pieces of words without whitespace hold search characters only, and
/// no whitespace.
proof fn lemma_word_pieces_plain(ws: Seq<Seq<char>>)
    requires
        forall|m: int, x: int| 0 <= m < ws.len() && 0 <= x < ws[m].len() ==> !is_space(#[trigger] ws[m][x]),
    ensures
        forall|i: int, j: int|
            0 <= i < word_pieces(ws).len() && 0 <= j < word_pieces(ws)[i].len() ==> !is_space(
                #[trigger] word_pieces(ws)[i][j],
            ) && is_search_char(word_pieces(ws)[i][j]),
    decreases ws.len(),
{
    if ws.len() > 0 {
        let init = ws.drop_last();
        let w = ws.last();
        assert forall|m: int, x: int| 0 <= m < init.len() && 0 <= x < init[m].len() implies !is_space(
            #[trigger] init[m][x],
        ) by {
            assert(init[m] == ws[m]);
        }
        lemma_word_pieces_plain(init);
        assert forall|x: int| 0 <= x < w.len() implies (|c: char| !is_space(c))(#[trigger] w[x]) by {
            assert(ws[ws.len() - 1] == w);
        }
        lemma_split_keeps(w, Separator::NonSearch, |c: char| !is_space(c));
        lemma_split_pieces_plain(w, Separator::NonSearch);
        let before = word_pieces(init);
        let added = split(w, Separator::NonSearch);
        let out = word_pieces(ws);
        assert(out == before + added);
        assert forall|i: int, j: int| 0 <= i < out.len() && 0 <= j < out[i].len() implies !is_space(
            #[trigger] out[i][j],
        ) && is_search_char(out[i][j]) by {
            if i < before.len() {
                assert(out[i] == before[i]);
            } else {
                assert(out[i] == added[i - before.len()]);
                assert(!is_separator(Separator::NonSearch, added[i - before.len()][j]));
            }
        }
    }
}

/// Words made of search characters only are their own pieces.
proof fn lemma_word_pieces_whole(t: Seq<Seq<char>>)
    requires
        forall|i: int, j: int| 0 <= i < t.len() && 0 <= j < t[i].len() ==> is_search_char(#[trigger] t[i][j]),
    ensures
        word_pieces(t) == t,
    decreases t.len(),
{
    if t.len() > 0 {
        let init = t.drop_last();
        let w = t.last();
        assert forall|i: int, j: int| 0 <= i < init.len() && 0 <= j < init[i].len() implies is_search_char(
            #[trigger] init[i][j],
        ) by {
            assert(init[i] == t[i]);
        }
        lemma_word_pieces_whole(init);
        assert forall|j: int| 0 <= j < w.len() implies !is_separator(Separator::NonSearch, #[trigger] w[j]) by {
            assert(t[t.len() - 1] == w);
        }
        let e = Seq::<char>::empty();
        lemma_split_append_plain(e, w, Separator::NonSearch);
        assert(split(e, Separator::NonSearch) == seq![e]);
        assert(e + w =~= w);
        assert(split(w, Separator::NonSearch) =~= seq![w]);
        assert(init + seq![w] =~= t);
    }
}

/// Making a made query safe again changes nothing.
pub proof fn law_fts_query_stable(query: Seq<char>)
    ensures
        fts_query_of(fts_query_of(query)) == fts_query_of(query),
{
    let ws = words(query);
    let pieces = split(query, Separator::Whitespace);
    lemma_split_pieces_plain(query, Separator::Whitespace);
    lemma_non_empty_members(pieces);
    assert forall|m: int, x: int| 0 <= m < ws.len() && 0 <= x < ws[m].len() implies !is_space(
        #[trigger] ws[m][x],
    ) by {
        assert(pieces.contains(ws[m]));
        let p = choose|p: int| 0 <= p < pieces.len() && pieces[p] == ws[m];
        assert(!is_separator(Separator::Whitespace, pieces[p][x]));
    }
    let all = word_pieces(ws);
    lemma_word_pieces_plain(ws);
    let terms = search_terms(ws);
    lemma_non_empty_members(all);
    // every term: non-empty, search characters only, no whitespace
    assert forall|i: int, j: int| 0 <= i < terms.len() && 0 <= j < terms[i].len() implies !is_space(
        #[trigger] terms[i][j],
    ) && is_search_char(terms[i][j]) by {
        assert(all.contains(terms[i]));
        let m = choose|m: int| 0 <= m < all.len() && all[m] == terms[i];
        assert(all[m][j] == terms[i][j]);
    }
    let made = join(terms, " "@);
    assert(fts_query_of(query) == made);
    if terms.len() == 0 {
        let e = Seq::<char>::empty();
        assert(made == e);
        assert(split(e, Separator::Whitespace) == seq![e]);
        assert(seq![e].drop_last() =~= Seq::<Seq<char>>::empty());
        assert(seq![e].last() == e);
        assert(non_empty(Seq::<Seq<char>>::empty()) == Seq::<Seq<char>>::empty());
        assert(non_empty(seq![e]) == non_empty(seq![e].drop_last()));
        assert(non_empty(seq![e]) =~= Seq::<Seq<char>>::empty());
        assert(words(made) =~= Seq::<Seq<char>>::empty());
        assert(word_pieces(Seq::<Seq<char>>::empty()) =~= Seq::<Seq<char>>::empty());
        assert(search_terms(words(made)) =~= Seq::<Seq<char>>::empty());
    } else {
        lemma_split_join(terms);
        lemma_non_empty_keeps(terms);
        assert(words(made) == terms);
        lemma_word_pieces_whole(terms);
        assert(search_terms(terms) == terms);
    }
}

/// The full-text search finds exactly the given cards that the index named
/// for the query and that pass the tag, type and mastery filters.
pub proof fn law_fts_search(cards: Seq<CardView>, matched: Seq<Seq<char>>, f: FiltersView)
    ensures
        forall|x: CardView|
            #![trigger cards_found(cards, matched, f).contains(x)]
            #![trigger cards.contains(x)]
            cards_found(cards, matched, f).contains(x) <==> (cards.contains(x) && fts_hit(x, matched, f)),
    decreases cards.len(),
{
    if cards.len() > 0 {
        let init = cards.drop_last();
        law_fts_search(init, matched, f);
        let rest = cards_found(init, matched, f);
        let out = cards_found(cards, matched, f);
        assert forall|x: CardView| out.contains(x) implies (cards.contains(x) && fts_hit(x, matched, f)) by {
            let k = choose|k: int| 0 <= k < out.len() && out[k] == x;
            if k < rest.len() {
                assert(rest[k] == x);
                assert(rest.contains(x));
                let m = choose|m: int| 0 <= m < init.len() && init[m] == x;
                assert(cards[m] == x);
            } else {
                assert(x == cards.last());
                assert(cards[cards.len() - 1] == x);
            }
        }
        assert forall|x: CardView| (cards.contains(x) && fts_hit(x, matched, f)) implies out.contains(x) by {
            let k = choose|k: int| 0 <= k < cards.len() && cards[k] == x;
            if k < init.len() {
                assert(init[k] == x);
                assert(rest.contains(x));
                let m = choose|m: int| 0 <= m < rest.len() && rest[m] == x;
                assert(out[m] == x);
            } else {
                assert(out[out.len() - 1] == x);
            }
        }
    } else {
        assert forall|x: CardView| !cards_found(cards, matched, f).contains(x) by {}
    }
}

/// No card of the list is older than a card after it.
pub open spec fn listed_newest_first(s: Seq<CardView>) -> bool {
    forall|p: int, q: int|
        0 <= p < q < s.len() ==> !text_lt((#[trigger] s[p]).created_at, (#[trigger] s[q]).created_at)
}

/// The `LIKE` search keeps the order of the cards it is given.
proof fn lemma_matching_keeps_order(cards: Seq<CardView>, f: FiltersView)
    requires
        listed_newest_first(cards),
    ensures
        listed_newest_first(cards_matching(cards, f)),
    decreases cards.len(),
{
    if cards.len() > 0 {
        let init = cards.drop_last();
        assert forall|p: int, q: int| 0 <= p < q < init.len() implies !text_lt(
            (#[trigger] init[p]).created_at,
            (#[trigger] init[q]).created_at,
        ) by {
            assert(init[p] == cards[p] && init[q] == cards[q]);
        }
        lemma_matching_keeps_order(init, f);
        law_like_search(init, f);
        let rest = cards_matching(init, f);
        let out = cards_matching(cards, f);
        if like_hit(cards.last(), f) {
            assert forall|p: int, q: int| 0 <= p < q < out.len() implies !text_lt(
                (#[trigger] out[p]).created_at,
                (#[trigger] out[q]).created_at,
            ) by {
                if q < rest.len() {
                    assert(out[p] == rest[p] && out[q] == rest[q]);
                } else {
                    assert(out[p] == rest[p]);
                    assert(rest.contains(rest[p]));
                    let k = choose|k: int| 0 <= k < init.len() && init[k] == rest[p];
                    assert(cards[k] == out[p]);
                    assert(cards[cards.len() - 1] == out[q]);
                }
            }
        }
    }
}

/// The full-text search keeps the order of the cards it is given.
proof fn lemma_found_keeps_order(cards: Seq<CardView>, matched: Seq<Seq<char>>, f: FiltersView)
    requires
        listed_newest_first(cards),
    ensures
        listed_newest_first(cards_found(cards, matched, f)),
    decreases cards.len(),
{
    if cards.len() > 0 {
        let init = cards.drop_last();
        assert forall|p: int, q: int| 0 <= p < q < init.len() implies !text_lt(
            (#[trigger] init[p]).created_at,
            (#[trigger] init[q]).created_at,
        ) by {
            assert(init[p] == cards[p] && init[q] == cards[q]);
        }
        lemma_found_keeps_order(init, matched, f);
        law_fts_search(init, matched, f);
        let rest = cards_found(init, matched, f);
        let out = cards_found(cards, matched, f);
        if fts_hit(cards.last(), matched, f) {
            assert forall|p: int, q: int| 0 <= p < q < out.len() implies !text_lt(
                (#[trigger] out[p]).created_at,
                (#[trigger] out[q]).created_at,
            ) by {
                if q < rest.len() {
                    assert(out[p] == rest[p] && out[q] == rest[q]);
                } else {
                    assert(out[p] == rest[p]);
                    assert(rest.contains(rest[p]));
                    let k = choose|k: int| 0 <= k < init.len() && init[k] == rest[p];
                    assert(cards[k] == out[p]);
                    assert(cards[cards.len() - 1] == out[q]);
                }
            }
        }
    }
}

/// Search results come newest first: of the stored cards listed newest
/// first, those that the `LIKE` search keeps and those that the full-text
/// search keeps each come with no card older than one after it.
pub proof fn law_search_newest_first(cards: Seq<CardView>, matched: Seq<Seq<char>>, f: FiltersView)
    ensures
        listed_newest_first(cards_matching(newest_cards(cards), f)),
        listed_newest_first(cards_found(newest_cards(cards), matched, f)),
{
    law_cards_newest_first(cards);
    let sorted = newest_cards(cards);
    assert forall|p: int, q: int| 0 <= p < q < sorted.len() implies !text_lt(
        (#[trigger] sorted[p]).created_at,
        (#[trigger] sorted[q]).created_at,
    ) by {}
    lemma_matching_keeps_order(sorted, f);
    lemma_found_keeps_order(sorted, matched, f);
}

/// The relation lines of a list are the line of each relation, in order:
/// the lines of those before it, its own line, the lines of those after it.
proof fn lemma_relation_lines_split(rs: Seq<RelationView>, id: Seq<char>, cards: Seq<CardView>, k: int)
    requires
        0 <= k < rs.len(),
    ensures
        relation_lines(rs, id, cards) == relation_lines(rs.take(k), id, cards) + relation_line(rs[k], id, cards)
            + relation_lines(rs.skip(k + 1), id, cards),
    decreases rs.len(),
{
    let dl = rs.drop_last();
    let e = Seq::<RelationView>::empty();
    if k == rs.len() - 1 {
        assert(rs.take(k) =~= dl);
        assert(rs.skip(k + 1) =~= e);
        assert(relation_lines(e, id, cards) == Seq::<char>::empty());
        assert(rs[k] == rs.last());
        assert(relation_lines(rs, id, cards) =~= relation_lines(rs.take(k), id, cards) + relation_line(
            rs[k],
            id,
            cards,
        ) + Seq::<char>::empty());
    } else {
        lemma_relation_lines_split(dl, id, cards, k);
        assert(dl.take(k) =~= rs.take(k));
        assert(dl[k] == rs[k]);
        let t = rs.skip(k + 1);
        assert(t.len() > 0);
        assert(t.drop_last() =~= dl.skip(k + 1));
        assert(t.last() == rs.last());
        let a = relation_lines(rs.take(k), id, cards);
        let l = relation_line(rs[k], id, cards);
        let b = relation_lines(dl.skip(k + 1), id, cards);
        let z = relation_line(rs.last(), id, cards);
        assert(relation_lines(t, id, cards) == b + z);
        assert(relation_lines(rs, id, cards) == a + l + b + z);
        assert(a + l + b + z =~= a + l + (b + z));
    }
}

/// A stored relation with the card at one end is among those touching it.
proof fn lemma_touching_holds(relations: Seq<RelationView>, id: Seq<char>, j: int)
    requires
        0 <= j < relations.len(),
        relations[j].source_card_id == id || relations[j].target_card_id == id,
    ensures
        relations_touching(relations, id).contains(relations[j]),
    decreases relations.len(),
{
    let rest = relations_touching(relations.drop_last(), id);
    if j == relations.len() - 1 {
        let out = relations_touching(relations, id);
        assert(out[out.len() - 1] == relations[j]);
    } else {
        assert(relations.drop_last()[j] == relations[j]);
        lemma_touching_holds(relations.drop_last(), id, j);
        let m = choose|m: int| 0 <= m < rest.len() && rest[m] == relations[j];
        assert(relations_touching(relations, id)[m] == relations[j]);
    }
}

/// `needle` inside `a + needle + b`, and so inside anything put before.
proof fn lemma_contains_middle(a: Seq<char>, needle: Seq<char>, b: Seq<char>)
    ensures
        contains(a + needle + b, needle),
{
    let hay = a + needle + b;
    assert(hay.subrange(a.len() as int, (a.len() + needle.len()) as int) =~= needle);
    assert(occurs_at(hay, needle, a.len() as int));
}

/// The exported section of a card lists every stored relation that has the
/// card at one end, each as its own line, in the order of the relations
/// given: the section holds the line of each such relation, and the lines
/// of the touching relations are, one after the other, the line of each.
pub proof fn law_export_lists_every_relation(c: CardView, relations: Seq<RelationView>, cards: Seq<CardView>)
    ensures
        forall|j: int|
            0 <= j < relations.len() && (relations[j].source_card_id == c.id || relations[j].target_card_id
                == c.id) ==> contains(
                markdown_export(seq![c], relations, cards),
                relation_line(#[trigger] relations[j], c.id, cards),
            ),
        forall|k: int|
            0 <= k < relations_touching(relations, c.id).len() ==> relation_lines(
                relations_touching(relations, c.id),
                c.id,
                cards,
            ) == relation_lines(relations_touching(relations, c.id).take(k), c.id, cards) + relation_line(
                #[trigger] relations_touching(relations, c.id)[k],
                c.id,
                cards,
            ) + relation_lines(relations_touching(relations, c.id).skip(k + 1), c.id, cards),
{
    let rel = relations_touching(relations, c.id);
    assert forall|k: int| 0 <= k < rel.len() implies relation_lines(rel, c.id, cards) == relation_lines(
        rel.take(k),
        c.id,
        cards,
    ) + relation_line(#[trigger] rel[k], c.id, cards) + relation_lines(rel.skip(k + 1), c.id, cards) by {
        lemma_relation_lines_split(rel, c.id, cards, k);
    }
    assert forall|j: int|
        0 <= j < relations.len() && (relations[j].source_card_id == c.id || relations[j].target_card_id
            == c.id) implies contains(
        markdown_export(seq![c], relations, cards),
        relation_line(#[trigger] relations[j], c.id, cards),
    ) by {
        lemma_touching_holds(relations, c.id, j);
        let k = choose|k: int| 0 <= k < rel.len() && rel[k] == relations[j];
        lemma_export_holds_line(c, relations, cards, k);
    }
}

/// The export of one card holds the line of its `k`-th touching relation.
#[verifier::rlimit(40)]
proof fn lemma_export_holds_line(c: CardView, relations: Seq<RelationView>, cards: Seq<CardView>, k: int)
    requires
        0 <= k < relations_touching(relations, c.id).len(),
    ensures
        contains(
            markdown_export(seq![c], relations, cards),
            relation_line(relations_touching(relations, c.id)[k], c.id, cards),
        ),
{
    let rel = relations_touching(relations, c.id);
    lemma_relation_lines_split(rel, c.id, cards, k);
    let pfx = "## "@ + c.title + "\n\n"@ + "摘要：\n"@ + c.summary + "\n\n"@ + "内容：\n"@ + c.content
        + "\n\n"@ + "来源对话：\n"@ + c.source_conversation_id + "\n\n"@ + "标签：\n"@ + join(
        c.tags,
        ", "@,
    ) + "\n\n"@ + "关系：\n"@;
    let a = relation_lines(rel.take(k), c.id, cards);
    let l = relation_line(rel[k], c.id, cards);
    let b = relation_lines(rel.skip(k + 1), c.id, cards);
    let head = "# CardMind Export\n\n"@ + Seq::<char>::empty() + pfx + a;
    let tail = b + "\n"@;
    assert(card_section(c, relations, cards) == pfx + (a + l + b + "\n"@));
    assert(seq![c].drop_last() =~= Seq::<CardView>::empty());
    assert(seq![c].last() == c);
    assert(card_sections(Seq::<CardView>::empty(), relations, cards) == Seq::<char>::empty());
    assert(card_sections(seq![c], relations, cards) == Seq::<char>::empty() + card_section(
        c,
        relations,
        cards,
    ));
    assert(markdown_export(seq![c], relations, cards) =~= head + l + tail);
    lemma_contains_middle(head, l, tail);
}

/// The `LIKE` search looks for the query in the title, the summary and the
/// content: a given card whose title, summary or content holds the query
/// (as a `LIKE` substring) and that passes the other filters is found, and
/// a found card holds the query in one of the three, or the query is blank.
pub proof fn law_like_search_fields(cards: Seq<CardView>, c: CardView, f: FiltersView)
    ensures
        cards.contains(c) && (like_contains(c.title, f.query) || like_contains(c.summary, f.query)
            || like_contains(c.content, f.query)) && (f.tag.len() == 0 || like_contains(
            crate::codec::tags_json_text(c.tags),
            f.tag,
        )) && (f.card_type.len() == 0 || c.card_type == f.card_type) && (f.mastery_status.len() == 0
            || c.mastery_status == f.mastery_status) ==> cards_matching(cards, f).contains(c),
        cards_matching(cards, f).contains(c) ==> cards.contains(c) && (f.query.len() == 0 || like_contains(
            c.title,
            f.query,
        ) || like_contains(c.summary, f.query) || like_contains(c.content, f.query)),
{
    law_like_search(cards, f);
}

/// The edges of the graph that `get_graph` builds from the stored relations.
pub open spec fn graph_edges(relations: Seq<RelationView>) -> Seq<GraphEdgeView> {
    newest_relations(relations).map_values(|r: RelationView| edge_of(r))
}

/// The graph keeps the direction of every relation: each stored relation
/// has an edge with its id, type and reason that leaves its source card and
/// enters its target card, and each edge is such an edge of a stored
/// relation.
pub proof fn law_graph_edges_keep_direction(v: RepositoryView)
    ensures
        forall|k: int|
            0 <= k < v.relations.len() ==> exists|j: int|
                #![trigger graph_edges(v.relations)[j]]
                0 <= j < v.relations.len() && {
                    let e = graph_edges(v.relations)[j];
                    let r = #[trigger] v.relations[k];
                    &&& e.id == r.id
                    &&& e.source == r.source_card_id
                    &&& e.target == r.target_card_id
                    &&& e.label == r.relation_type
                    &&& e.reason == r.reason
                },
        forall|j: int|
            0 <= j < graph_edges(v.relations).len() ==> exists|k: int|
                #![trigger v.relations[k]]
                0 <= k < v.relations.len() && {
                    let e = #[trigger] graph_edges(v.relations)[j];
                    let r = v.relations[k];
                    &&& e.id == r.id
                    &&& e.source == r.source_card_id
                    &&& e.target == r.target_card_id
                    &&& e.label == r.relation_type
                    &&& e.reason == r.reason
                },
{
    law_relations_newest_first(v.relations);
    let sorted = newest_relations(v.relations);
    let edges = graph_edges(v.relations);
    assert forall|k: int| 0 <= k < v.relations.len() implies exists|j: int|
        #![trigger edges[j]]
        0 <= j < v.relations.len() && {
            let e = edges[j];
            let r = #[trigger] v.relations[k];
            &&& e.id == r.id
            &&& e.source == r.source_card_id
            &&& e.target == r.target_card_id
            &&& e.label == r.relation_type
            &&& e.reason == r.reason
        } by {
        assert(v.relations.contains(v.relations[k]));
        assert(sorted.contains(v.relations[k]));
        let j = choose|j: int| 0 <= j < sorted.len() && sorted[j] == v.relations[k];
        assert(edges[j] == edge_of(sorted[j]));
    }
    assert forall|j: int| 0 <= j < edges.len() implies exists|k: int|
        #![trigger v.relations[k]]
        0 <= k < v.relations.len() && {
            let e = #[trigger] edges[j];
            let r = v.relations[k];
            &&& e.id == r.id
            &&& e.source == r.source_card_id
            &&& e.target == r.target_card_id
            &&& e.label == r.relation_type
            &&& e.reason == r.reason
        } by {
        assert(edges[j] == edge_of(sorted[j]));
        assert(sorted.contains(sorted[j]));
        assert(v.relations.contains(sorted[j]));
        let k = choose|k: int| 0 <= k < v.relations.len() && v.relations[k] == sorted[j];
        assert(v.relations[k] == sorted[j]);
    }
}

/// A typed title wins: an imported conversation whose given title is not
/// blank is stored under that title, trimmed; only a missing or blank
/// title falls back to the first filled line of the content.
pub proof fn law_given_title_wins(title: Option<Seq<char>>, raw: Seq<char>)
    ensures
        title is Some && trim(title->0).len() > 0 ==> conversation_title(title, raw) == trim(title->0),
        title is None || trim(title->0).len() == 0 ==> conversation_title(title, raw) == title_from_content(raw),
{
}

/// Merging keeps the target card's own title, summary, type and mastery
/// state (as stored, trimmed) under its id; the merged card's content
/// starts with the target's.
pub proof fn law_merge_keeps_target_fields(v: RepositoryView, src: CardView, tgt: CardView, updated_at: Seq<char>)
    requires
        valid_tables(v),
        find_card(v.cards, src.id) == Some(src),
        find_card(v.cards, tgt.id) == Some(tgt),
        src.id != tgt.id,
    ensures
        ({
            let u = edited_card(tgt, merge_edit(src, tgt), updated_at);
            let cards = cards_without(
                v.cards.update(position_of(card_ids(v.cards), tgt.id), u),
                src.id,
            );
            &&& find_card(cards, tgt.id) == Some(u)
            &&& u.id == tgt.id
            &&& u.title == trim(tgt.title)
            &&& u.summary == trim(tgt.summary)
            &&& u.card_type == trim(tgt.card_type)
            &&& u.mastery_status == mastery_of(tgt.mastery_status)
            &&& u.source_conversation_id == tgt.source_conversation_id
            &&& u.created_at == tgt.created_at
        }),
{
    law_merge_cards(v, src, tgt, updated_at);
}

} // verus!
