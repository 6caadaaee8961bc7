//! What merging a duplicate card into another one does to the content, the
//! tags and the relations.

use vstd::prelude::*;
use crate::models::{CardEditView, CardView, RelationView};
use crate::text::{eq_ignore_ascii_case, trim};

verus! {

/// Some tag equals `tag`, ASCII case ignored.
pub open spec fn has_tag(tags: Seq<Seq<char>>, tag: Seq<char>) -> bool {
    exists|i: int| 0 <= i < tags.len() && eq_ignore_ascii_case(#[trigger] tags[i], tag)
}

/// `tags` followed by those of `extra` that it does not hold yet, ASCII case ignored.
pub open spec fn merged_tags(tags: Seq<Seq<char>>, extra: Seq<Seq<char>>) -> Seq<Seq<char>>
    decreases extra.len(),
{
    if extra.len() == 0 {
        tags
    } else {
        let acc = merged_tags(tags, extra.drop_last());
        if has_tag(acc, extra.last()) {
            acc
        } else {
            acc.push(extra.last())
        }
    }
}

/// The content of the target after the merge: its own, a rule, the title of
/// the merged card and its content.
pub open spec fn merged_content(target: CardView, source: CardView) -> Seq<char> {
    trim(target.content) + "\n\n---\n\n合并来源："@ + trim(source.title) + "\n\n"@ + trim(
        source.content,
    )
}

/// The edit that a merge applies to the target card.
pub open spec fn merge_edit(source: CardView, target: CardView) -> CardEditView {
    CardEditView {
        id: target.id,
        title: target.title,
        summary: target.summary,
        content: merged_content(target, source),
        card_type: target.card_type,
        tags: merged_tags(target.tags, source.tags),
        mastery_status: target.mastery_status,
    }
}

pub open spec fn redirect_end(id: Seq<char>, from: Seq<char>, to: Seq<char>) -> Seq<char> {
    if id == from {
        to
    } else {
        id
    }
}

/// The relation with its ends at `from` moved to `to`.
pub open spec fn redirect_relation(r: RelationView, from: Seq<char>, to: Seq<char>) -> RelationView {
    RelationView {
        source_card_id: redirect_end(r.source_card_id, from, to),
        target_card_id: redirect_end(r.target_card_id, from, to),
        ..r
    }
}

pub open spec fn redirect_relations(relations: Seq<RelationView>, from: Seq<char>, to: Seq<char>) -> Seq<
    RelationView,
> {
    relations.map_values(|r: RelationView| redirect_relation(r, from, to))
}

/// The relations whose two ends differ, in order.
pub open spec fn without_self_links(relations: Seq<RelationView>) -> Seq<RelationView>
    decreases relations.len(),
{
    if relations.len() == 0 {
        relations
    } else {
        let rest = without_self_links(relations.drop_last());
        let r = relations.last();
        if r.source_card_id != r.target_card_id {
            rest.push(r)
        } else {
            rest
        }
    }
}

/// Two relations link the same cards the same way for the same reason.
pub open spec fn same_link(a: RelationView, b: RelationView) -> bool {
    &&& a.source_card_id == b.source_card_id
    &&& a.target_card_id == b.target_card_id
    &&& a.relation_type == b.relation_type
    &&& a.reason == b.reason
}

/// Relations repeating an earlier one's link are dropped; the first stays.
pub open spec fn first_links(relations: Seq<RelationView>) -> Seq<RelationView>
    decreases relations.len(),
{
    if relations.len() == 0 {
        relations
    } else {
        let rest = first_links(relations.drop_last());
        let r = relations.last();
        if exists|j: int| 0 <= j < relations.len() - 1 && same_link(#[trigger] relations[j], r) {
            rest
        } else {
            rest.push(r)
        }
    }
}

/// The relations after merging card `from` into card `to`: redirected to
/// `to`, self-links dropped, repeated links dropped.
pub open spec fn merged_relations(relations: Seq<RelationView>, from: Seq<char>, to: Seq<char>) -> Seq<
    RelationView,
> {
    first_links(without_self_links(redirect_relations(relations, from, to)))
}

pub open spec fn relation_ids_of(s: Seq<RelationView>) -> Seq<Seq<char>> {
    s.map_values(|r: RelationView| r.id)
}

proof fn lemma_unique_last(s: Seq<RelationView>)
    requires
        s.len() > 0,
        relation_ids_of(s).no_duplicates(),
    ensures
        relation_ids_of(s.drop_last()).no_duplicates(),
        forall|k: int| 0 <= k < s.len() - 1 ==> (#[trigger] s[k]).id != s.last().id,
{
    let ids = relation_ids_of(s);
    assert forall|a: int, b: int|
        0 <= a < relation_ids_of(s.drop_last()).len() && 0 <= b < relation_ids_of(s.drop_last()).len() && a != b
            implies relation_ids_of(s.drop_last())[a] != relation_ids_of(s.drop_last())[b] by {
        assert(relation_ids_of(s.drop_last())[a] == ids[a]);
        assert(relation_ids_of(s.drop_last())[b] == ids[b]);
    }
    assert forall|k: int| 0 <= k < s.len() - 1 implies (#[trigger] s[k]).id != s.last().id by {
        assert(ids[k] == s[k].id);
        assert(ids[s.len() - 1] == s.last().id);
    }
}

proof fn lemma_push_unique(rest: Seq<RelationView>, r: RelationView)
    requires
        relation_ids_of(rest).no_duplicates(),
        forall|k: int| 0 <= k < rest.len() ==> (#[trigger] rest[k]).id != r.id,
    ensures
        relation_ids_of(rest.push(r)).no_duplicates(),
{
    let ids = relation_ids_of(rest.push(r));
    assert forall|a: int, b: int| 0 <= a < ids.len() && 0 <= b < ids.len() && a != b implies ids[a] != ids[b] by {
        if a < rest.len() && b < rest.len() {
            assert(ids[a] == relation_ids_of(rest)[a]);
            assert(ids[b] == relation_ids_of(rest)[b]);
        } else if a < rest.len() {
            assert(ids[a] == rest[a].id);
        } else {
            assert(ids[b] == rest[b].id);
        }
    }
}

/// Dropping self-links keeps distinct ids and only relations already there.
pub proof fn lemma_without_self_links(s: Seq<RelationView>)
    requires
        relation_ids_of(s).no_duplicates(),
    ensures
        relation_ids_of(without_self_links(s)).no_duplicates(),
        forall|i: int| 0 <= i < without_self_links(s).len() ==> s.contains(#[trigger] without_self_links(s)[i]),
        forall|i: int|
            0 <= i < without_self_links(s).len() ==> (#[trigger] without_self_links(s)[i]).source_card_id
                != without_self_links(s)[i].target_card_id,
    decreases s.len(),
{
    if s.len() > 0 {
        let init = s.drop_last();
        lemma_unique_last(s);
        lemma_without_self_links(init);
        let rest = without_self_links(init);
        let r = s.last();
        assert forall|i: int| 0 <= i < rest.len() implies s.contains(#[trigger] rest[i]) by {
            let k = choose|k: int| 0 <= k < init.len() && init[k] == rest[i];
            assert(s[k] == rest[i]);
        }
        if r.source_card_id != r.target_card_id {
            assert forall|k: int| 0 <= k < rest.len() implies (#[trigger] rest[k]).id != r.id by {
                let m = choose|m: int| 0 <= m < init.len() && init[m] == rest[k];
                assert(s[m] == init[m]);
            }
            lemma_push_unique(rest, r);
            assert forall|i: int| 0 <= i < rest.push(r).len() implies s.contains(#[trigger] rest.push(r)[i]) by {
                if i < rest.len() {
                    assert(rest.push(r)[i] == rest[i]);
                } else {
                    assert(s[s.len() - 1] == r);
                }
            }
            assert forall|i: int| 0 <= i < rest.push(r).len() implies (#[trigger] rest.push(r)[i]).source_card_id != rest.push(r)[i].target_card_id by {
                if i < rest.len() {
                    assert(rest.push(r)[i] == rest[i]);
                }
            }
        }
    }
}

/// Dropping repeated links keeps distinct ids and only relations already there.
pub proof fn lemma_first_links(s: Seq<RelationView>)
    requires
        relation_ids_of(s).no_duplicates(),
    ensures
        relation_ids_of(first_links(s)).no_duplicates(),
        forall|i: int| 0 <= i < first_links(s).len() ==> s.contains(#[trigger] first_links(s)[i]),
    decreases s.len(),
{
    if s.len() > 0 {
        let init = s.drop_last();
        lemma_unique_last(s);
        lemma_first_links(init);
        let rest = first_links(init);
        let r = s.last();
        assert forall|i: int| 0 <= i < rest.len() implies s.contains(#[trigger] rest[i]) by {
            let k = choose|k: int| 0 <= k < init.len() && init[k] == rest[i];
            assert(s[k] == rest[i]);
        }
        if !(exists|j: int| 0 <= j < s.len() - 1 && same_link(#[trigger] s[j], r)) {
            assert forall|k: int| 0 <= k < rest.len() implies (#[trigger] rest[k]).id != r.id by {
                let m = choose|m: int| 0 <= m < init.len() && init[m] == rest[k];
                assert(s[m] == init[m]);
            }
            lemma_push_unique(rest, r);
            assert forall|i: int| 0 <= i < rest.push(r).len() implies s.contains(#[trigger] rest.push(r)[i]) by {
                if i < rest.len() {
                    assert(rest.push(r)[i] == rest[i]);
                } else {
                    assert(s[s.len() - 1] == r);
                }
            }
        }
    }
}

/// A merge leaves distinct relation ids, no self-links and no relation
/// touching the merged card, and every relation comes from a stored one.
pub proof fn lemma_merged_relations(relations: Seq<RelationView>, from: Seq<char>, to: Seq<char>)
    requires
        relation_ids_of(relations).no_duplicates(),
        from != to,
    ensures
        relation_ids_of(merged_relations(relations, from, to)).no_duplicates(),
        forall|i: int|
            0 <= i < merged_relations(relations, from, to).len() ==> {
                let r = #[trigger] merged_relations(relations, from, to)[i];
                &&& r.source_card_id != from
                &&& r.target_card_id != from
                &&& r.source_card_id != r.target_card_id
                &&& exists|k: int|
                    0 <= k < relations.len() && r == redirect_relation(#[trigger] relations[k], from, to)
            },
{
    let red = redirect_relations(relations, from, to);
    assert(relation_ids_of(red) =~= relation_ids_of(relations));
    lemma_without_self_links(red);
    let ws = without_self_links(red);
    lemma_first_links(ws);
    let fl = first_links(ws);
    assert forall|i: int| 0 <= i < fl.len() implies {
        let r = #[trigger] fl[i];
        &&& r.source_card_id != from
        &&& r.target_card_id != from
        &&& r.source_card_id != r.target_card_id
        &&& exists|k: int| 0 <= k < relations.len() && r == redirect_relation(#[trigger] relations[k], from, to)
    } by {
        let r = fl[i];
        let a = choose|a: int| 0 <= a < ws.len() && ws[a] == r;
        let b = choose|b: int| 0 <= b < red.len() && red[b] == ws[a];
        assert(red[b] == redirect_relation(relations[b], from, to));
    }
}


/// What `first_links` keeps comes from the given relations.
pub proof fn lemma_first_links_members(s: Seq<RelationView>)
    ensures
        forall|k: int| 0 <= k < first_links(s).len() ==> s.contains(#[trigger] first_links(s)[k]),
    decreases s.len(),
{
    if s.len() > 0 {
        let init = s.drop_last();
        lemma_first_links_members(init);
        let rest = first_links(init);
        let fl = first_links(s);
        assert forall|k: int| 0 <= k < fl.len() implies s.contains(#[trigger] fl[k]) by {
            if k < rest.len() {
                assert(fl[k] == rest[k]);
                let j = choose|j: int| 0 <= j < init.len() && init[j] == rest[k];
                assert(s[j] == init[j]);
            } else {
                assert(s[s.len() - 1] == s.last());
            }
        }
    }
}

/// After dropping repeated links, every relation's link is still held.
pub proof fn lemma_first_links_hold_links(s: Seq<RelationView>)
    ensures
        forall|i: int|
            0 <= i < s.len() ==> exists|k: int|
                0 <= k < first_links(s).len() && same_link(#[trigger] first_links(s)[k], #[trigger] s[i]),
    decreases s.len(),
{
    if s.len() > 0 {
        let init = s.drop_last();
        lemma_first_links_hold_links(init);
        let rest = first_links(init);
        let r = s.last();
        let fl = first_links(s);
        assert forall|i: int| 0 <= i < s.len() implies exists|k: int|
            0 <= k < fl.len() && same_link(#[trigger] fl[k], #[trigger] s[i]) by {
            if i < s.len() - 1 {
                assert(s[i] == init[i]);
                let k = choose|k: int| 0 <= k < rest.len() && same_link(#[trigger] rest[k], #[trigger] init[i]);
                assert(fl[k] == rest[k]);
            } else if exists|j: int| 0 <= j < s.len() - 1 && same_link(#[trigger] s[j], r) {
                let j = choose|j: int| 0 <= j < s.len() - 1 && same_link(#[trigger] s[j], r);
                assert(s[j] == init[j]);
                let k = choose|k: int| 0 <= k < rest.len() && same_link(#[trigger] rest[k], #[trigger] init[j]);
                assert(fl[k] == rest[k]);
                assert(same_link(fl[k], s[i]));
            } else {
                assert(fl[rest.len() as int] == r);
                assert(s[i] == r);
            }
        }
    }
}

/// After dropping repeated links no two relations share a link.
pub proof fn lemma_first_links_distinct(s: Seq<RelationView>)
    ensures
        forall|a: int, b: int|
            0 <= a < b < first_links(s).len() ==> !same_link(
                #[trigger] first_links(s)[a],
                #[trigger] first_links(s)[b],
            ),
    decreases s.len(),
{
    if s.len() > 0 {
        let init = s.drop_last();
        lemma_first_links_distinct(init);
        lemma_first_links_members(init);
        let rest = first_links(init);
        let r = s.last();
        let fl = first_links(s);
        assert forall|a: int, b: int| 0 <= a < b < fl.len() implies !same_link(
            #[trigger] fl[a],
            #[trigger] fl[b],
        ) by {
            if b < rest.len() {
                assert(fl[a] == rest[a] && fl[b] == rest[b]);
            } else {
                assert(fl[b] == r);
                assert(fl[a] == rest[a]);
                if same_link(rest[a], r) {
                    assert(init.contains(rest[a]));
                    let j = choose|j: int| 0 <= j < init.len() && init[j] == rest[a];
                    assert(s[j] == init[j]);
                    assert(same_link(s[j], r));
                }
            }
        }
    }
}

/// Every relation whose two ends differ is kept by `without_self_links`.
pub proof fn lemma_without_self_links_keeps(s: Seq<RelationView>)
    ensures
        forall|i: int|
            0 <= i < s.len() && (#[trigger] s[i]).source_card_id != s[i].target_card_id ==> without_self_links(
                s,
            ).contains(s[i]),
    decreases s.len(),
{
    if s.len() > 0 {
        let init = s.drop_last();
        lemma_without_self_links_keeps(init);
        let rest = without_self_links(init);
        let out = without_self_links(s);
        assert forall|i: int|
            0 <= i < s.len() && (#[trigger] s[i]).source_card_id != s[i].target_card_id implies out.contains(s[i]) by {
            if i < s.len() - 1 {
                assert(s[i] == init[i]);
                assert(rest.contains(init[i]));
                let k = choose|k: int| 0 <= k < rest.len() && rest[k] == init[i];
                assert(out[k] == rest[k]);
            } else {
                assert(s[i] == s.last());
                assert(out[rest.len() as int] == s.last());
            }
        }
    }
}

} // verus!
