//! The CardMind repository: conversations, knowledge cards, the relations
//! between cards and the chosen OpenAI model, with the rules that every
//! change follows. The repository holds its tables as plain rows; reading
//! them from and writing them to the SQLite file is done by the caller.

use vstd::prelude::*;
use crate::ids::{create_id, is_generated_id, now_iso};
use crate::models::{
    card_draft_views, card_views, conversation_views, copy_opt, copy_strings, opt_view,
    relation_draft_views, relation_views, CardDraftView, CardRelation, CardView,
    ConfirmExtractionInput, Conversation, ConversationView, CreateConversationInput,
    ExtractedCardDraft, ExtractedRelationDraft, KnowledgeCard, PersistedExtraction,
    RelationDraftView, RelationView, CardEditView, UpdateCardInput,
};
use crate::extractor::{extract_knowledge_cards, local_extraction};
use crate::merge::{
    first_links, has_tag, lemma_merged_relations, merge_edit, merged_content, merged_relations,
    merged_tags, redirect_relation, redirect_relations, relation_ids_of, same_link,
    without_self_links,
};
use crate::models::{
    CreateRelationInput, GraphEdge, GraphEdgeView, GraphNode, GraphNodeView, KnowledgeGraph,
    MergeCardsInput, OpenAiStatus, UpdateRelationInput,
};
use crate::openai::{
    default_model, default_openai_model, extract_with_openai_or_mock, preview_started,
    usable_key, filter_key, PreviewStep,
};
use crate::sample::{
    sample_card_table, sample_cards, sample_content, sample_conversation_input,
    sample_relation_table, sample_relations, sample_title,
};
use crate::normalize::{normalize_relation_type, relation_type_of};
use crate::text::{append_chars, append_str, eq_ignore_ascii_case_str, string_seqs};
use crate::normalize::{
    clean_tags, create_title, mastery_of, normalize_mastery_status, normalize_tags,
    title_from_content,
};
use crate::text::{chars_of, same_text, string_from_chars, trim, trim_chars};
use crate::normalize::{is_known_relation_type, is_relation_type};
use crate::confidence::{clamp_confidence, clamped, confidence_fits, fits_unit_range, is_nan_bits, is_nan_confidence};
use crate::tables::{
    find_index, keys, newest_first_order, order_newest_first, position_of, positions, reorder,
    stamps, Record,
};

verus! {

/// The tables of a repository.
pub struct RepositoryView {
    pub conversations: Seq<ConversationView>,
    pub cards: Seq<CardView>,
    pub relations: Seq<RelationView>,
    pub openai_model: Option<Seq<char>>,
}

pub open spec fn conversation_ids(s: Seq<ConversationView>) -> Seq<Seq<char>> {
    s.map_values(|c: ConversationView| c.id)
}

pub open spec fn card_ids(s: Seq<CardView>) -> Seq<Seq<char>> {
    s.map_values(|c: CardView| c.id)
}

pub open spec fn relation_ids(s: Seq<RelationView>) -> Seq<Seq<char>> {
    s.map_values(|r: RelationView| r.id)
}

/// What the schema of the tables guarantees: ids are unique in each table,
/// every card names a stored conversation, every relation names two stored
/// cards and has an accepted type.
pub open spec fn valid_tables(v: RepositoryView) -> bool {
    &&& conversation_ids(v.conversations).no_duplicates()
    &&& card_ids(v.cards).no_duplicates()
    &&& relation_ids(v.relations).no_duplicates()
    &&& forall|i: int|
        0 <= i < v.cards.len() ==> card_fits(conversation_ids(v.conversations), #[trigger] v.cards[i])
    &&& forall|i: int|
        0 <= i < v.relations.len() ==> relation_fits(card_ids(v.cards), #[trigger] v.relations[i])
}

/// A card names one of the given conversations.
pub open spec fn card_fits(conversation_ids: Seq<Seq<char>>, c: CardView) -> bool {
    conversation_ids.contains(c.source_conversation_id)
}

/// A relation names two of the given cards and has an accepted type.
pub open spec fn relation_fits(card_ids: Seq<Seq<char>>, r: RelationView) -> bool {
    &&& card_ids.contains(r.source_card_id)
    &&& card_ids.contains(r.target_card_id)
    &&& is_relation_type(r.relation_type)
    &&& fits_unit_range(r.confidence_bits)
}

/// What SQLite reports when a relation's type breaks the table's check.
pub open spec fn type_check_failure() -> Seq<char> {
    "CHECK constraint failed: relation_type IN (\n      'prerequisite',\n      'contains',\n      'related',\n      'contrast',\n      'application',\n      'source',\n      'supports'\n    )"@
}

/// What SQLite reports when a relation's confidence is outside `0..=1`.
pub open spec fn confidence_check_failure() -> Seq<char> {
    "CHECK constraint failed: confidence >= 0 AND confidence <= 1"@
}

/// What SQLite reports when a relation's confidence is a NaN, which it
/// stores as NULL.
pub open spec fn confidence_missing_failure() -> Seq<char> {
    "NOT NULL constraint failed: card_relations.confidence"@
}

/// Why the relation table refuses a row with this type and confidence: its
/// NOT NULL constraint comes first, then its checks in the order of the
/// columns.
pub open spec fn relation_row_problem(relation_type: Seq<char>, confidence_bits: u64) -> Option<Seq<char>> {
    if is_nan_bits(confidence_bits) {
        Some(confidence_missing_failure())
    } else if !is_relation_type(relation_type) {
        Some(type_check_failure())
    } else if !fits_unit_range(confidence_bits) {
        Some(confidence_check_failure())
    } else {
        None
    }
}

/// Why the relation table refuses a row with this type and confidence.
fn row_problem(relation_type: &str, confidence_bits: u64) -> (out: Option<String>)
    ensures
        opt_view(out) == relation_row_problem(relation_type@, confidence_bits),
{
    if is_nan_confidence(confidence_bits) {
        Some(String::from_str("NOT NULL constraint failed: card_relations.confidence"))
    } else if !is_known_relation_type(relation_type) {
        Some(
            String::from_str(
                "CHECK constraint failed: relation_type IN (\n      'prerequisite',\n      'contains',\n      'related',\n      'contrast',\n      'application',\n      'source',\n      'supports'\n    )",
            ),
        )
    } else if !confidence_fits(confidence_bits) {
        Some(String::from_str("CHECK constraint failed: confidence >= 0 AND confidence <= 1"))
    } else {
        None
    }
}

/// The stored conversation with the given id.
pub open spec fn find_conversation(s: Seq<ConversationView>, id: Seq<char>) -> Option<ConversationView> {
    if conversation_ids(s).contains(id) {
        Some(s[position_of(conversation_ids(s), id)])
    } else {
        None
    }
}

/// The stored card with the given id.
pub open spec fn find_card(s: Seq<CardView>, id: Seq<char>) -> Option<CardView> {
    if card_ids(s).contains(id) {
        Some(s[position_of(card_ids(s), id)])
    } else {
        None
    }
}

/// The stored relation with the given id.
pub open spec fn find_relation(s: Seq<RelationView>, id: Seq<char>) -> Option<RelationView> {
    if relation_ids(s).contains(id) {
        Some(s[position_of(relation_ids(s), id)])
    } else {
        None
    }
}

/// Conversations, newest first.
pub open spec fn newest_conversations(s: Seq<ConversationView>) -> Seq<ConversationView> {
    reorder(s, newest_first_order(s.map_values(|c: ConversationView| c.created_at), s.len()))
}

/// Cards, newest first.
pub open spec fn newest_cards(s: Seq<CardView>) -> Seq<CardView> {
    reorder(s, newest_first_order(s.map_values(|c: CardView| c.created_at), s.len()))
}

/// Relations, newest first.
pub open spec fn newest_relations(s: Seq<RelationView>) -> Seq<RelationView> {
    reorder(s, newest_first_order(s.map_values(|r: RelationView| r.created_at), s.len()))
}

/// The only position holding a given id in a list of distinct ids.
pub proof fn lemma_position_of(ids: Seq<Seq<char>>, i: int)
    requires
        ids.no_duplicates(),
        0 <= i < ids.len(),
    ensures
        position_of(ids, ids[i]) == i,
        ids.contains(ids[i]),
{
    assert(ids.contains(ids[i]));
}

/// The repository: its tables and settings.
pub struct CardMindRepository {
    conversations: Vec<Conversation>,
    cards: Vec<KnowledgeCard>,
    relations: Vec<CardRelation>,
    openai_model: Option<String>,
}

impl View for CardMindRepository {
    type V = RepositoryView;

    closed spec fn view(&self) -> RepositoryView {
        RepositoryView {
            conversations: conversation_views(self.conversations@),
            cards: card_views(self.cards@),
            relations: relation_views(self.relations@),
            openai_model: opt_view(self.openai_model),
        }
    }
}

/// Whether the ids of the rows are distinct.
fn keys_distinct<T: Record>(items: &Vec<T>) -> (out: bool)
    ensures
        out == keys(items@).no_duplicates(),
{
    let ghost ks = keys(items@);
    let mut i: usize = 0;
    while i < items.len()
        invariant
            i <= items.len(),
            ks == keys(items@),
            forall|a: int, b: int| 0 <= a < b < i ==> ks[a] != ks[b],
        decreases items.len() - i,
    {
        match find_index(items, items[i].key_str()) {
            Some(k) => {
                if k != i {
                    assert(ks[k as int] == ks[i as int]);
                    return false;
                }
            },
            None => {
                assert(false);
            },
        }
        i += 1;
    }
    true
}

impl CardMindRepository {
    #[verifier::type_invariant]
    closed spec fn tables_are_valid(&self) -> bool {
        valid_tables(self@)
    }

    proof fn lemma_ids(&self)
        ensures
            conversation_ids(self@.conversations) == keys(self.conversations@),
            card_ids(self@.cards) == keys(self.cards@),
            relation_ids(self@.relations) == keys(self.relations@),
            self@.conversations.map_values(|c: ConversationView| c.created_at) == stamps(
                self.conversations@,
            ),
            self@.cards.map_values(|c: CardView| c.created_at) == stamps(self.cards@),
            self@.relations.map_values(|r: RelationView| r.created_at) == stamps(self.relations@),
            self@.conversations.len() == self.conversations.len(),
            self@.cards.len() == self.cards.len(),
            self@.relations.len() == self.relations.len(),
    {
        assert(conversation_ids(self@.conversations) =~= keys(self.conversations@));
        assert(card_ids(self@.cards) =~= keys(self.cards@));
        assert(relation_ids(self@.relations) =~= keys(self.relations@));
        assert(self@.conversations.map_values(|c: ConversationView| c.created_at) =~= stamps(
            self.conversations@,
        ));
        assert(self@.cards.map_values(|c: CardView| c.created_at) =~= stamps(self.cards@));
        assert(self@.relations.map_values(|r: RelationView| r.created_at) =~= stamps(
            self.relations@,
        ));
    }

    /// An empty repository.
    pub fn new() -> (out: CardMindRepository)
        ensures
            out@.conversations.len() == 0,
            out@.cards.len() == 0,
            out@.relations.len() == 0,
            out@.openai_model is None,
    {
        let out = CardMindRepository {
            conversations: Vec::new(),
            cards: Vec::new(),
            relations: Vec::new(),
            openai_model: None,
        };
        assert(out@.conversations =~= Seq::<ConversationView>::empty());
        assert(out@.cards =~= Seq::<CardView>::empty());
        assert(out@.relations =~= Seq::<RelationView>::empty());
        out
    }

    /// A repository holding the given rows, as read from storage; refused
    /// when the rows break what the schema guarantees.
    pub fn from_tables(
        conversations: Vec<Conversation>,
        cards: Vec<KnowledgeCard>,
        relations: Vec<CardRelation>,
        openai_model: Option<String>,
    ) -> (out: Result<CardMindRepository, String>)
        ensures
            ({
                let v = RepositoryView {
                    conversations: conversation_views(conversations@),
                    cards: card_views(cards@),
                    relations: relation_views(relations@),
                    openai_model: opt_view(openai_model),
                };
                match out {
                    Ok(r) => valid_tables(v) && r@ == v,
                    Err(e) => !valid_tables(v) && e@ == "stored rows break the schema"@,
                }
            }),
    {
        let ghost v = RepositoryView {
            conversations: conversation_views(conversations@),
            cards: card_views(cards@),
            relations: relation_views(relations@),
            openai_model: opt_view(openai_model),
        };
        assert(conversation_ids(v.conversations) =~= keys(conversations@));
        assert(card_ids(v.cards) =~= keys(cards@));
        assert(relation_ids(v.relations) =~= keys(relations@));
        let distinct = keys_distinct(&conversations) && keys_distinct(&cards) && keys_distinct(
            &relations,
        );
        let mut cards_ok = true;
        let mut i: usize = 0;
        while i < cards.len()
            invariant
                i <= cards.len(),
                conversation_ids(v.conversations) == keys(conversations@),
                v.cards == card_views(cards@),
                cards_ok == forall|k: int|
                    0 <= k < i ==> card_fits(conversation_ids(v.conversations), #[trigger] v.cards[k]),
            decreases cards.len() - i,
        {
            let this_ok = match find_index(&conversations, cards[i].source_conversation_id.as_str()) {
                Some(k) => {
                    assert(conversation_ids(v.conversations)[k as int]
                        == v.cards[i as int].source_conversation_id);
                    true
                },
                None => false,
            };
            assert(this_ok == card_fits(conversation_ids(v.conversations), v.cards[i as int]));
            proof {
                let ids = conversation_ids(v.conversations);
                assert((forall|k: int| 0 <= k < i + 1 ==> card_fits(ids, #[trigger] v.cards[k])) == ((
                forall|k: int| 0 <= k < i ==> card_fits(ids, #[trigger] v.cards[k])) && card_fits(
                    ids,
                    v.cards[i as int],
                )));
            }
            cards_ok = cards_ok && this_ok;
            i += 1;
        }
        let mut relations_ok = true;
        let mut j: usize = 0;
        while j < relations.len()
            invariant
                j <= relations.len(),
                card_ids(v.cards) == keys(cards@),
                v.relations == relation_views(relations@),
                relations_ok == forall|k: int|
                    0 <= k < j ==> relation_fits(card_ids(v.cards), #[trigger] v.relations[k]),
            decreases relations.len() - j,
        {
            let r = &relations[j];
            let s = find_index(&cards, r.source_card_id.as_str());
            let t = find_index(&cards, r.target_card_id.as_str());
            let typed = is_known_relation_type(r.relation_type.as_str()) && confidence_fits(r.confidence_bits);
            let this_ok = match (s, t) {
                (Some(a), Some(b)) => {
                    assert(card_ids(v.cards)[a as int] == v.relations[j as int].source_card_id);
                    assert(card_ids(v.cards)[b as int] == v.relations[j as int].target_card_id);
                    typed
                },
                _ => false,
            };
            assert(this_ok == relation_fits(card_ids(v.cards), v.relations[j as int]));
            proof {
                let ids = card_ids(v.cards);
                assert((forall|k: int| 0 <= k < j + 1 ==> relation_fits(ids, #[trigger] v.relations[k]))
                    == ((forall|k: int| 0 <= k < j ==> relation_fits(ids, #[trigger] v.relations[k]))
                    && relation_fits(ids, v.relations[j as int])));
            }
            relations_ok = relations_ok && this_ok;
            j += 1;
        }
        let ok = distinct && cards_ok && relations_ok;
        assert(ok == valid_tables(v));
        if ok {
            Ok(CardMindRepository { conversations, cards, relations, openai_model })
        } else {
            Err(String::from_str("stored rows break the schema"))
        }
    }

    /// The stored conversations, in stored order.
    pub fn conversation_rows(&self) -> (out: &Vec<Conversation>)
        ensures
            conversation_views(out@) == self@.conversations,
    {
        &self.conversations
    }

    /// The stored cards, in stored order.
    pub fn card_rows(&self) -> (out: &Vec<KnowledgeCard>)
        ensures
            card_views(out@) == self@.cards,
    {
        &self.cards
    }

    /// The stored relations, in stored order.
    pub fn relation_rows(&self) -> (out: &Vec<CardRelation>)
        ensures
            relation_views(out@) == self@.relations,
    {
        &self.relations
    }

    /// The stored model setting, if any.
    pub fn openai_model_setting(&self) -> (out: Option<String>)
        ensures
            opt_view(out) == self@.openai_model,
    {
        copy_opt(&self.openai_model)
    }

    /// The tables always satisfy what the schema guarantees.
    pub fn check_valid(&self)
        ensures
            valid_tables(self@),
    {
        proof {
            use_type_invariant(self);
        }
    }

    /// The conversation with the given id, if stored.
    pub fn get_conversation(&self, id: &str) -> (out: Option<Conversation>)
        ensures
            match out {
                Some(c) => find_conversation(self@.conversations, id@) == Some(c@),
                None => find_conversation(self@.conversations, id@) is None,
            },
    {
        proof {
            use_type_invariant(self);
            self.lemma_ids();
        }
        match find_index(&self.conversations, id) {
            Some(i) => {
                proof {
                    lemma_position_of(conversation_ids(self@.conversations), i as int);
                }
                Some(self.conversations[i].duplicate())
            },
            None => None,
        }
    }

    /// The card with the given id, if stored.
    pub fn get_card(&self, id: &str) -> (out: Option<KnowledgeCard>)
        ensures
            match out {
                Some(c) => find_card(self@.cards, id@) == Some(c@),
                None => find_card(self@.cards, id@) is None,
            },
    {
        proof {
            use_type_invariant(self);
            self.lemma_ids();
        }
        match find_index(&self.cards, id) {
            Some(i) => {
                proof {
                    lemma_position_of(card_ids(self@.cards), i as int);
                }
                Some(self.cards[i].duplicate())
            },
            None => None,
        }
    }

    /// The relation with the given id, if stored.
    pub fn get_relation(&self, id: &str) -> (out: Option<CardRelation>)
        ensures
            match out {
                Some(r) => find_relation(self@.relations, id@) == Some(r@),
                None => find_relation(self@.relations, id@) is None,
            },
    {
        proof {
            use_type_invariant(self);
            self.lemma_ids();
        }
        match find_index(&self.relations, id) {
            Some(i) => {
                proof {
                    lemma_position_of(relation_ids(self@.relations), i as int);
                }
                Some(self.relations[i].duplicate())
            },
            None => None,
        }
    }

    /// All conversations, newest first.
    pub fn list_conversations(&self) -> (out: Vec<Conversation>)
        ensures
            conversation_views(out@) == newest_conversations(self@.conversations),
    {
        proof {
            self.lemma_ids();
        }
        let order = order_newest_first(&self.conversations);
        let ghost ord = positions(order@);
        let ghost target = newest_conversations(self@.conversations);
        let mut out: Vec<Conversation> = Vec::new();
        let mut k: usize = 0;
        while k < order.len()
            invariant
                k <= order.len() == self.conversations.len(),
                ord == positions(order@),
                forall|m: int| 0 <= m < order.len() ==> #[trigger] order@[m] < self.conversations.len(),
                target == reorder(self@.conversations, ord),
                conversation_views(out@) =~= target.take(k as int),
            decreases order.len() - k,
        {
            let c = self.conversations[order[k]].duplicate();
            let ghost before = conversation_views(out@);
            out.push(c);
            assert(conversation_views(out@) =~= before.push(target[k as int]));
            assert(target.take(k + 1) =~= target.take(k as int).push(target[k as int]));
            k += 1;
        }
        assert(target.take(order.len() as int) =~= target);
        out
    }

    /// All cards, newest first.
    pub fn list_cards(&self) -> (out: Vec<KnowledgeCard>)
        ensures
            card_views(out@) == newest_cards(self@.cards),
    {
        proof {
            self.lemma_ids();
        }
        let order = order_newest_first(&self.cards);
        let ghost ord = positions(order@);
        let ghost target = newest_cards(self@.cards);
        let mut out: Vec<KnowledgeCard> = Vec::new();
        let mut k: usize = 0;
        while k < order.len()
            invariant
                k <= order.len() == self.cards.len(),
                ord == positions(order@),
                forall|m: int| 0 <= m < order.len() ==> #[trigger] order@[m] < self.cards.len(),
                target == reorder(self@.cards, ord),
                card_views(out@) =~= target.take(k as int),
            decreases order.len() - k,
        {
            let c = self.cards[order[k]].duplicate();
            let ghost before = card_views(out@);
            out.push(c);
            assert(card_views(out@) =~= before.push(target[k as int]));
            assert(target.take(k + 1) =~= target.take(k as int).push(target[k as int]));
            k += 1;
        }
        assert(target.take(order.len() as int) =~= target);
        out
    }

    /// All relations, newest first.
    pub fn list_relations(&self) -> (out: Vec<CardRelation>)
        ensures
            relation_views(out@) == newest_relations(self@.relations),
    {
        proof {
            self.lemma_ids();
        }
        let order = order_newest_first(&self.relations);
        let ghost ord = positions(order@);
        let ghost target = newest_relations(self@.relations);
        let mut out: Vec<CardRelation> = Vec::new();
        let mut k: usize = 0;
        while k < order.len()
            invariant
                k <= order.len() == self.relations.len(),
                ord == positions(order@),
                forall|m: int| 0 <= m < order.len() ==> #[trigger] order@[m] < self.relations.len(),
                target == reorder(self@.relations, ord),
                relation_views(out@) =~= target.take(k as int),
            decreases order.len() - k,
        {
            let r = self.relations[order[k]].duplicate();
            let ghost before = relation_views(out@);
            out.push(r);
            assert(relation_views(out@) =~= before.push(target[k as int]));
            assert(target.take(k + 1) =~= target.take(k as int).push(target[k as int]));
            k += 1;
        }
        assert(target.take(order.len() as int) =~= target);
        out
    }
}

/// The title of an imported conversation: the given one, trimmed, unless it
/// is missing or blank; then one made from the content.
pub open spec fn conversation_title(title: Option<Seq<char>>, raw: Seq<char>) -> Seq<char> {
    match title {
        Some(t) => if trim(t).len() > 0 {
            trim(t)
        } else {
            title_from_content(raw)
        },
        None => title_from_content(raw),
    }
}

/// The source of an imported conversation: the given one or `manual`.
pub open spec fn source_type_of(source: Option<Seq<char>>) -> Seq<char> {
    match source {
        Some(t) => t,
        None => "manual"@,
    }
}

/// The id of the last card in `cards` with the given title.
pub open spec fn id_for_title(cards: Seq<CardView>, title: Seq<char>) -> Option<Seq<char>>
    decreases cards.len(),
{
    if cards.len() == 0 {
        None
    } else if cards.last().title == title {
        Some(cards.last().id)
    } else {
        id_for_title(cards.drop_last(), title)
    }
}

/// A relation draft whose titles name saved cards, with their ids.
pub struct ResolvedRelation {
    pub source_card_id: Seq<char>,
    pub target_card_id: Seq<char>,
    pub draft: RelationDraftView,
}

/// The relation drafts whose two titles name saved cards, in order; a title
/// shared by several cards names the last of them.
pub open spec fn resolve_relations(cards: Seq<CardView>, drafts: Seq<RelationDraftView>) -> Seq<
    ResolvedRelation,
>
    decreases drafts.len(),
{
    if drafts.len() == 0 {
        Seq::empty()
    } else {
        let rest = resolve_relations(cards, drafts.drop_last());
        let d = drafts.last();
        match (id_for_title(cards, d.source_title), id_for_title(cards, d.target_title)) {
            (Some(s), Some(t)) => rest.push(
                ResolvedRelation { source_card_id: s, target_card_id: t, draft: d },
            ),
            _ => rest,
        }
    }
}

/// Some card draft has the given title.
pub open spec fn names_card(drafts: Seq<CardDraftView>, title: Seq<char>) -> bool {
    exists|i: int| 0 <= i < drafts.len() && (#[trigger] drafts[i]).title == title
}

/// The first relation draft, in order, whose titles both name card drafts
/// and whose row the relation table refuses, with the reason.
pub open spec fn first_row_problem(
    cards: Seq<CardDraftView>,
    relations: Seq<RelationDraftView>,
) -> Option<Seq<char>>
    decreases relations.len(),
{
    if relations.len() == 0 {
        None
    } else {
        let d = relations[0];
        if names_card(cards, d.source_title) && names_card(cards, d.target_title) && relation_row_problem(
            d.relation_type,
            d.confidence_bits,
        ) is Some {
            relation_row_problem(d.relation_type, d.confidence_bits)
        } else {
            first_row_problem(cards, relations.drop_first())
        }
    }
}

/// Without a refused row, every relation draft whose titles both name card
/// drafts makes a row that the table accepts.
pub proof fn lemma_no_row_problem(cards: Seq<CardDraftView>, relations: Seq<RelationDraftView>)
    requires
        first_row_problem(cards, relations) is None,
    ensures
        forall|i: int|
            0 <= i < relations.len() && names_card(cards, (#[trigger] relations[i]).source_title)
                && names_card(cards, relations[i].target_title) ==> relation_row_problem(
                relations[i].relation_type,
                relations[i].confidence_bits,
            ) is None,
    decreases relations.len(),
{
    if relations.len() > 0 {
        lemma_no_row_problem(cards, relations.drop_first());
        assert forall|i: int|
            0 <= i < relations.len() && names_card(cards, (#[trigger] relations[i]).source_title)
                && names_card(cards, relations[i].target_title) implies relation_row_problem(
                relations[i].relation_type,
                relations[i].confidence_bits,
            ) is None by {
            if i > 0 {
                assert(relations[i] == relations.drop_first()[i - 1]);
            }
        }
    }
}

/// A card saved from a draft for a conversation.
pub open spec fn saved_card(c: CardView, d: CardDraftView, conversation_id: Seq<char>) -> bool {
    &&& c.title == d.title
    &&& c.summary == d.summary
    &&& c.content == d.content
    &&& c.card_type == d.card_type
    &&& c.tags == d.tags
    &&& c.mastery_status == "new"@
    &&& c.source_conversation_id == conversation_id
    &&& is_generated_id("card"@, c.id)
    &&& c.created_at == c.updated_at
}

/// A relation saved from a resolved draft.
pub open spec fn saved_relation(r: RelationView, x: ResolvedRelation) -> bool {
    &&& r.source_card_id == x.source_card_id
    &&& r.target_card_id == x.target_card_id
    &&& r.relation_type == x.draft.relation_type
    &&& r.reason == x.draft.reason
    &&& r.confidence_bits == x.draft.confidence_bits
    &&& is_generated_id("rel"@, r.id)
}

/// `new` is `old` with an extraction saved for a conversation: one new card
/// per card draft, in order, and one new relation per resolved relation
/// draft, in order, all with fresh ids.
pub open spec fn extraction_saved(
    old: RepositoryView,
    new: RepositoryView,
    conversation_id: Seq<char>,
    card_drafts: Seq<CardDraftView>,
    relation_drafts: Seq<RelationDraftView>,
    cards: Seq<CardView>,
    relations: Seq<RelationView>,
) -> bool {
    let resolved = resolve_relations(cards, relation_drafts);
    &&& cards.len() == card_drafts.len()
    &&& forall|i: int|
        0 <= i < cards.len() ==> saved_card(#[trigger] cards[i], card_drafts[i], conversation_id)
    &&& (card_ids(old.cards) + card_ids(cards)).no_duplicates()
    &&& relations.len() == resolved.len()
    &&& forall|i: int| 0 <= i < relations.len() ==> saved_relation(#[trigger] relations[i], resolved[i])
    &&& (relation_ids(old.relations) + relation_ids(relations)).no_duplicates()
    &&& new == RepositoryView {
        cards: old.cards + cards,
        relations: old.relations + relations,
        ..old
    }
}

/// What saving an extraction with fresh ids returns and leaves: on success
/// the saved rows; refused, with nothing saved, with the reason of the first
/// relation to be saved whose row the table does not accept, and otherwise
/// only when there are cards to save and a drawn id is in use (which ids are
/// drawn is left to chance; `persist_with_outcome` says what happens for
/// given ones).
pub open spec fn persist_outcome(
    old: RepositoryView,
    new: RepositoryView,
    conversation_id: Seq<char>,
    card_drafts: Seq<CardDraftView>,
    relation_drafts: Seq<RelationDraftView>,
    out: Result<PersistedExtraction, String>,
) -> bool {
    match out {
        Ok(p) => extraction_saved(
            old,
            new,
            conversation_id,
            card_drafts,
            relation_drafts,
            card_views(p.cards@),
            relation_views(p.relations@),
        ) && first_row_problem(card_drafts, relation_drafts) is None,
        Err(e) => new == old && match first_row_problem(card_drafts, relation_drafts) {
            None => card_drafts.len() > 0 && (e@ == "UNIQUE constraint failed: knowledge_cards.id"@
                || e@ == "UNIQUE constraint failed: card_relations.id"@),
            Some(m) => e@ == m,
        },
    }
}

pub proof fn lemma_ids_concat(a: Seq<CardView>, b: Seq<CardView>)
    ensures
        card_ids(a + b) == card_ids(a) + card_ids(b),
{
    assert(card_ids(a + b) =~= card_ids(a) + card_ids(b));
}

pub proof fn lemma_relation_ids_concat(a: Seq<RelationView>, b: Seq<RelationView>)
    ensures
        relation_ids(a + b) == relation_ids(a) + relation_ids(b),
{
    assert(relation_ids(a + b) =~= relation_ids(a) + relation_ids(b));
}

proof fn lemma_id_for_title(cards: Seq<CardView>, title: Seq<char>)
    ensures
        match id_for_title(cards, title) {
            Some(x) => exists|i: int| 0 <= i < cards.len() && cards[i].title == title && (#[trigger] cards[i]).id == x,
            None => true,
        },
    decreases cards.len(),
{
    if cards.len() > 0 && cards.last().title != title {
        lemma_id_for_title(cards.drop_last(), title);
        match id_for_title(cards.drop_last(), title) {
            Some(x) => {
                let i = choose|i: int| 0 <= i < cards.drop_last().len() && cards.drop_last()[i].title == title && (#[trigger] cards.drop_last()[i]).id == x;
                assert(cards[i] == cards.drop_last()[i]);
            },
            None => {},
        }
    } else if cards.len() > 0 {
        assert(cards[cards.len() - 1] == cards.last());
    }
}

/// Every resolved relation names saved cards, and its draft names card drafts.
proof fn lemma_resolved(
    cards: Seq<CardView>,
    card_drafts: Seq<CardDraftView>,
    drafts: Seq<RelationDraftView>,
    k: int,
)
    requires
        cards.len() == card_drafts.len(),
        forall|i: int| 0 <= i < cards.len() ==> (#[trigger] cards[i]).title == card_drafts[i].title,
        0 <= k < resolve_relations(cards, drafts).len(),
    ensures
        card_ids(cards).contains(resolve_relations(cards, drafts)[k].source_card_id),
        card_ids(cards).contains(resolve_relations(cards, drafts)[k].target_card_id),
        names_card(card_drafts, resolve_relations(cards, drafts)[k].draft.source_title),
        names_card(card_drafts, resolve_relations(cards, drafts)[k].draft.target_title),
        exists|j: int| 0 <= j < drafts.len() && (#[trigger] drafts[j]) == resolve_relations(cards, drafts)[k].draft,
    decreases drafts.len(),
{
    let rest = resolve_relations(cards, drafts.drop_last());
    let d = drafts.last();
    if k < rest.len() {
        lemma_resolved(cards, card_drafts, drafts.drop_last(), k);
        assert(resolve_relations(cards, drafts)[k] == rest[k]);
        let j = choose|j: int| 0 <= j < drafts.drop_last().len() && (#[trigger] drafts.drop_last()[j]) == rest[k].draft;
        assert(drafts[j] == drafts.drop_last()[j]);
    } else {
        lemma_id_for_title(cards, d.source_title);
        lemma_id_for_title(cards, d.target_title);
        let x = resolve_relations(cards, drafts)[k];
        let i1 = choose|i: int| 0 <= i < cards.len() && cards[i].title == d.source_title && (#[trigger] cards[i]).id == x.source_card_id;
        let i2 = choose|i: int| 0 <= i < cards.len() && cards[i].title == d.target_title && (#[trigger] cards[i]).id == x.target_card_id;
        assert(card_ids(cards)[i1] == x.source_card_id);
        assert(card_ids(cards)[i2] == x.target_card_id);
        assert(card_drafts[i1].title == d.source_title);
        assert(card_drafts[i2].title == d.target_title);
        assert(drafts[drafts.len() - 1] == d);
    }
}

/// Whether some card draft has the given title.
fn title_named(drafts: &Vec<ExtractedCardDraft>, title: &str) -> (out: bool)
    ensures
        out == names_card(card_draft_views(drafts@), title@),
{
    let ghost dv = card_draft_views(drafts@);
    let mut i: usize = 0;
    while i < drafts.len()
        invariant
            i <= drafts.len(),
            dv == card_draft_views(drafts@),
            forall|k: int| 0 <= k < i ==> dv[k].title != title@,
        decreases drafts.len() - i,
    {
        if same_text(drafts[i].title.as_str(), title) {
            assert(dv[i as int].title == title@);
            return true;
        }
        i += 1;
    }
    false
}

/// The id of the last card with the given title.
fn id_for_title_of(cards: &Vec<KnowledgeCard>, title: &str) -> (out: Option<String>)
    ensures
        opt_view(out) == id_for_title(card_views(cards@), title@),
{
    let ghost cv = card_views(cards@);
    let mut found: Option<String> = None;
    let mut i: usize = 0;
    assert(cv.take(0) =~= Seq::<CardView>::empty());
    while i < cards.len()
        invariant
            i <= cards.len(),
            cv == card_views(cards@),
            opt_view(found) == id_for_title(cv.take(i as int), title@),
        decreases cards.len() - i,
    {
        assert(cv.take(i + 1).drop_last() == cv.take(i as int));
        assert(cv.take(i + 1).last() == cards@[i as int]@);
        if same_text(cards[i].title.as_str(), title) {
            found = Some(cards[i].id.clone());
        }
        i += 1;
    }
    assert(cv.take(cards.len() as int) == cv);
    found
}

impl CardMindRepository {
    /// Empties the repository and hands out its rows.
    fn take_tables(&mut self) -> (out: (
        Vec<Conversation>,
        Vec<KnowledgeCard>,
        Vec<CardRelation>,
        Option<String>,
    ))
        ensures
            conversation_views(out.0@) == old(self)@.conversations,
            card_views(out.1@) == old(self)@.cards,
            relation_views(out.2@) == old(self)@.relations,
            opt_view(out.3) == old(self)@.openai_model,
            valid_tables(old(self)@),
    {
        proof {
            use_type_invariant(&*self);
        }
        let mut taken = CardMindRepository::new();
        std::mem::swap(&mut taken, self);
        proof {
            use_type_invariant(&taken);
        }
        let CardMindRepository { conversations, cards, relations, openai_model } = taken;
        (conversations, cards, relations, openai_model)
    }

    /// Imports a conversation as a row with the given id and time; refused
    /// only when a stored conversation has that id.
    pub fn insert_conversation(&mut self, input: CreateConversationInput, id: String, timestamp: String) -> (out:
        Result<Conversation, String>)
        ensures
            if conversation_ids(old(self)@.conversations).contains(id@) {
                final(self)@ == old(self)@ && refused(out, "UNIQUE constraint failed: conversations.id"@)
            } else {
                match out {
                    Ok(c) => {
                        &&& c@ == (ConversationView {
                            id: id@,
                            title: conversation_title(opt_view(input.title), input.raw_content@),
                            raw_content: input.raw_content@,
                            source_type: source_type_of(opt_view(input.source_type)),
                            created_at: timestamp@,
                            updated_at: timestamp@,
                        })
                        &&& final(self)@ == RepositoryView {
                            conversations: old(self)@.conversations.push(c@),
                            ..old(self)@
                        }
                    },
                    Err(_) => false,
                }
            },
    {
        proof {
            use_type_invariant(&*self);
            self.lemma_ids();
        }
        let title = match &input.title {
            Some(t) => {
                let chars = chars_of(t.as_str());
                let trimmed = trim_chars(&chars);
                if trimmed.len() > 0 {
                    string_from_chars(&trimmed)
                } else {
                    create_title(input.raw_content.as_str())
                }
            },
            None => create_title(input.raw_content.as_str()),
        };
        match find_index(&self.conversations, id.as_str()) {
            Some(k) => {
                assert(conversation_ids(self@.conversations)[k as int] == id@);
                return Err(String::from_str("UNIQUE constraint failed: conversations.id"));
            },
            None => {},
        }
        let source_type = match input.source_type {
            Some(s) => s,
            None => String::from_str("manual"),
        };
        let conversation = Conversation {
            id,
            title,
            raw_content: input.raw_content,
            source_type,
            created_at: timestamp.clone(),
            updated_at: timestamp,
        };
        let stored = conversation.duplicate();
        let (mut conversations, cards, relations, openai_model) = self.take_tables();
        let ghost old_view = conversation_views(conversations@);
        conversations.push(stored);
        proof {
            assert(conversation_views(conversations@) =~= old_view.push(conversation@));
            assert(conversation_ids(old_view.push(conversation@)) =~= conversation_ids(
                old_view,
            ).push(conversation@.id));
            let ids = conversation_ids(old_view);
            assert forall|a: int, b: int|
                0 <= a < b < ids.push(conversation@.id).len() implies ids.push(conversation@.id)[a]
                != ids.push(conversation@.id)[b] by {
                if b == ids.len() {
                    assert(ids[a] == ids.push(conversation@.id)[a]);
                }
            }
            assert forall|x: Seq<char>| ids.contains(x) implies ids.push(conversation@.id).contains(
                x,
            ) by {
                let k = choose|k: int| 0 <= k < ids.len() && ids[k] == x;
                assert(ids.push(conversation@.id)[k] == x);
            }
        }
        *self = CardMindRepository { conversations, cards, relations, openai_model };
        Ok(conversation)
    }

    /// Imports a conversation. Its title is the given one, trimmed, or one
    /// made from the content; its source type the given one or `manual`.
    /// It gets a fresh id and the current time.
    pub fn create_conversation(&mut self, input: CreateConversationInput) -> (out: Result<
        Conversation,
        String,
    >)
        ensures
            match out {
                Ok(c) => {
                    &&& c@.title == conversation_title(opt_view(input.title), input.raw_content@)
                    &&& c@.raw_content == input.raw_content@
                    &&& c@.source_type == source_type_of(opt_view(input.source_type))
                    &&& is_generated_id("conv"@, c@.id)
                    &&& c@.created_at == c@.updated_at
                    &&& !conversation_ids(old(self)@.conversations).contains(c@.id)
                    &&& final(self)@ == RepositoryView {
                        conversations: old(self)@.conversations.push(c@),
                        ..old(self)@
                    }
                },
                Err(e) => final(self)@ == old(self)@ && e@
                    == "UNIQUE constraint failed: conversations.id"@,
            },
    {
        let timestamp = now_iso();
        let id = create_id("conv");
        self.insert_conversation(input, id, timestamp)
    }
}

pub proof fn lemma_concat_contains<A>(a: Seq<A>, b: Seq<A>, x: A)
    ensures
        (a + b).contains(x) <==> (a.contains(x) || b.contains(x)),
{
    if (a + b).contains(x) {
        let k = choose|k: int| 0 <= k < (a + b).len() && (a + b)[k] == x;
        if k < a.len() {
            assert(a[k] == x);
        } else {
            assert(b[k - a.len()] == x);
        }
    }
    if a.contains(x) {
        let k = choose|k: int| 0 <= k < a.len() && a[k] == x;
        assert((a + b)[k] == x);
    }
    if b.contains(x) {
        let k = choose|k: int| 0 <= k < b.len() && b[k] == x;
        assert((a + b)[a.len() + k] == x);
    }
}

pub proof fn lemma_push_fresh<A>(a: Seq<A>, b: Seq<A>, x: A)
    requires
        (a + b).no_duplicates(),
        !a.contains(x),
        !b.contains(x),
    ensures
        (a + b.push(x)).no_duplicates(),
        (a + b.push(x)) == (a + b).push(x),
{
    lemma_concat_contains(a, b, x);
    let s = a + b;
    assert(a + b.push(x) =~= s.push(x));
    assert forall|i: int, j: int| 0 <= i < s.push(x).len() && 0 <= j < s.push(x).len() && i != j implies s.push(x)[i] != s.push(x)[j] by {
        if i == s.len() {
            assert(s[j] == s.push(x)[j]);
        } else if j == s.len() {
            assert(s[i] == s.push(x)[i]);
        }
    }
}

pub proof fn lemma_contains_push<A>(a: Seq<A>, x: A, y: A)
    ensures
        a.push(x).contains(y) <==> (a.contains(y) || x == y),
{
    if a.contains(y) {
        let k = choose|k: int| 0 <= k < a.len() && a[k] == y;
        assert(a.push(x)[k] == y);
    }
    if a.push(x).contains(y) {
        let k = choose|k: int| 0 <= k < a.push(x).len() && a.push(x)[k] == y;
        if k < a.len() {
            assert(a[k] == y);
        }
    }
    assert(a.push(x)[a.len() as int] == x);
}

/// A card row made from a draft for a conversation, with its id and time.
pub open spec fn card_row(d: CardDraftView, conversation_id: Seq<char>, id: Seq<char>, stamp: Seq<char>) -> CardView {
    CardView {
        id,
        title: d.title,
        summary: d.summary,
        content: d.content,
        card_type: d.card_type,
        tags: d.tags,
        mastery_status: "new"@,
        source_conversation_id: conversation_id,
        created_at: stamp,
        updated_at: stamp,
    }
}

/// The card rows made from the drafts, the `i`-th with the `i`-th id and time.
pub open spec fn card_rows(
    drafts: Seq<CardDraftView>,
    conversation_id: Seq<char>,
    ids: Seq<Seq<char>>,
    stamps: Seq<Seq<char>>,
) -> Seq<CardView> {
    Seq::new(drafts.len(), |i: int| card_row(drafts[i], conversation_id, ids[i], stamps[i]))
}

/// Of values given one per relation draft, those of the drafts whose two
/// titles name cards, in order.
pub open spec fn picked(cards: Seq<CardView>, drafts: Seq<RelationDraftView>, xs: Seq<Seq<char>>) -> Seq<
    Seq<char>,
>
    decreases drafts.len(),
{
    if drafts.len() == 0 {
        Seq::empty()
    } else {
        let rest = picked(cards, drafts.drop_last(), xs.drop_last());
        let d = drafts.last();
        if id_for_title(cards, d.source_title) is Some && id_for_title(cards, d.target_title) is Some {
            rest.push(xs.last())
        } else {
            rest
        }
    }
}

/// A relation row made from a resolved draft, with its id and time.
pub open spec fn relation_row(x: ResolvedRelation, id: Seq<char>, stamp: Seq<char>) -> RelationView {
    RelationView {
        id,
        source_card_id: x.source_card_id,
        target_card_id: x.target_card_id,
        relation_type: x.draft.relation_type,
        reason: x.draft.reason,
        confidence_bits: x.draft.confidence_bits,
        created_at: stamp,
    }
}

pub open spec fn relation_rows(resolved: Seq<ResolvedRelation>, ids: Seq<Seq<char>>, stamps: Seq<Seq<char>>) -> Seq<
    RelationView,
> {
    Seq::new(resolved.len(), |j: int| relation_row(resolved[j], ids[j], stamps[j]))
}

/// The ids and times for the rows of an extraction: one per card draft and
/// one per relation draft (used only by the drafts that name two cards).
pub struct DrawnRows {
    pub card_ids: Vec<String>,
    pub card_stamps: Vec<String>,
    pub relation_ids: Vec<String>,
    pub relation_stamps: Vec<String>,
}

pub struct DrawnView {
    pub card_ids: Seq<Seq<char>>,
    pub card_stamps: Seq<Seq<char>>,
    pub relation_ids: Seq<Seq<char>>,
    pub relation_stamps: Seq<Seq<char>>,
}

impl View for DrawnRows {
    type V = DrawnView;

    open spec fn view(&self) -> DrawnView {
        DrawnView {
            card_ids: string_seqs(self.card_ids@),
            card_stamps: string_seqs(self.card_stamps@),
            relation_ids: string_seqs(self.relation_ids@),
            relation_stamps: string_seqs(self.relation_stamps@),
        }
    }
}

/// What saving an extraction with the given ids and times returns and
/// leaves: refused with the first refused row, else refused when a card id
/// or a used relation id is stored already or given twice, else saved with
/// exactly these rows.
pub open spec fn persist_with_outcome(
    old: RepositoryView,
    new: RepositoryView,
    conversation_id: Seq<char>,
    card_drafts: Seq<CardDraftView>,
    relation_drafts: Seq<RelationDraftView>,
    drawn: DrawnView,
    out: Result<PersistedExtraction, String>,
) -> bool {
    let cards = card_rows(card_drafts, conversation_id, drawn.card_ids, drawn.card_stamps);
    let rel_ids = picked(cards, relation_drafts, drawn.relation_ids);
    let relations = relation_rows(
        resolve_relations(cards, relation_drafts),
        rel_ids,
        picked(cards, relation_drafts, drawn.relation_stamps),
    );
    match first_row_problem(card_drafts, relation_drafts) {
        Some(m) => new == old && refused(out, m),
        None => if !(card_ids(old.cards) + drawn.card_ids).no_duplicates() {
            new == old && refused(out, "UNIQUE constraint failed: knowledge_cards.id"@)
        } else if !(relation_ids(old.relations) + rel_ids).no_duplicates() {
            new == old && refused(out, "UNIQUE constraint failed: card_relations.id"@)
        } else {
            match out {
                Ok(p) => {
                    &&& card_views(p.cards@) == cards
                    &&& relation_views(p.relations@) == relations
                    &&& new == RepositoryView {
                        cards: old.cards + cards,
                        relations: old.relations + relations,
                        ..old
                    }
                },
                Err(_) => false,
            }
        },
    }
}

pub proof fn lemma_card_rows(
    drafts: Seq<CardDraftView>,
    conversation_id: Seq<char>,
    ids: Seq<Seq<char>>,
    stamps: Seq<Seq<char>>,
)
    requires
        ids.len() == drafts.len(),
        stamps.len() == drafts.len(),
    ensures
        card_ids(card_rows(drafts, conversation_id, ids, stamps)) == ids,
        forall|i: int|
            0 <= i < drafts.len() ==> (#[trigger] card_rows(drafts, conversation_id, ids, stamps)[i]).title
                == drafts[i].title,
{
    assert(card_ids(card_rows(drafts, conversation_id, ids, stamps)) =~= ids);
}

/// One picked value per resolved draft, each one of the given values.
pub proof fn lemma_picked(cards: Seq<CardView>, drafts: Seq<RelationDraftView>, xs: Seq<Seq<char>>)
    requires
        xs.len() == drafts.len(),
    ensures
        picked(cards, drafts, xs).len() == resolve_relations(cards, drafts).len(),
        forall|j: int| 0 <= j < picked(cards, drafts, xs).len() ==> xs.contains(#[trigger] picked(cards, drafts, xs)[j]),
    decreases drafts.len(),
{
    if drafts.len() > 0 {
        lemma_picked(cards, drafts.drop_last(), xs.drop_last());
        let rest = picked(cards, drafts.drop_last(), xs.drop_last());
        let out = picked(cards, drafts, xs);
        assert forall|j: int| 0 <= j < out.len() implies xs.contains(#[trigger] out[j]) by {
            if j < rest.len() {
                assert(out[j] == rest[j]);
                let k = choose|k: int| 0 <= k < xs.drop_last().len() && xs.drop_last()[k] == rest[j];
                assert(xs[k] == rest[j]);
            } else {
                assert(out[j] == xs.last());
                assert(xs[xs.len() - 1] == xs.last());
            }
        }
    }
}

/// What is picked for the first drafts is the start of what is picked for all.
pub proof fn lemma_picked_prefix(cards: Seq<CardView>, drafts: Seq<RelationDraftView>, xs: Seq<Seq<char>>, m: int)
    requires
        xs.len() == drafts.len(),
        0 <= m <= drafts.len(),
    ensures
        picked(cards, drafts.take(m), xs.take(m)).len() <= picked(cards, drafts, xs).len(),
        picked(cards, drafts, xs).take(picked(cards, drafts.take(m), xs.take(m)).len() as int) == picked(
            cards,
            drafts.take(m),
            xs.take(m),
        ),
    decreases drafts.len(),
{
    if m == drafts.len() {
        assert(drafts.take(m) =~= drafts);
        assert(xs.take(m) =~= xs);
        assert(picked(cards, drafts, xs).take(picked(cards, drafts, xs).len() as int) =~= picked(cards, drafts, xs));
    } else {
        let d0 = drafts.drop_last();
        let x0 = xs.drop_last();
        lemma_picked_prefix(cards, d0, x0, m);
        assert(d0.take(m) =~= drafts.take(m));
        assert(x0.take(m) =~= xs.take(m));
        let small = picked(cards, drafts.take(m), xs.take(m));
        let mid = picked(cards, d0, x0);
        let full = picked(cards, drafts, xs);
        assert(full.take(small.len() as int) =~= mid.take(small.len() as int));
    }
}

/// Nothing is resolved against no cards.
pub proof fn lemma_resolve_no_cards(drafts: Seq<RelationDraftView>)
    ensures
        resolve_relations(Seq::<CardView>::empty(), drafts).len() == 0,
    decreases drafts.len(),
{
    if drafts.len() > 0 {
        lemma_resolve_no_cards(drafts.drop_last());
    }
}

impl CardMindRepository {
    /// Card rows for the drafts with the given ids and times; refused when
    /// one of the ids is stored already or given twice.
    fn draft_cards_with(
        &self,
        conversation_id: &str,
        drafts: &Vec<ExtractedCardDraft>,
        ids: &Vec<String>,
        stamps: &Vec<String>,
    ) -> (out: Result<Vec<KnowledgeCard>, String>)
        requires
            ids.len() == drafts.len(),
            stamps.len() == drafts.len(),
        ensures
            match out {
                Ok(cards) => {
                    &&& card_views(cards@) == card_rows(
                        card_draft_views(drafts@),
                        conversation_id@,
                        string_seqs(ids@),
                        string_seqs(stamps@),
                    )
                    &&& (card_ids(self@.cards) + string_seqs(ids@)).no_duplicates()
                },
                Err(e) => {
                    &&& !(card_ids(self@.cards) + string_seqs(ids@)).no_duplicates()
                    &&& e@ == "UNIQUE constraint failed: knowledge_cards.id"@
                },
            },
    {
        proof {
            use_type_invariant(self);
            self.lemma_ids();
        }
        let ghost cd = card_draft_views(drafts@);
        let ghost iv = string_seqs(ids@);
        let ghost sv = string_seqs(stamps@);
        let ghost old_ids = card_ids(self@.cards);
        let ghost target = card_rows(cd, conversation_id@, iv, sv);
        let mut cards: Vec<KnowledgeCard> = Vec::new();
        let mut k: usize = 0;
        assert(old_ids + iv.take(0) =~= old_ids);
        assert(target.take(0) =~= Seq::<CardView>::empty());
        while k < drafts.len()
            invariant
                k <= drafts.len() == ids.len() == stamps.len(),
                cards.len() == k,
                cd == card_draft_views(drafts@),
                iv == string_seqs(ids@),
                sv == string_seqs(stamps@),
                old_ids == card_ids(self@.cards),
                old_ids == keys(self.cards@),
                target == card_rows(cd, conversation_id@, iv, sv),
                card_views(cards@) == target.take(k as int),
                (old_ids + iv.take(k as int)).no_duplicates(),
            decreases drafts.len() - k,
        {
            let id = ids[k].clone();
            let ghost all = old_ids + iv;
            match find_index(&self.cards, id.as_str()) {
                Some(p) => {
                    proof {
                        assert(all[p as int] == old_ids[p as int]);
                        assert(all[old_ids.len() + k] == iv[k as int]);
                        assert(old_ids[p as int] == id@);
                    }
                    return Err(String::from_str("UNIQUE constraint failed: knowledge_cards.id"));
                },
                None => {},
            }
            match find_index(&cards, id.as_str()) {
                Some(m) => {
                    proof {
                        assert(card_views(cards@)[m as int] == target[m as int]);
                        assert(all[old_ids.len() + m] == iv[m as int]);
                        assert(all[old_ids.len() + k] == iv[k as int]);
                    }
                    return Err(String::from_str("UNIQUE constraint failed: knowledge_cards.id"));
                },
                None => {},
            }
            let d = &drafts[k];
            let card = KnowledgeCard {
                id,
                title: d.title.clone(),
                summary: d.summary.clone(),
                content: d.content.clone(),
                card_type: d.card_type.clone(),
                tags: copy_strings(&d.tags),
                mastery_status: String::from_str("new"),
                source_conversation_id: String::from_str(conversation_id),
                created_at: stamps[k].clone(),
                updated_at: stamps[k].clone(),
            };
            proof {
                assert(cd[k as int] == drafts@[k as int]@);
                assert(card@ == target[k as int]);
                assert(!old_ids.contains(iv[k as int]));
                assert forall|q: int| 0 <= q < iv.take(k as int).len() implies iv.take(k as int)[q] != iv[k as int] by {
                    assert(card_views(cards@)[q] == target[q]);
                    assert(cards@[q].key() == card_views(cards@)[q].id);
                }
                assert(!iv.take(k as int).contains(iv[k as int]));
                lemma_push_fresh(old_ids, iv.take(k as int), iv[k as int]);
                assert(iv.take(k + 1) =~= iv.take(k as int).push(iv[k as int]));
            }
            let ghost before = card_views(cards@);
            cards.push(card);
            assert(card_views(cards@) =~= before.push(target[k as int]));
            assert(target.take(k + 1) =~= target.take(k as int).push(target[k as int]));
            k += 1;
        }
        assert(iv.take(drafts.len() as int) =~= iv);
        assert(target.take(drafts.len() as int) =~= target);
        Ok(cards)
    }

    /// Relation rows for the drafts whose titles name two of the new cards,
    /// with the ids and times given for those drafts; refused when one of
    /// these ids is stored already or given twice.
    fn draft_relations_with(
        &self,
        cards: &Vec<KnowledgeCard>,
        drafts: &Vec<ExtractedRelationDraft>,
        ids: &Vec<String>,
        stamps: &Vec<String>,
    ) -> (out: Result<Vec<CardRelation>, String>)
        requires
            ids.len() == drafts.len(),
            stamps.len() == drafts.len(),
        ensures
            ({
                let cv = card_views(cards@);
                let rd = relation_draft_views(drafts@);
                let used = picked(cv, rd, string_seqs(ids@));
                match out {
                    Ok(relations) => {
                        &&& relation_views(relations@) == relation_rows(
                            resolve_relations(cv, rd),
                            used,
                            picked(cv, rd, string_seqs(stamps@)),
                        )
                        &&& (relation_ids(self@.relations) + used).no_duplicates()
                    },
                    Err(e) => {
                        &&& !(relation_ids(self@.relations) + used).no_duplicates()
                        &&& e@ == "UNIQUE constraint failed: card_relations.id"@
                    },
                }
            }),
    {
        proof {
            use_type_invariant(self);
            self.lemma_ids();
        }
        let ghost cv = card_views(cards@);
        let ghost rd = relation_draft_views(drafts@);
        let ghost iv = string_seqs(ids@);
        let ghost sv = string_seqs(stamps@);
        let ghost old_ids = relation_ids(self@.relations);
        let mut relations: Vec<CardRelation> = Vec::new();
        let mut r: usize = 0;
        assert(rd.take(0) =~= Seq::<RelationDraftView>::empty());
        assert(iv.take(0) =~= Seq::<Seq<char>>::empty());
        assert(sv.take(0) =~= Seq::<Seq<char>>::empty());
        assert(old_ids + picked(cv, rd.take(0), iv.take(0)) =~= old_ids);
        assert(relation_views(relations@) =~= relation_rows(
            resolve_relations(cv, rd.take(0)),
            picked(cv, rd.take(0), iv.take(0)),
            picked(cv, rd.take(0), sv.take(0)),
        ));
        while r < drafts.len()
            invariant
                r <= drafts.len() == ids.len() == stamps.len(),
                cv == card_views(cards@),
                rd == relation_draft_views(drafts@),
                iv == string_seqs(ids@),
                sv == string_seqs(stamps@),
                old_ids == relation_ids(self@.relations),
                old_ids == keys(self.relations@),
                relation_views(relations@) == relation_rows(
                    resolve_relations(cv, rd.take(r as int)),
                    picked(cv, rd.take(r as int), iv.take(r as int)),
                    picked(cv, rd.take(r as int), sv.take(r as int)),
                ),
                relations.len() == resolve_relations(cv, rd.take(r as int)).len(),
                (old_ids + picked(cv, rd.take(r as int), iv.take(r as int))).no_duplicates(),
            decreases drafts.len() - r,
        {
            let d = &drafts[r];
            let s = id_for_title_of(cards, d.source_title.as_str());
            let t = id_for_title_of(cards, d.target_title.as_str());
            let ghost rd1 = rd.take(r + 1);
            let ghost iv1 = iv.take(r + 1);
            let ghost sv1 = sv.take(r + 1);
            let ghost pi = picked(cv, rd.take(r as int), iv.take(r as int));
            let ghost ps = picked(cv, rd.take(r as int), sv.take(r as int));
            let ghost res = resolve_relations(cv, rd.take(r as int));
            proof {
                assert(rd1.drop_last() =~= rd.take(r as int));
                assert(iv1.drop_last() =~= iv.take(r as int));
                assert(sv1.drop_last() =~= sv.take(r as int));
                assert(rd1.last() == d@);
                assert(iv1.last() == iv[r as int]);
                assert(sv1.last() == sv[r as int]);
                lemma_picked(cv, rd.take(r as int), iv.take(r as int));
                lemma_picked(cv, rd.take(r as int), sv.take(r as int));
            }
            match (s, t) {
                (Some(a), Some(b)) => {
                    let id = ids[r].clone();
                    let ghost used = picked(cv, rd, iv);
                    proof {
                        lemma_picked_prefix(cv, rd, iv, r + 1);
                        assert(picked(cv, rd1, iv1) == pi.push(id@));
                    }
                    match find_index(&self.relations, id.as_str()) {
                        Some(p) => {
                            proof {
                                let all = old_ids + used;
                                assert(used[pi.len() as int] == picked(cv, rd1, iv1)[pi.len() as int]);
                                assert(all[(old_ids.len() + pi.len()) as int] == id@);
                                assert(all[p as int] == old_ids[p as int]);
                            }
                            return Err(String::from_str("UNIQUE constraint failed: card_relations.id"));
                        },
                        None => {},
                    }
                    match find_index(&relations, id.as_str()) {
                        Some(m) => {
                            proof {
                                let all = old_ids + used;
                                assert(relation_views(relations@)[m as int] == relation_row(res[m as int], pi[m as int], ps[m as int]));
                                assert(relations@[m as int].key() == relation_views(relations@)[m as int].id);
                                assert(used[m as int] == picked(cv, rd1, iv1)[m as int]);
                                assert(used[pi.len() as int] == picked(cv, rd1, iv1)[pi.len() as int]);
                                assert(all[old_ids.len() + m] == used[m as int]);
                                assert(all[(old_ids.len() + pi.len()) as int] == id@);
                            }
                            return Err(String::from_str("UNIQUE constraint failed: card_relations.id"));
                        },
                        None => {},
                    }
                    let relation = CardRelation {
                        id,
                        source_card_id: a,
                        target_card_id: b,
                        relation_type: d.relation_type.clone(),
                        reason: d.reason.clone(),
                        confidence_bits: d.confidence_bits,
                        created_at: stamps[r].clone(),
                    };
                    let ghost before = relation_views(relations@);
                    proof {
                        assert(!old_ids.contains(relation@.id));
                        assert forall|q: int| 0 <= q < pi.len() implies pi[q] != relation@.id by {
                            assert(relation_views(relations@)[q] == relation_row(res[q], pi[q], ps[q]));
                            assert(relations@[q].key() == relation_views(relations@)[q].id);
                        }
                        assert(!pi.contains(relation@.id));
                        lemma_push_fresh(old_ids, pi, relation@.id);
                        assert(resolve_relations(cv, rd1) == res.push(
                            ResolvedRelation { source_card_id: a@, target_card_id: b@, draft: d@ },
                        ));
                        assert(picked(cv, rd1, sv1) == ps.push(sv[r as int]));
                    }
                    relations.push(relation);
                    proof {
                        assert(relation_views(relations@) =~= before.push(relation@));
                        assert(relation_views(relations@) =~= relation_rows(
                            resolve_relations(cv, rd1),
                            picked(cv, rd1, iv1),
                            picked(cv, rd1, sv1),
                        ));
                    }
                },
                _ => {
                    proof {
                        assert(resolve_relations(cv, rd1) == res);
                        assert(picked(cv, rd1, iv1) == pi);
                        assert(picked(cv, rd1, sv1) == ps);
                    }
                },
            }
            r += 1;
        }
        assert(rd.take(drafts.len() as int) =~= rd);
        assert(iv.take(drafts.len() as int) =~= iv);
        assert(sv.take(drafts.len() as int) =~= sv);
        Ok(relations)
    }

    /// Saves the drafts of an extraction for a stored conversation with the
    /// given ids and times, all or nothing: a card per card draft, and a
    /// relation per relation draft whose titles name two of the new cards.
    pub fn persist_extraction_with(
        &mut self,
        conversation_id: &str,
        card_drafts: &Vec<ExtractedCardDraft>,
        relation_drafts: &Vec<ExtractedRelationDraft>,
        drawn: &DrawnRows,
    ) -> (out: Result<PersistedExtraction, String>)
        requires
            conversation_ids(old(self)@.conversations).contains(conversation_id@),
            drawn.card_ids.len() == card_drafts.len(),
            drawn.card_stamps.len() == card_drafts.len(),
            drawn.relation_ids.len() == relation_drafts.len(),
            drawn.relation_stamps.len() == relation_drafts.len(),
        ensures
            persist_with_outcome(
                old(self)@,
                final(self)@,
                conversation_id@,
                card_draft_views(card_drafts@),
                relation_draft_views(relation_drafts@),
                drawn@,
                out,
            ),
    {
        proof {
            use_type_invariant(&*self);
        }
        let ghost cd = card_draft_views(card_drafts@);
        let ghost rd = relation_draft_views(relation_drafts@);
        let ghost old_view = self@;
        let mut i: usize = 0;
        assert(rd.subrange(0, rd.len() as int) == rd);
        while i < relation_drafts.len()
            invariant
                i <= relation_drafts.len(),
                cd == card_draft_views(card_drafts@),
                rd == relation_draft_views(relation_drafts@),
                first_row_problem(cd, rd) == first_row_problem(cd, rd.subrange(i as int, rd.len() as int)),
            decreases relation_drafts.len() - i,
        {
            let d = &relation_drafts[i];
            let ghost rest = rd.subrange(i as int, rd.len() as int);
            assert(rest[0] == d@);
            assert(rest.drop_first() == rd.subrange(i + 1, rd.len() as int));
            if title_named(card_drafts, d.source_title.as_str()) && title_named(
                card_drafts,
                d.target_title.as_str(),
            ) {
                match row_problem(d.relation_type.as_str(), d.confidence_bits) {
                    Some(m) => {
                        return Err(m);
                    },
                    None => {},
                }
            }
            i += 1;
        }
        proof {
            assert(rd.subrange(rd.len() as int, rd.len() as int) =~= Seq::<RelationDraftView>::empty());
            lemma_no_row_problem(cd, rd);
        }
        let cards = match self.draft_cards_with(conversation_id, card_drafts, &drawn.card_ids, &drawn.card_stamps) {
            Ok(cards) => cards,
            Err(e) => {
                return Err(e);
            },
        };
        let ghost cv = card_views(cards@);
        proof {
            lemma_card_rows(cd, conversation_id@, drawn@.card_ids, drawn@.card_stamps);
        }
        let relations = match self.draft_relations_with(
            &cards,
            relation_drafts,
            &drawn.relation_ids,
            &drawn.relation_stamps,
        ) {
            Ok(relations) => relations,
            Err(e) => {
                return Err(e);
            },
        };
        let ghost rv = relation_views(relations@);
        let ghost used = picked(cv, rd, drawn@.relation_ids);
        proof {
            lemma_picked(cv, rd, drawn@.relation_ids);
            lemma_picked(cv, rd, drawn@.relation_stamps);
            assert(relation_ids(rv) =~= used);
        }
        let (conversations, mut all_cards, mut all_relations, openai_model) = self.take_tables();
        let mut k: usize = 0;
        while k < cards.len()
            invariant
                k <= cards.len(),
                cv == card_views(cards@),
                card_views(all_cards@) == old_view.cards + cv.take(k as int),
            decreases cards.len() - k,
        {
            let ghost before = card_views(all_cards@);
            all_cards.push(cards[k].duplicate());
            assert(card_views(all_cards@) =~= before.push(cv[k as int]));
            assert(old_view.cards + cv.take(k + 1) =~= (old_view.cards + cv.take(k as int)).push(
                cv[k as int],
            ));
            k += 1;
        }
        assert(cv.take(cards.len() as int) == cv);
        let mut m: usize = 0;
        while m < relations.len()
            invariant
                m <= relations.len(),
                rv == relation_views(relations@),
                relation_views(all_relations@) == old_view.relations + rv.take(m as int),
            decreases relations.len() - m,
        {
            let ghost before = relation_views(all_relations@);
            all_relations.push(relations[m].duplicate());
            assert(relation_views(all_relations@) =~= before.push(rv[m as int]));
            assert(old_view.relations + rv.take(m + 1) =~= (old_view.relations + rv.take(
                m as int,
            )).push(rv[m as int]));
            m += 1;
        }
        assert(rv.take(relations.len() as int) == rv);
        proof {
            let nv = RepositoryView {
                conversations: old_view.conversations,
                cards: old_view.cards + cv,
                relations: old_view.relations + rv,
                openai_model: old_view.openai_model,
            };
            lemma_ids_concat(old_view.cards, cv);
            lemma_relation_ids_concat(old_view.relations, rv);
            let all_ids = card_ids(nv.cards);
            let resolved = resolve_relations(cv, rd);
            assert forall|i: int| 0 <= i < nv.cards.len() implies card_fits(
                conversation_ids(nv.conversations),
                #[trigger] nv.cards[i],
            ) by {
                if i < old_view.cards.len() {
                    assert(nv.cards[i] == old_view.cards[i]);
                } else {
                    assert(nv.cards[i] == cv[i - old_view.cards.len()]);
                }
            }
            assert forall|i: int| 0 <= i < nv.relations.len() implies relation_fits(
                all_ids,
                #[trigger] nv.relations[i],
            ) by {
                if i < old_view.relations.len() {
                    let r = old_view.relations[i];
                    assert(nv.relations[i] == r);
                    assert(relation_fits(card_ids(old_view.cards), r));
                    lemma_concat_contains(card_ids(old_view.cards), card_ids(cv), r.source_card_id);
                    lemma_concat_contains(card_ids(old_view.cards), card_ids(cv), r.target_card_id);
                } else {
                    let j = i - old_view.relations.len();
                    assert(nv.relations[i] == rv[j]);
                    assert(rv[j] == relation_row(resolved[j], used[j], picked(cv, rd, drawn@.relation_stamps)[j]));
                    lemma_resolved(cv, cd, rd, j);
                    lemma_concat_contains(card_ids(old_view.cards), card_ids(cv), rv[j].source_card_id);
                    lemma_concat_contains(card_ids(old_view.cards), card_ids(cv), rv[j].target_card_id);
                    let w = choose|w: int| 0 <= w < rd.len() && (#[trigger] rd[w]) == resolved[j].draft;
                    assert(names_card(cd, rd[w].source_title) && names_card(cd, rd[w].target_title));
                }
            }
            assert(valid_tables(nv));
        }
        *self = CardMindRepository {
            conversations,
            cards: all_cards,
            relations: all_relations,
            openai_model,
        };
        Ok(PersistedExtraction { cards, relations })
    }

    /// Saves the drafts of an extraction for a stored conversation, all or
    /// nothing, with fresh ids and the current time.
    fn persist_extraction(
        &mut self,
        conversation_id: &str,
        card_drafts: &Vec<ExtractedCardDraft>,
        relation_drafts: &Vec<ExtractedRelationDraft>,
    ) -> (out: Result<PersistedExtraction, String>)
        requires
            conversation_ids(old(self)@.conversations).contains(conversation_id@),
        ensures
            persist_outcome(
                old(self)@,
                final(self)@,
                conversation_id@,
                card_draft_views(card_drafts@),
                relation_draft_views(relation_drafts@),
                out,
            ),
    {
        proof {
            use_type_invariant(&*self);
        }
        let drawn = draw_rows(card_drafts.len(), relation_drafts.len());
        let ghost old_view = self@;
        let out = self.persist_extraction_with(conversation_id, card_drafts, relation_drafts, &drawn);
        proof {
            lemma_drawn_outcome(
                old_view,
                self@,
                conversation_id@,
                card_draft_views(card_drafts@),
                relation_draft_views(relation_drafts@),
                drawn@,
                out,
            );
        }
        out
    }
}

/// Saving with drawn ids that have the shape of fresh ids meets
/// `persist_outcome`; with no card drafts nothing can clash.
pub proof fn lemma_drawn_outcome(
    old: RepositoryView,
    new: RepositoryView,
    conversation_id: Seq<char>,
    cd: Seq<CardDraftView>,
    rd: Seq<RelationDraftView>,
    d: DrawnView,
    out: Result<PersistedExtraction, String>,
)
    requires
        valid_tables(old),
        d.card_ids.len() == cd.len(),
        d.card_stamps.len() == cd.len(),
        d.relation_ids.len() == rd.len(),
        d.relation_stamps.len() == rd.len(),
        forall|i: int| 0 <= i < cd.len() ==> is_generated_id("card"@, #[trigger] d.card_ids[i]),
        forall|i: int| 0 <= i < rd.len() ==> is_generated_id("rel"@, #[trigger] d.relation_ids[i]),
        persist_with_outcome(old, new, conversation_id, cd, rd, d, out),
    ensures
        persist_outcome(old, new, conversation_id, cd, rd, out),
{
    let cards = card_rows(cd, conversation_id, d.card_ids, d.card_stamps);
    let used = picked(cards, rd, d.relation_ids);
    let stamps = picked(cards, rd, d.relation_stamps);
    let resolved = resolve_relations(cards, rd);
    let relations = relation_rows(resolved, used, stamps);
    lemma_card_rows(cd, conversation_id, d.card_ids, d.card_stamps);
    lemma_picked(cards, rd, d.relation_ids);
    lemma_picked(cards, rd, d.relation_stamps);
    assert(relation_ids(relations) =~= used);
    if cd.len() == 0 {
        assert(cards =~= Seq::<CardView>::empty());
        lemma_resolve_no_cards(rd);
        assert(used =~= Seq::<Seq<char>>::empty());
        assert(card_ids(old.cards) + d.card_ids =~= card_ids(old.cards));
        assert(relation_ids(old.relations) + used =~= relation_ids(old.relations));
    }
    assert forall|i: int| 0 <= i < cards.len() implies saved_card(
        #[trigger] cards[i],
        cd[i],
        conversation_id,
    ) by {
        assert(is_generated_id("card"@, d.card_ids[i]));
    }
    assert forall|j: int| 0 <= j < relations.len() implies saved_relation(
        #[trigger] relations[j],
        resolved[j],
    ) by {
        assert(d.relation_ids.contains(used[j]));
        let k = choose|k: int| 0 <= k < d.relation_ids.len() && d.relation_ids[k] == used[j];
        assert(is_generated_id("rel"@, d.relation_ids[k]));
    }
}

/// Fresh ids and the current time for the rows of an extraction.
fn draw_rows(cards: usize, relations: usize) -> (out: DrawnRows)
    ensures
        out.card_ids.len() == cards,
        out.card_stamps.len() == cards,
        out.relation_ids.len() == relations,
        out.relation_stamps.len() == relations,
        forall|i: int| 0 <= i < cards ==> is_generated_id("card"@, #[trigger] out@.card_ids[i]),
        forall|i: int| 0 <= i < relations ==> is_generated_id("rel"@, #[trigger] out@.relation_ids[i]),
{
    let mut card_ids: Vec<String> = Vec::new();
    let mut card_stamps: Vec<String> = Vec::new();
    let mut i: usize = 0;
    while i < cards
        invariant
            i <= cards,
            card_ids.len() == i,
            card_stamps.len() == i,
            forall|k: int| 0 <= k < i ==> is_generated_id("card"@, #[trigger] card_ids@[k]@),
        decreases cards - i,
    {
        card_ids.push(create_id("card"));
        card_stamps.push(now_iso());
        i += 1;
    }
    let mut relation_ids: Vec<String> = Vec::new();
    let mut relation_stamps: Vec<String> = Vec::new();
    let mut j: usize = 0;
    while j < relations
        invariant
            j <= relations,
            relation_ids.len() == j,
            relation_stamps.len() == j,
            forall|k: int| 0 <= k < j ==> is_generated_id("rel"@, #[trigger] relation_ids@[k]@),
        decreases relations - j,
    {
        relation_ids.push(create_id("rel"));
        relation_stamps.push(now_iso());
        j += 1;
    }
    DrawnRows { card_ids, card_stamps, relation_ids, relation_stamps }
}

/// `out` is the error `msg`.
pub open spec fn refused<T>(out: Result<T, String>, msg: Seq<char>) -> bool {
    match out {
        Ok(_) => false,
        Err(e) => e@ == msg,
    }
}

/// An edit leaves the title, summary, content or type blank.
pub open spec fn edit_is_blank(e: CardEditView) -> bool {
    ||| trim(e.title).len() == 0
    ||| trim(e.summary).len() == 0
    ||| trim(e.content).len() == 0
    ||| trim(e.card_type).len() == 0
}

/// A card after an edit: trimmed texts, cleaned tags, a known mastery state
/// and the time of the edit.
pub open spec fn edited_card(c: CardView, e: CardEditView, updated_at: Seq<char>) -> CardView {
    CardView {
        title: trim(e.title),
        summary: trim(e.summary),
        content: trim(e.content),
        card_type: trim(e.card_type),
        tags: clean_tags(e.tags),
        mastery_status: mastery_of(e.mastery_status),
        updated_at,
        ..c
    }
}

/// The cards other than the one with the given id, in order.
pub open spec fn cards_without(cards: Seq<CardView>, id: Seq<char>) -> Seq<CardView>
    decreases cards.len(),
{
    if cards.len() == 0 {
        cards
    } else {
        let rest = cards_without(cards.drop_last(), id);
        if cards.last().id != id {
            rest.push(cards.last())
        } else {
            rest
        }
    }
}

/// The relations that do not touch the card with the given id, in order.
pub open spec fn relations_without_card(relations: Seq<RelationView>, id: Seq<char>) -> Seq<
    RelationView,
>
    decreases relations.len(),
{
    if relations.len() == 0 {
        relations
    } else {
        let rest = relations_without_card(relations.drop_last(), id);
        let r = relations.last();
        if r.source_card_id != id && r.target_card_id != id {
            rest.push(r)
        } else {
            rest
        }
    }
}

pub proof fn lemma_cards_without(cards: Seq<CardView>, id: Seq<char>)
    requires
        card_ids(cards).no_duplicates(),
    ensures
        card_ids(cards_without(cards, id)).no_duplicates(),
        forall|x: Seq<char>|
            card_ids(cards_without(cards, id)).contains(x) <==> (card_ids(cards).contains(x) && x
                != id),
        forall|i: int|
            0 <= i < cards_without(cards, id).len() ==> cards.contains(
                #[trigger] cards_without(cards, id)[i],
            ),
    decreases cards.len(),
{
    if cards.len() > 0 {
        let init = cards.drop_last();
        assert(card_ids(init) =~= card_ids(cards).drop_last());
        assert forall|a: int, b: int| 0 <= a < card_ids(init).len() && 0 <= b < card_ids(init).len() && a != b implies card_ids(init)[a] != card_ids(init)[b] by {
            assert(card_ids(init)[a] == card_ids(cards)[a]);
            assert(card_ids(init)[b] == card_ids(cards)[b]);
        }
        lemma_cards_without(init, id);
        let rest = cards_without(init, id);
        let last = cards.last();
        assert(card_ids(cards) =~= card_ids(init).push(last.id));
        lemma_contains_push(card_ids(init), last.id, id);
        assert forall|x: Seq<char>| card_ids(cards).contains(x) <==> (card_ids(init).contains(x) || x == last.id) by {
            lemma_contains_push(card_ids(init), last.id, x);
        }
        assert(!card_ids(init).contains(last.id)) by {
            if card_ids(init).contains(last.id) {
                let k = choose|k: int| 0 <= k < card_ids(init).len() && card_ids(init)[k] == last.id;
                assert(card_ids(cards)[k] == card_ids(cards)[cards.len() - 1]);
            }
        }
        if last.id != id {
            assert(card_ids(rest.push(last)) =~= card_ids(rest).push(last.id));
            assert forall|x: Seq<char>| card_ids(rest.push(last)).contains(x) <==> (card_ids(rest).contains(x) || x == last.id) by {
                lemma_contains_push(card_ids(rest), last.id, x);
            }
            lemma_push_fresh(Seq::<Seq<char>>::empty(), card_ids(rest), last.id);
            assert(Seq::<Seq<char>>::empty() + card_ids(rest) =~= card_ids(rest));
            assert(Seq::<Seq<char>>::empty() + card_ids(rest).push(last.id) =~= card_ids(rest).push(last.id));
            assert forall|i: int| 0 <= i < rest.push(last).len() implies cards.contains(#[trigger] rest.push(last)[i]) by {
                if i < rest.len() {
                    assert(rest.push(last)[i] == rest[i]);
                    assert(init.contains(rest[i]));
                    let k = choose|k: int| 0 <= k < init.len() && init[k] == rest[i];
                    assert(cards[k] == rest[i]);
                } else {
                    assert(cards[cards.len() - 1] == last);
                }
            }
        } else {
            assert forall|i: int| 0 <= i < rest.len() implies cards.contains(#[trigger] rest[i]) by {
                assert(init.contains(rest[i]));
                let k = choose|k: int| 0 <= k < init.len() && init[k] == rest[i];
                assert(cards[k] == rest[i]);
            }
        }
    } else {
        assert(card_ids(cards_without(cards, id)) =~= Seq::<Seq<char>>::empty());
    }
}

pub proof fn lemma_relations_without_card(relations: Seq<RelationView>, id: Seq<char>)
    requires
        relation_ids(relations).no_duplicates(),
    ensures
        relation_ids(relations_without_card(relations, id)).no_duplicates(),
        forall|i: int|
            0 <= i < relations_without_card(relations, id).len() ==> relations.contains(
                #[trigger] relations_without_card(relations, id)[i],
            ),
        forall|i: int|
            0 <= i < relations_without_card(relations, id).len() ==> (#[trigger] relations_without_card(relations, id)[i]).source_card_id != id
                && relations_without_card(relations, id)[i].target_card_id != id,
        forall|x: Seq<char>|
            relation_ids(relations_without_card(relations, id)).contains(x) ==> relation_ids(relations).contains(x),
    decreases relations.len(),
{
    if relations.len() > 0 {
        let init = relations.drop_last();
        assert(relation_ids(init) =~= relation_ids(relations).drop_last());
        lemma_relations_without_card(init, id);
        let rest = relations_without_card(init, id);
        let last = relations.last();
        assert(relation_ids(relations) =~= relation_ids(init).push(last.id));
        assert forall|x: Seq<char>| relation_ids(init).contains(x) implies relation_ids(relations).contains(x) by {
            lemma_contains_push(relation_ids(init), last.id, x);
        }
        assert(!relation_ids(init).contains(last.id)) by {
            if relation_ids(init).contains(last.id) {
                let k = choose|k: int| 0 <= k < relation_ids(init).len() && relation_ids(init)[k] == last.id;
                assert(relation_ids(relations)[k] == relation_ids(relations)[relations.len() - 1]);
            }
        }
        assert forall|i: int| 0 <= i < rest.len() implies relations.contains(#[trigger] rest[i]) by {
            assert(init.contains(rest[i]));
            let k = choose|k: int| 0 <= k < init.len() && init[k] == rest[i];
            assert(relations[k] == rest[i]);
        }
        if last.source_card_id != id && last.target_card_id != id {
            assert(relation_ids(rest.push(last)) =~= relation_ids(rest).push(last.id));
            lemma_push_fresh(Seq::<Seq<char>>::empty(), relation_ids(rest), last.id);
            assert(Seq::<Seq<char>>::empty() + relation_ids(rest) =~= relation_ids(rest));
            assert(Seq::<Seq<char>>::empty() + relation_ids(rest).push(last.id) =~= relation_ids(rest).push(last.id));
            assert forall|x: Seq<char>| relation_ids(rest.push(last)).contains(x) implies relation_ids(relations).contains(x) by {
                lemma_contains_push(relation_ids(rest), last.id, x);
                lemma_contains_push(relation_ids(init), last.id, x);
            }
            assert forall|i: int| 0 <= i < rest.push(last).len() implies relations.contains(#[trigger] rest.push(last)[i]) by {
                if i < rest.len() {
                    assert(rest.push(last)[i] == rest[i]);
                } else {
                    assert(relations[relations.len() - 1] == last);
                }
            }
            assert forall|i: int| 0 <= i < rest.push(last).len() implies (#[trigger] rest.push(last)[i]).source_card_id != id && rest.push(last)[i].target_card_id != id by {
                if i < rest.len() {
                    assert(rest.push(last)[i] == rest[i]);
                }
            }
        }
    } else {
        assert(relation_ids(relations_without_card(relations, id)) =~= Seq::<Seq<char>>::empty());
    }
}

/// The card after an edit, or the refusal of a blank one.
fn apply_edit(existing: &KnowledgeCard, input: &UpdateCardInput) -> (out: Result<KnowledgeCard, String>)
    ensures
        match out {
            Ok(u) => !edit_is_blank(input@) && u@ == edited_card(existing@, input@, u@.updated_at),
            Err(e) => edit_is_blank(input@) && e@ == "标题、摘要、内容和类型不能为空。"@,
        },
{
    let title = chars_of(input.title.as_str());
    let title = trim_chars(&title);
    let summary = chars_of(input.summary.as_str());
    let summary = trim_chars(&summary);
    let content = chars_of(input.content.as_str());
    let content = trim_chars(&content);
    let card_type = chars_of(input.card_type.as_str());
    let card_type = trim_chars(&card_type);
    if title.len() == 0 || summary.len() == 0 || content.len() == 0 || card_type.len() == 0 {
        return Err(String::from_str("标题、摘要、内容和类型不能为空。"));
    }
    Ok(KnowledgeCard {
        id: existing.id.clone(),
        title: string_from_chars(&title),
        summary: string_from_chars(&summary),
        content: string_from_chars(&content),
        card_type: string_from_chars(&card_type),
        tags: normalize_tags(&input.tags),
        mastery_status: String::from_str(normalize_mastery_status(input.mastery_status.as_str())),
        source_conversation_id: existing.source_conversation_id.clone(),
        created_at: existing.created_at.clone(),
        updated_at: now_iso(),
    })
}

impl CardMindRepository {
    /// Runs the local extractor on a stored conversation and saves what it
    /// proposes.
    pub fn extract_conversation(&mut self, id: &str) -> (out: Result<PersistedExtraction, String>)
        ensures
            match find_conversation(old(self)@.conversations, id@) {
                None => final(self)@ == old(self)@ && refused(out, "Conversation not found"@),
                Some(c) => persist_outcome(
                    old(self)@,
                    final(self)@,
                    c.id,
                    local_extraction(c.raw_content).cards,
                    local_extraction(c.raw_content).relations,
                    out,
                ),
            },
    {
        let conversation = match self.get_conversation(id) {
            Some(c) => c,
            None => {
                return Err(String::from_str("Conversation not found"));
            },
        };
        proof {
            use_type_invariant(&*self);
            let ids = conversation_ids(self@.conversations);
            let p = position_of(ids, id@);
            assert(ids[p] == conversation@.id);
        }
        let extraction = extract_knowledge_cards(conversation.raw_content.as_str());
        self.persist_extraction(conversation.id.as_str(), &extraction.cards, &extraction.relations)
    }

    /// Saves the drafts that the user confirmed for a stored conversation.
    pub fn confirm_extraction(&mut self, input: ConfirmExtractionInput) -> (out: Result<
        PersistedExtraction,
        String,
    >)
        ensures
            if conversation_ids(old(self)@.conversations).contains(input.conversation_id@) {
                persist_outcome(
                    old(self)@,
                    final(self)@,
                    input.conversation_id@,
                    card_draft_views(input.cards@),
                    relation_draft_views(input.relations@),
                    out,
                )
            } else {
                final(self)@ == old(self)@ && refused(out, "Conversation not found"@)
            },
    {
        if self.get_conversation(input.conversation_id.as_str()).is_none() {
            return Err(String::from_str("Conversation not found"));
        }
        self.persist_extraction(input.conversation_id.as_str(), &input.cards, &input.relations)
    }

    /// Edits a card: its texts are trimmed and must not be blank, its tags
    /// trimmed with the empty ones dropped, its mastery state one of
    /// `new`, `learning`, `mastered`; its time of change is renewed.
    pub fn update_card(&mut self, input: UpdateCardInput) -> (out: Result<KnowledgeCard, String>)
        ensures
            match find_card(old(self)@.cards, input.id@) {
                None => final(self)@ == old(self)@ && refused(out, "Knowledge card not found"@),
                Some(c) => if edit_is_blank(input@) {
                    final(self)@ == old(self)@ && refused(out, "标题、摘要、内容和类型不能为空。"@)
                } else {
                    out matches Ok(u) && u@ == edited_card(c, input@, u@.updated_at)
                        && final(self)@ == RepositoryView {
                        cards: old(self)@.cards.update(
                            position_of(card_ids(old(self)@.cards), input.id@),
                            u@,
                        ),
                        ..old(self)@
                    }
                },
            },
    {
        proof {
            use_type_invariant(&*self);
            self.lemma_ids();
        }
        let i = match find_index(&self.cards, input.id.as_str()) {
            Some(i) => i,
            None => {
                return Err(String::from_str("Knowledge card not found"));
            },
        };
        proof {
            lemma_position_of(card_ids(self@.cards), i as int);
        }
        let updated = match apply_edit(&self.cards[i], &input) {
            Ok(u) => u,
            Err(e) => {
                return Err(e);
            },
        };
        let stored = updated.duplicate();
        let ghost old_view = self@;
        let (conversations, mut cards, relations, openai_model) = self.take_tables();
        cards.set(i, stored);
        proof {
            assert(card_views(cards@) =~= old_view.cards.update(i as int, updated@));
            assert(card_ids(old_view.cards.update(i as int, updated@)) =~= card_ids(old_view.cards));
            let nv = RepositoryView { cards: old_view.cards.update(i as int, updated@), ..old_view };
            assert forall|k: int| 0 <= k < nv.cards.len() implies card_fits(conversation_ids(nv.conversations), #[trigger] nv.cards[k]) by {
                if k != i {
                    assert(nv.cards[k] == old_view.cards[k]);
                }
            }
            assert forall|k: int| 0 <= k < nv.relations.len() implies relation_fits(card_ids(nv.cards), #[trigger] nv.relations[k]) by {
                assert(relation_fits(card_ids(old_view.cards), old_view.relations[k]));
            }
            assert(valid_tables(nv));
        }
        *self = CardMindRepository { conversations, cards, relations, openai_model };
        Ok(updated)
    }

    /// Deletes a card and every relation that touches it.
    pub fn delete_card(&mut self, id: &str) -> (out: Result<(), String>)
        ensures
            if card_ids(old(self)@.cards).contains(id@) {
                out is Ok && final(self)@ == RepositoryView {
                    cards: cards_without(old(self)@.cards, id@),
                    relations: relations_without_card(old(self)@.relations, id@),
                    ..old(self)@
                }
            } else {
                final(self)@ == old(self)@ && refused(out, "Knowledge card not found"@)
            },
    {
        proof {
            use_type_invariant(&*self);
            self.lemma_ids();
        }
        match find_index(&self.cards, id) {
            None => {
                return Err(String::from_str("Knowledge card not found"));
            },
            Some(k) => {
                assert(card_ids(self@.cards)[k as int] == id@);
            },
        }
        let ghost old_view = self@;
        assert(card_ids(old_view.cards).contains(id@));
        let (conversations, cards, relations, openai_model) = self.take_tables();
        let mut kept_cards: Vec<KnowledgeCard> = Vec::new();
        let mut i: usize = 0;
        assert(old_view.cards.take(0) =~= Seq::<CardView>::empty());
        while i < cards.len()
            invariant
                i <= cards.len(),
                card_views(cards@) == old_view.cards,
                card_views(kept_cards@) == cards_without(old_view.cards.take(i as int), id@),
            decreases cards.len() - i,
        {
            assert(old_view.cards.take(i + 1).drop_last() == old_view.cards.take(i as int));
            assert(old_view.cards.take(i + 1).last() == cards@[i as int]@);
            let ghost before = card_views(kept_cards@);
            if !same_text(cards[i].id.as_str(), id) {
                kept_cards.push(cards[i].duplicate());
                assert(card_views(kept_cards@) =~= before.push(cards@[i as int]@));
            }
            i += 1;
        }
        assert(old_view.cards.take(cards.len() as int) == old_view.cards);
        let mut kept_relations: Vec<CardRelation> = Vec::new();
        let mut j: usize = 0;
        assert(old_view.relations.take(0) =~= Seq::<RelationView>::empty());
        while j < relations.len()
            invariant
                j <= relations.len(),
                relation_views(relations@) == old_view.relations,
                relation_views(kept_relations@) == relations_without_card(
                    old_view.relations.take(j as int),
                    id@,
                ),
            decreases relations.len() - j,
        {
            assert(old_view.relations.take(j + 1).drop_last() == old_view.relations.take(j as int));
            assert(old_view.relations.take(j + 1).last() == relations@[j as int]@);
            let ghost before = relation_views(kept_relations@);
            let r = &relations[j];
            if !same_text(r.source_card_id.as_str(), id) && !same_text(r.target_card_id.as_str(), id) {
                kept_relations.push(r.duplicate());
                assert(relation_views(kept_relations@) =~= before.push(relations@[j as int]@));
            }
            j += 1;
        }
        assert(old_view.relations.take(relations.len() as int) == old_view.relations);
        proof {
            let nv = RepositoryView {
                cards: cards_without(old_view.cards, id@),
                relations: relations_without_card(old_view.relations, id@),
                ..old_view
            };
            lemma_cards_without(old_view.cards, id@);
            lemma_relations_without_card(old_view.relations, id@);
            assert forall|k: int| 0 <= k < nv.cards.len() implies card_fits(conversation_ids(nv.conversations), #[trigger] nv.cards[k]) by {
                assert(old_view.cards.contains(nv.cards[k]));
                let m = choose|m: int| 0 <= m < old_view.cards.len() && old_view.cards[m] == nv.cards[k];
                assert(card_fits(conversation_ids(old_view.conversations), old_view.cards[m]));
            }
            assert forall|k: int| 0 <= k < nv.relations.len() implies relation_fits(card_ids(nv.cards), #[trigger] nv.relations[k]) by {
                assert(old_view.relations.contains(nv.relations[k]));
                let m = choose|m: int| 0 <= m < old_view.relations.len() && old_view.relations[m] == nv.relations[k];
                assert(relation_fits(card_ids(old_view.cards), old_view.relations[m]));
            }
            assert(valid_tables(nv));
        }
        *self = CardMindRepository {
            conversations,
            cards: kept_cards,
            relations: kept_relations,
            openai_model,
        };
        Ok(())
    }
}

/// Whether some tag equals `tag`, ASCII case ignored.
fn holds_tag(tags: &Vec<String>, tag: &str) -> (out: bool)
    ensures
        out == has_tag(string_seqs(tags@), tag@),
{
    let ghost ts = string_seqs(tags@);
    let mut i: usize = 0;
    while i < tags.len()
        invariant
            i <= tags.len(),
            ts == string_seqs(tags@),
            forall|k: int| 0 <= k < i ==> !crate::text::eq_ignore_ascii_case(#[trigger] ts[k], tag@),
        decreases tags.len() - i,
    {
        assert(ts[i as int] == tags@[i as int]@);
        if eq_ignore_ascii_case_str(tags[i].as_str(), tag) {
            return true;
        }
        i += 1;
    }
    false
}

/// The tags of the target followed by the new ones of the source.
fn merge_tag_lists(target: &Vec<String>, source: &Vec<String>) -> (out: Vec<String>)
    ensures
        string_seqs(out@) == merged_tags(string_seqs(target@), string_seqs(source@)),
{
    let ghost tv = string_seqs(target@);
    let ghost sv = string_seqs(source@);
    let mut out = copy_strings(target);
    let mut i: usize = 0;
    assert(sv.take(0) =~= Seq::<Seq<char>>::empty());
    while i < source.len()
        invariant
            i <= source.len(),
            tv == string_seqs(target@),
            sv == string_seqs(source@),
            string_seqs(out@) == merged_tags(tv, sv.take(i as int)),
        decreases source.len() - i,
    {
        assert(sv.take(i + 1).drop_last() == sv.take(i as int));
        assert(sv.take(i + 1).last() == source@[i as int]@);
        if !holds_tag(&out, source[i].as_str()) {
            let ghost before = string_seqs(out@);
            out.push(source[i].clone());
            assert(string_seqs(out@) =~= before.push(source@[i as int]@));
        }
        i += 1;
    }
    assert(sv.take(source.len() as int) == sv);
    out
}

/// The content of the target after a merge.
fn merge_content_text(target: &KnowledgeCard, source: &KnowledgeCard) -> (out: String)
    ensures
        out@ == merged_content(target@, source@),
{
    let tc = chars_of(target.content.as_str());
    let mut out = trim_chars(&tc);
    append_str(&mut out, "\n\n---\n\n合并来源：");
    let st = chars_of(source.title.as_str());
    let st = trim_chars(&st);
    append_chars(&mut out, &st);
    append_str(&mut out, "\n\n");
    let sc = chars_of(source.content.as_str());
    let sc = trim_chars(&sc);
    append_chars(&mut out, &sc);
    string_from_chars(&out)
}

/// Whether two relations link the same cards the same way for the same reason.
fn same_link_of(a: &CardRelation, b: &CardRelation) -> (out: bool)
    ensures
        out == same_link(a@, b@),
{
    same_text(a.source_card_id.as_str(), b.source_card_id.as_str()) && same_text(
        a.target_card_id.as_str(),
        b.target_card_id.as_str(),
    ) && same_text(a.relation_type.as_str(), b.relation_type.as_str()) && same_text(
        a.reason.as_str(),
        b.reason.as_str(),
    )
}

/// The relations after merging card `from` into card `to`.
fn merge_relation_rows(relations: &Vec<CardRelation>, from: &str, to: &str) -> (out: Vec<CardRelation>)
    ensures
        relation_views(out@) == merged_relations(relation_views(relations@), from@, to@),
{
    let ghost rv = relation_views(relations@);
    let mut redirected: Vec<CardRelation> = Vec::new();
    let mut i: usize = 0;
    while i < relations.len()
        invariant
            i <= relations.len(),
            rv == relation_views(relations@),
            relation_views(redirected@) =~= redirect_relations(rv, from@, to@).take(i as int),
        decreases relations.len() - i,
    {
        let r = &relations[i];
        let source_card_id = if same_text(r.source_card_id.as_str(), from) {
            String::from_str(to)
        } else {
            r.source_card_id.clone()
        };
        let target_card_id = if same_text(r.target_card_id.as_str(), from) {
            String::from_str(to)
        } else {
            r.target_card_id.clone()
        };
        let moved = CardRelation {
            id: r.id.clone(),
            source_card_id,
            target_card_id,
            relation_type: r.relation_type.clone(),
            reason: r.reason.clone(),
            confidence_bits: r.confidence_bits,
            created_at: r.created_at.clone(),
        };
        assert(moved@ == redirect_relation(rv[i as int], from@, to@));
        let ghost before = relation_views(redirected@);
        redirected.push(moved);
        assert(relation_views(redirected@) =~= before.push(moved@));
        assert(redirect_relations(rv, from@, to@).take(i + 1) =~= redirect_relations(rv, from@, to@).take(i as int).push(redirect_relation(rv[i as int], from@, to@)));
        i += 1;
    }
    let ghost red = redirect_relations(rv, from@, to@);
    assert(red.take(relations.len() as int) =~= red);
    let mut linked: Vec<CardRelation> = Vec::new();
    let mut j: usize = 0;
    assert(red.take(0) =~= Seq::<RelationView>::empty());
    while j < redirected.len()
        invariant
            j <= redirected.len(),
            relation_views(redirected@) == red,
            relation_views(linked@) == without_self_links(red.take(j as int)),
        decreases redirected.len() - j,
    {
        assert(red.take(j + 1).drop_last() == red.take(j as int));
        assert(red.take(j + 1).last() == redirected@[j as int]@);
        let r = &redirected[j];
        let ghost before = relation_views(linked@);
        if !same_text(r.source_card_id.as_str(), r.target_card_id.as_str()) {
            linked.push(r.duplicate());
            assert(relation_views(linked@) =~= before.push(redirected@[j as int]@));
        }
        j += 1;
    }
    assert(red.take(redirected.len() as int) == red);
    let ghost ws = without_self_links(red);
    let mut kept: Vec<CardRelation> = Vec::new();
    let mut k: usize = 0;
    assert(ws.take(0) =~= Seq::<RelationView>::empty());
    while k < linked.len()
        invariant
            k <= linked.len(),
            relation_views(linked@) == ws,
            relation_views(kept@) == first_links(ws.take(k as int)),
        decreases linked.len() - k,
    {
        let ghost prefix = ws.take(k + 1);
        assert(prefix.drop_last() == ws.take(k as int));
        assert(prefix.last() == linked@[k as int]@);
        let mut m: usize = 0;
        let mut repeated = false;
        while m < k
            invariant
                m <= k < linked.len(),
                relation_views(linked@) == ws,
                prefix == ws.take(k + 1),
                repeated == exists|q: int| 0 <= q < m && same_link(#[trigger] prefix[q], prefix.last()),
            decreases k - m,
        {
            assert(prefix[m as int] == linked@[m as int]@);
            if same_link_of(&linked[m], &linked[k]) {
                repeated = true;
            }
            proof {
                assert((exists|q: int| 0 <= q < m + 1 && same_link(#[trigger] prefix[q], prefix.last()))
                    == ((exists|q: int| 0 <= q < m && same_link(#[trigger] prefix[q], prefix.last()))
                    || same_link(prefix[m as int], prefix.last())));
            }
            m += 1;
        }
        let ghost before = relation_views(kept@);
        if !repeated {
            kept.push(linked[k].duplicate());
            assert(relation_views(kept@) =~= before.push(linked@[k as int]@));
        }
        k += 1;
    }
    assert(ws.take(linked.len() as int) == ws);
    kept
}

impl CardMindRepository {
    /// Merges a duplicate card into a target card: the target's content gets
    /// the source's title and content appended, its tags the source's new
    /// tags; relations are moved from the source to the target, self-links
    /// and repeated links are dropped, and the source card is deleted.
    pub fn merge_cards(&mut self, input: MergeCardsInput) -> (out: Result<KnowledgeCard, String>)
        ensures
            if input.source_card_id@ == input.target_card_id@ {
                final(self)@ == old(self)@ && refused(out, "不能把卡片合并到它自己。"@)
            } else {
                match find_card(old(self)@.cards, input.source_card_id@) {
                    None => final(self)@ == old(self)@ && refused(
                        out,
                        "Source knowledge card not found"@,
                    ),
                    Some(src) => match find_card(old(self)@.cards, input.target_card_id@) {
                        None => final(self)@ == old(self)@ && refused(
                            out,
                            "Target knowledge card not found"@,
                        ),
                        Some(tgt) => if edit_is_blank(merge_edit(src, tgt)) {
                            final(self)@ == old(self)@ && refused(
                                out,
                                "标题、摘要、内容和类型不能为空。"@,
                            )
                        } else {
                            match out {
                                Ok(u) => {
                                    &&& u@ == edited_card(tgt, merge_edit(src, tgt), u@.updated_at)
                                    &&& final(self)@ == RepositoryView {
                                        cards: cards_without(
                                            old(self)@.cards.update(
                                                position_of(
                                                    card_ids(old(self)@.cards),
                                                    input.target_card_id@,
                                                ),
                                                u@,
                                            ),
                                            input.source_card_id@,
                                        ),
                                        relations: merged_relations(
                                            old(self)@.relations,
                                            input.source_card_id@,
                                            input.target_card_id@,
                                        ),
                                        ..old(self)@
                                    }
                                },
                                Err(_) => false,
                            }
                        },
                    },
                }
            },
    {
        proof {
            use_type_invariant(&*self);
            self.lemma_ids();
        }
        let from = input.source_card_id.as_str();
        let to = input.target_card_id.as_str();
        if same_text(from, to) {
            return Err(String::from_str("不能把卡片合并到它自己。"));
        }
        let si = match find_index(&self.cards, from) {
            Some(i) => i,
            None => {
                return Err(String::from_str("Source knowledge card not found"));
            },
        };
        assert(card_ids(self@.cards)[si as int] == from@);
        assert(card_ids(self@.cards).contains(from@));
        let ti = match find_index(&self.cards, to) {
            Some(i) => i,
            None => {
                return Err(String::from_str("Target knowledge card not found"));
            },
        };
        proof {
            lemma_position_of(card_ids(self@.cards), si as int);
            lemma_position_of(card_ids(self@.cards), ti as int);
        }
        let source = &self.cards[si];
        let target = &self.cards[ti];
        let edit = UpdateCardInput {
            id: target.id.clone(),
            title: target.title.clone(),
            summary: target.summary.clone(),
            content: merge_content_text(target, source),
            card_type: target.card_type.clone(),
            tags: merge_tag_lists(&target.tags, &source.tags),
            mastery_status: target.mastery_status.clone(),
        };
        assert(edit@ == merge_edit(source@, target@));
        let updated = match apply_edit(target, &edit) {
            Ok(u) => u,
            Err(e) => {
                return Err(e);
            },
        };
        let ghost old_view = self@;
        let ghost updated_cards = old_view.cards.update(ti as int, updated@);
        let (conversations, mut cards, relations, openai_model) = self.take_tables();
        cards.set(ti, updated.duplicate());
        assert(card_views(cards@) =~= updated_cards);
        let mut kept_cards: Vec<KnowledgeCard> = Vec::new();
        let mut i: usize = 0;
        assert(updated_cards.take(0) =~= Seq::<CardView>::empty());
        while i < cards.len()
            invariant
                i <= cards.len(),
                card_views(cards@) == updated_cards,
                card_views(kept_cards@) == cards_without(updated_cards.take(i as int), input.source_card_id@),
                from@ == input.source_card_id@,
            decreases cards.len() - i,
        {
            assert(updated_cards.take(i + 1).drop_last() == updated_cards.take(i as int));
            assert(updated_cards.take(i + 1).last() == cards@[i as int]@);
            let ghost before = card_views(kept_cards@);
            if !same_text(cards[i].id.as_str(), from) {
                kept_cards.push(cards[i].duplicate());
                assert(card_views(kept_cards@) =~= before.push(cards@[i as int]@));
            }
            i += 1;
        }
        assert(updated_cards.take(cards.len() as int) == updated_cards);
        let merged = merge_relation_rows(&relations, from, to);
        proof {
            let s = input.source_card_id@;
            let t = input.target_card_id@;
            let nv = RepositoryView {
                cards: cards_without(updated_cards, s),
                relations: merged_relations(old_view.relations, s, t),
                ..old_view
            };
            assert(card_ids(updated_cards) =~= card_ids(old_view.cards));
            crate::repository::lemma_cards_without(updated_cards, s);
            assert(relation_ids(old_view.relations) =~= relation_ids_of(old_view.relations));
            lemma_merged_relations(old_view.relations, s, t);
            assert(relation_ids(nv.relations) =~= relation_ids_of(nv.relations));
            assert forall|k: int| 0 <= k < nv.cards.len() implies card_fits(conversation_ids(nv.conversations), #[trigger] nv.cards[k]) by {
                assert(updated_cards.contains(nv.cards[k]));
                let m = choose|m: int| 0 <= m < updated_cards.len() && updated_cards[m] == nv.cards[k];
                if m != ti {
                    assert(updated_cards[m] == old_view.cards[m]);
                }
                assert(card_fits(conversation_ids(old_view.conversations), old_view.cards[m]));
            }
            assert(card_ids(old_view.cards)[ti as int] == t);
            assert(card_ids(nv.cards).contains(t));
            assert forall|k: int| 0 <= k < nv.relations.len() implies relation_fits(card_ids(nv.cards), #[trigger] nv.relations[k]) by {
                let r = nv.relations[k];
                let q = choose|q: int| 0 <= q < old_view.relations.len() && r == redirect_relation(#[trigger] old_view.relations[q], s, t);
                assert(relation_fits(card_ids(old_view.cards), old_view.relations[q]));
            }
            assert(valid_tables(nv));
        }
        *self = CardMindRepository { conversations, cards: kept_cards, relations: merged, openai_model };
        Ok(updated)
    }
}

/// The relations that touch the card with the given id, in order.
pub open spec fn relations_touching(relations: Seq<RelationView>, id: Seq<char>) -> Seq<RelationView>
    decreases relations.len(),
{
    if relations.len() == 0 {
        relations
    } else {
        let rest = relations_touching(relations.drop_last(), id);
        let r = relations.last();
        if r.source_card_id == id || r.target_card_id == id {
            rest.push(r)
        } else {
            rest
        }
    }
}

/// A relation after an edit of its type, reason and confidence; the
/// confidence is clamped to `0..=1`.
pub open spec fn edited_relation(r: RelationView, relation_type: Seq<char>, reason: Seq<char>, confidence_bits: u64) -> RelationView {
    RelationView {
        relation_type: relation_type_of(relation_type),
        reason: trim(reason),
        confidence_bits: clamped(confidence_bits),
        ..r
    }
}

impl CardMindRepository {
    /// Links two different stored cards by hand, as a row with the given id
    /// and time: the checks of `create_relation`, then refused only when a
    /// stored relation has that id.
    pub fn insert_relation(&mut self, input: CreateRelationInput, id: String, created_at: String) -> (out:
        Result<CardRelation, String>)
        ensures
            ({
                let i = input@;
                let ids = card_ids(old(self)@.cards);
                if i.source_card_id == i.target_card_id {
                    final(self)@ == old(self)@ && refused(out, "关系的来源卡片和目标卡片不能相同。"@)
                } else if !ids.contains(i.source_card_id) || !ids.contains(i.target_card_id) {
                    final(self)@ == old(self)@ && refused(out, "关系引用的卡片不存在。"@)
                } else if trim(i.reason).len() == 0 {
                    final(self)@ == old(self)@ && refused(out, "关系理由不能为空。"@)
                } else if is_nan_bits(i.confidence_bits) {
                    final(self)@ == old(self)@ && refused(out, confidence_missing_failure())
                } else if relation_ids(old(self)@.relations).contains(id@) {
                    final(self)@ == old(self)@ && refused(out, "UNIQUE constraint failed: card_relations.id"@)
                } else {
                    match out {
                        Ok(r) => {
                            &&& r@ == (RelationView {
                                id: id@,
                                source_card_id: i.source_card_id,
                                target_card_id: i.target_card_id,
                                relation_type: relation_type_of(i.relation_type),
                                reason: trim(i.reason),
                                confidence_bits: clamped(i.confidence_bits),
                                created_at: created_at@,
                            })
                            &&& final(self)@ == RepositoryView {
                                relations: old(self)@.relations.push(r@),
                                ..old(self)@
                            }
                        },
                        Err(_) => false,
                    }
                }
            }),
    {
        proof {
            use_type_invariant(&*self);
            self.lemma_ids();
        }
        if same_text(input.source_card_id.as_str(), input.target_card_id.as_str()) {
            return Err(String::from_str("关系的来源卡片和目标卡片不能相同。"));
        }
        let s = find_index(&self.cards, input.source_card_id.as_str());
        let t = find_index(&self.cards, input.target_card_id.as_str());
        match (s, t) {
            (Some(a), Some(b)) => {
                assert(card_ids(self@.cards)[a as int] == input.source_card_id@);
                assert(card_ids(self@.cards)[b as int] == input.target_card_id@);
            },
            _ => {
                return Err(String::from_str("关系引用的卡片不存在。"));
            },
        }
        let relation_type = normalize_relation_type(input.relation_type.as_str());
        let reason = chars_of(input.reason.as_str());
        let reason = trim_chars(&reason);
        if reason.len() == 0 {
            return Err(String::from_str("关系理由不能为空。"));
        }
        let confidence_bits = clamp_confidence(input.confidence_bits);
        if is_nan_confidence(confidence_bits) {
            return Err(String::from_str("NOT NULL constraint failed: card_relations.confidence"));
        }
        match find_index(&self.relations, id.as_str()) {
            Some(k) => {
                assert(relation_ids(self@.relations)[k as int] == id@);
                return Err(String::from_str("UNIQUE constraint failed: card_relations.id"));
            },
            None => {},
        }
        let relation = CardRelation {
            id,
            source_card_id: input.source_card_id,
            target_card_id: input.target_card_id,
            relation_type: String::from_str(relation_type),
            reason: string_from_chars(&reason),
            confidence_bits,
            created_at,
        };
        let ghost old_view = self@;
        let (conversations, cards, mut relations, openai_model) = self.take_tables();
        relations.push(relation.duplicate());
        proof {
            assert(relation_views(relations@) =~= old_view.relations.push(relation@));
            let nv = RepositoryView { relations: old_view.relations.push(relation@), ..old_view };
            lemma_push_fresh(Seq::<Seq<char>>::empty(), relation_ids(old_view.relations), relation@.id);
            assert(Seq::<Seq<char>>::empty() + relation_ids(old_view.relations) =~= relation_ids(old_view.relations));
            assert(relation_ids(nv.relations) =~= Seq::<Seq<char>>::empty() + relation_ids(old_view.relations).push(relation@.id));
            assert forall|k: int| 0 <= k < nv.relations.len() implies relation_fits(card_ids(nv.cards), #[trigger] nv.relations[k]) by {
                if k < old_view.relations.len() {
                    assert(nv.relations[k] == old_view.relations[k]);
                }
            }
            assert(valid_tables(nv));
        }
        *self = CardMindRepository { conversations, cards, relations, openai_model };
        Ok(relation)
    }

    /// Links two different stored cards by hand. The type is normalised; the
    /// reason is trimmed and must not be blank. The new relation gets a fresh
    /// id and the current time.
    pub fn create_relation(&mut self, input: CreateRelationInput) -> (out: Result<CardRelation, String>)
        ensures
            ({
                let i = input@;
                let ids = card_ids(old(self)@.cards);
                if i.source_card_id == i.target_card_id {
                    final(self)@ == old(self)@ && refused(out, "关系的来源卡片和目标卡片不能相同。"@)
                } else if !ids.contains(i.source_card_id) || !ids.contains(i.target_card_id) {
                    final(self)@ == old(self)@ && refused(out, "关系引用的卡片不存在。"@)
                } else if trim(i.reason).len() == 0 {
                    final(self)@ == old(self)@ && refused(out, "关系理由不能为空。"@)
                } else if is_nan_bits(i.confidence_bits) {
                    final(self)@ == old(self)@ && refused(out, confidence_missing_failure())
                } else {
                    match out {
                        Ok(r) => {
                            &&& r@.source_card_id == i.source_card_id
                            &&& r@.target_card_id == i.target_card_id
                            &&& r@.relation_type == relation_type_of(i.relation_type)
                            &&& r@.reason == trim(i.reason)
                            &&& r@.confidence_bits == clamped(i.confidence_bits)
                            &&& is_generated_id("rel"@, r@.id)
                            &&& !relation_ids(old(self)@.relations).contains(r@.id)
                            &&& final(self)@ == RepositoryView {
                                relations: old(self)@.relations.push(r@),
                                ..old(self)@
                            }
                        },
                        Err(e) => final(self)@ == old(self)@ && e@
                            == "UNIQUE constraint failed: card_relations.id"@,
                    }
                }
            }),
    {
        let id = create_id("rel");
        let created_at = now_iso();
        self.insert_relation(input, id, created_at)
    }

    /// Edits the type, reason and confidence of a relation. The type is
    /// normalised; the reason is trimmed and must not be blank.
    pub fn update_relation(&mut self, input: UpdateRelationInput) -> (out: Result<CardRelation, String>)
        ensures
            if trim(input.reason@).len() == 0 {
                final(self)@ == old(self)@ && refused(out, "关系理由不能为空。"@)
            } else {
                match find_relation(old(self)@.relations, input.id@) {
                    None => final(self)@ == old(self)@ && refused(out, "Card relation not found"@),
                    Some(r) => if is_nan_bits(input.confidence_bits) {
                        final(self)@ == old(self)@ && refused(out, confidence_missing_failure())
                    } else {
                        match out {
                            Ok(u) => u@ == edited_relation(r, input.relation_type@, input.reason@, input.confidence_bits)
                                && final(self)@ == RepositoryView {
                                relations: old(self)@.relations.update(
                                    position_of(relation_ids(old(self)@.relations), input.id@),
                                    u@,
                                ),
                                ..old(self)@
                            },
                            Err(_) => false,
                        }
                    },
                }
            },
    {
        proof {
            use_type_invariant(&*self);
            self.lemma_ids();
        }
        let relation_type = normalize_relation_type(input.relation_type.as_str());
        let reason = chars_of(input.reason.as_str());
        let reason = trim_chars(&reason);
        if reason.len() == 0 {
            return Err(String::from_str("关系理由不能为空。"));
        }
        let i = match find_index(&self.relations, input.id.as_str()) {
            Some(i) => i,
            None => {
                return Err(String::from_str("Card relation not found"));
            },
        };
        proof {
            lemma_position_of(relation_ids(self@.relations), i as int);
        }
        let confidence_bits = clamp_confidence(input.confidence_bits);
        if is_nan_confidence(confidence_bits) {
            return Err(String::from_str("NOT NULL constraint failed: card_relations.confidence"));
        }
        let existing = &self.relations[i];
        let updated = CardRelation {
            id: existing.id.clone(),
            source_card_id: existing.source_card_id.clone(),
            target_card_id: existing.target_card_id.clone(),
            relation_type: String::from_str(relation_type),
            reason: string_from_chars(&reason),
            confidence_bits,
            created_at: existing.created_at.clone(),
        };
        let ghost old_view = self@;
        let (conversations, cards, mut relations, openai_model) = self.take_tables();
        relations.set(i, updated.duplicate());
        proof {
            assert(relation_views(relations@) =~= old_view.relations.update(i as int, updated@));
            let nv = RepositoryView { relations: old_view.relations.update(i as int, updated@), ..old_view };
            assert(relation_ids(nv.relations) =~= relation_ids(old_view.relations));
            assert forall|k: int| 0 <= k < nv.relations.len() implies relation_fits(card_ids(nv.cards), #[trigger] nv.relations[k]) by {
                assert(relation_fits(card_ids(old_view.cards), old_view.relations[k]));
            }
            assert(valid_tables(nv));
        }
        *self = CardMindRepository { conversations, cards, relations, openai_model };
        Ok(updated)
    }

    /// Deletes a relation.
    pub fn delete_relation(&mut self, id: &str) -> (out: Result<(), String>)
        ensures
            if relation_ids(old(self)@.relations).contains(id@) {
                out is Ok && final(self)@ == RepositoryView {
                    relations: old(self)@.relations.remove(
                        position_of(relation_ids(old(self)@.relations), id@),
                    ),
                    ..old(self)@
                }
            } else {
                final(self)@ == old(self)@ && refused(out, "Card relation not found"@)
            },
    {
        proof {
            use_type_invariant(&*self);
            self.lemma_ids();
        }
        let i = match find_index(&self.relations, id) {
            Some(i) => i,
            None => {
                return Err(String::from_str("Card relation not found"));
            },
        };
        proof {
            lemma_position_of(relation_ids(self@.relations), i as int);
        }
        let ghost old_view = self@;
        let (conversations, cards, mut relations, openai_model) = self.take_tables();
        relations.remove(i);
        proof {
            let ov = old_view.relations;
            assert(relation_views(relations@) =~= ov.remove(i as int));
            let nv = RepositoryView { relations: ov.remove(i as int), ..old_view };
            let ids = relation_ids(nv.relations);
            assert forall|a: int, b: int| 0 <= a < ids.len() && 0 <= b < ids.len() && a != b implies ids[a] != ids[b] by {
                let a2 = if a < i { a } else { a + 1 };
                let b2 = if b < i { b } else { b + 1 };
                assert(ids[a] == relation_ids(ov)[a2]);
                assert(ids[b] == relation_ids(ov)[b2]);
            }
            assert forall|k: int| 0 <= k < nv.relations.len() implies relation_fits(card_ids(nv.cards), #[trigger] nv.relations[k]) by {
                let k2 = if k < i { k } else { k + 1 };
                assert(nv.relations[k] == ov[k2]);
            }
            assert(valid_tables(nv));
        }
        *self = CardMindRepository { conversations, cards, relations, openai_model };
        Ok(())
    }

    /// The relations that touch a card: the list of all relations, newest
    /// first, kept where the card is at one end.
    pub fn get_card_relations(&self, card_id: &str) -> (out: Vec<CardRelation>)
        ensures
            relation_views(out@) == relations_touching(newest_relations(self@.relations), card_id@),
    {
        let all = self.list_relations();
        let ghost rv = relation_views(all@);
        let mut touching: Vec<CardRelation> = Vec::new();
        let mut i: usize = 0;
        assert(rv.take(0) =~= Seq::<RelationView>::empty());
        while i < all.len()
            invariant
                i <= all.len(),
                rv == relation_views(all@),
                relation_views(touching@) == relations_touching(rv.take(i as int), card_id@),
            decreases all.len() - i,
        {
            assert(rv.take(i + 1).drop_last() == rv.take(i as int));
            assert(rv.take(i + 1).last() == all@[i as int]@);
            let r = &all[i];
            let ghost before = relation_views(touching@);
            if same_text(r.source_card_id.as_str(), card_id) || same_text(r.target_card_id.as_str(), card_id) {
                touching.push(r.duplicate());
                assert(relation_views(touching@) =~= before.push(all@[i as int]@));
            }
            i += 1;
        }
        assert(rv.take(all.len() as int) == rv);
        touching
    }
}

/// The model in use: the chosen one or the default.
pub open spec fn model_of(v: RepositoryView) -> Seq<char> {
    match v.openai_model {
        Some(m) => m,
        None => default_model(),
    }
}

/// Where the API key comes from, given what the environment variable and
/// the credential store hold.
pub open spec fn key_source_of(env_key: Option<Seq<char>>, stored_key: Option<Seq<char>>) -> Option<Seq<char>> {
    if usable_key(env_key) is Some {
        Some("环境变量 OPENAI_API_KEY"@)
    } else if stored_key is Some {
        Some("Windows Credential Manager"@)
    } else {
        None
    }
}

pub struct StatusView {
    pub has_api_key: bool,
    pub key_source: Option<Seq<char>>,
    pub model: Seq<char>,
}

impl View for OpenAiStatus {
    type V = StatusView;

    open spec fn view(&self) -> StatusView {
        StatusView { has_api_key: self.has_api_key, key_source: opt_view(self.key_source), model: self.model@ }
    }
}

/// The OpenAI status for the given key sources.
pub open spec fn status_of(v: RepositoryView, env_key: Option<Seq<char>>, stored_key: Option<Seq<char>>) -> StatusView {
    StatusView {
        has_api_key: key_source_of(env_key, stored_key) is Some,
        key_source: key_source_of(env_key, stored_key),
        model: model_of(v),
    }
}

/// The sample conversation as imported with the given id and time.
pub open spec fn sample_conversation_row(id: Seq<char>, timestamp: Seq<char>) -> ConversationView {
    ConversationView {
        id,
        title: conversation_title(Some(sample_title()), sample_content()),
        raw_content: sample_content(),
        source_type: "sample"@,
        created_at: timestamp,
        updated_at: timestamp,
    }
}

/// The sample conversation as imported.
pub open spec fn is_sample_conversation(c: ConversationView) -> bool {
    &&& c.title == conversation_title(Some(sample_title()), sample_content())
    &&& c.raw_content == sample_content()
    &&& c.source_type == "sample"@
    &&& is_generated_id("conv"@, c.id)
    &&& c.created_at == c.updated_at
}

pub open spec fn node_of(c: CardView) -> GraphNodeView {
    GraphNodeView {
        id: c.id,
        label: c.title,
        card_type: c.card_type,
        summary: c.summary,
        tags: c.tags,
        mastery_status: c.mastery_status,
        source_conversation_id: c.source_conversation_id,
    }
}

pub open spec fn edge_of(r: RelationView) -> GraphEdgeView {
    GraphEdgeView {
        id: r.id,
        source: r.source_card_id,
        target: r.target_card_id,
        label: r.relation_type,
        reason: r.reason,
        confidence_bits: r.confidence_bits,
    }
}

pub open spec fn node_views(s: Seq<GraphNode>) -> Seq<GraphNodeView> {
    s.map_values(|n: GraphNode| n@)
}

pub open spec fn edge_views(s: Seq<GraphEdge>) -> Seq<GraphEdgeView> {
    s.map_values(|e: GraphEdge| e@)
}

impl CardMindRepository {
    /// The model in use.
    pub fn openai_model(&self) -> (out: String)
        ensures
            out@ == model_of(self@),
    {
        match &self.openai_model {
            Some(m) => m.clone(),
            None => default_openai_model(),
        }
    }

    /// Whether an API key is configured, where it comes from, and the model,
    /// given what the environment variable `OPENAI_API_KEY` and the
    /// credential store hold.
    pub fn openai_status(&self, env_key: Option<String>, stored_key: Option<String>) -> (out: OpenAiStatus)
        ensures
            out@ == status_of(self@, opt_view(env_key), opt_view(stored_key)),
    {
        let has_env = filter_key(env_key).is_some();
        let (has_api_key, key_source) = if has_env {
            (true, Some(String::from_str("环境变量 OPENAI_API_KEY")))
        } else if stored_key.is_some() {
            (true, Some(String::from_str("Windows Credential Manager")))
        } else {
            (false, None)
        };
        OpenAiStatus { has_api_key, key_source, model: self.openai_model() }
    }

    /// Chooses the model; a blank name is refused. The status is reported
    /// for the given key sources.
    pub fn set_openai_model(&mut self, model: &str, env_key: Option<String>, stored_key: Option<String>) -> (out: Result<OpenAiStatus, String>)
        ensures
            if trim(model@).len() == 0 {
                final(self)@ == old(self)@ && refused(out, "OpenAI 模型不能为空。"@)
            } else {
                &&& final(self)@ == RepositoryView { openai_model: Some(trim(model@)), ..old(self)@ }
                &&& match out {
                    Ok(s) => s@ == status_of(final(self)@, opt_view(env_key), opt_view(stored_key)),
                    Err(_) => false,
                }
            },
    {
        proof {
            use_type_invariant(&*self);
        }
        let chars = chars_of(model);
        let trimmed = trim_chars(&chars);
        if trimmed.len() == 0 {
            return Err(String::from_str("OpenAI 模型不能为空。"));
        }
        self.openai_model = Some(string_from_chars(&trimmed));
        Ok(self.openai_status(env_key, stored_key))
    }

    /// Starts the preview of an extraction for a stored conversation; nothing
    /// is saved.
    pub fn preview_extraction(&self, id: &str, api_key: Option<String>) -> (out: Result<PreviewStep, String>)
        ensures
            match find_conversation(self@.conversations, id@) {
                None => refused(out, "Conversation not found"@),
                Some(c) => match out {
                    Ok(step) => preview_started(step, c.raw_content, opt_view(api_key), model_of(self@)),
                    Err(_) => false,
                },
            },
    {
        let conversation = match self.get_conversation(id) {
            Some(c) => c,
            None => {
                return Err(String::from_str("Conversation not found"));
            },
        };
        let model = self.openai_model();
        Ok(extract_with_openai_or_mock(conversation.raw_content.as_str(), api_key, model.as_str()))
    }

    /// Writes the sample data into a repository without conversations and
    /// cards, with the given ids and times: one conversation and the
    /// extraction of five cards and three relations from it.
    pub fn seed_sample_data_with(&mut self, conversation_id: String, timestamp: String, drawn: &DrawnRows) -> (out:
        Result<PersistedExtraction, String>)
        requires
            drawn.card_ids.len() == 5,
            drawn.card_stamps.len() == 5,
            drawn.relation_ids.len() == 3,
            drawn.relation_stamps.len() == 3,
        ensures
            if old(self)@.conversations.len() > 0 || old(self)@.cards.len() > 0 {
                final(self)@ == old(self)@ && refused(out, "已有数据时不会自动写入示例数据。"@)
            } else {
                persist_with_outcome(
                    RepositoryView {
                        conversations: seq![sample_conversation_row(conversation_id@, timestamp@)],
                        ..old(self)@
                    },
                    final(self)@,
                    conversation_id@,
                    sample_card_table(),
                    sample_relation_table(),
                    drawn@,
                    out,
                )
            },
    {
        proof {
            self.lemma_ids();
        }
        if self.conversations.len() > 0 || self.cards.len() > 0 {
            return Err(String::from_str("已有数据时不会自动写入示例数据。"));
        }
        let input = sample_conversation_input();
        let conversation = match self.insert_conversation(input, conversation_id, timestamp) {
            Ok(c) => c,
            Err(e) => {
                return Err(e);
            },
        };
        let ghost mid = self@;
        proof {
            assert(mid.conversations =~= seq![conversation@]);
            assert(conversation_ids(mid.conversations)[0] == conversation@.id);
        }
        let cards = sample_cards();
        let relations = sample_relations();
        assert(card_draft_views(cards@).len() == cards.len());
        assert(relation_draft_views(relations@).len() == relations.len());
        self.persist_extraction_with(conversation.id.as_str(), &cards, &relations, drawn)
    }

    /// Writes the sample data into a repository without conversations and
    /// cards: one conversation and the extraction of five cards and three
    /// relations from it, with fresh ids and the current time.
    pub fn seed_sample_data(&mut self) -> (out: Result<PersistedExtraction, String>)
        ensures
            if old(self)@.conversations.len() > 0 || old(self)@.cards.len() > 0 {
                final(self)@ == old(self)@ && refused(out, "已有数据时不会自动写入示例数据。"@)
            } else {
                &&& final(self)@.conversations.len() == 1
                &&& is_sample_conversation(final(self)@.conversations[0])
                &&& match out {
                    Ok(p) => extraction_saved(
                        RepositoryView { conversations: final(self)@.conversations, ..old(self)@ },
                        final(self)@,
                        final(self)@.conversations[0].id,
                        sample_card_table(),
                        sample_relation_table(),
                        card_views(p.cards@),
                        relation_views(p.relations@),
                    ),
                    Err(e) => {
                        &&& final(self)@.cards == old(self)@.cards
                        &&& final(self)@.relations == old(self)@.relations
                        &&& final(self)@.openai_model == old(self)@.openai_model
                        &&& (e@ == "UNIQUE constraint failed: knowledge_cards.id"@ || e@
                            == "UNIQUE constraint failed: card_relations.id"@)
                    },
                }
            },
    {
        proof {
            use_type_invariant(&*self);
            self.lemma_ids();
        }
        if self.conversations.len() > 0 || self.cards.len() > 0 {
            return Err(String::from_str("已有数据时不会自动写入示例数据。"));
        }
        let timestamp = now_iso();
        let conversation_id = create_id("conv");
        let drawn = draw_rows(5, 3);
        let ghost old_view = self@;
        let ghost cid = conversation_id@;
        let ghost mid = RepositoryView {
            conversations: seq![sample_conversation_row(conversation_id@, timestamp@)],
            ..old_view
        };
        let out = self.seed_sample_data_with(conversation_id, timestamp, &drawn);
        proof {
            assert(valid_tables(mid)) by {
                assert(conversation_ids(mid.conversations) =~= seq![cid]);
            }
            reveal_with_fuel(first_row_problem, 4);
            assert(first_row_problem(sample_card_table(), sample_relation_table()) is None);
            lemma_drawn_outcome(mid, self@, cid, sample_card_table(), sample_relation_table(), drawn@, out);
        }
        out
    }

    /// All cards as nodes and all relations as edges, newest first.
    pub fn get_graph(&self) -> (out: KnowledgeGraph)
        ensures
            node_views(out.nodes@) == newest_cards(self@.cards).map_values(|c: CardView| node_of(c)),
            edge_views(out.edges@) == newest_relations(self@.relations).map_values(|r: RelationView| edge_of(r)),
    {
        let cards = self.list_cards();
        let relations = self.list_relations();
        let ghost cv = card_views(cards@);
        let ghost rv = relation_views(relations@);
        let mut nodes: Vec<GraphNode> = Vec::new();
        let mut i: usize = 0;
        while i < cards.len()
            invariant
                i <= cards.len(),
                cv == card_views(cards@),
                node_views(nodes@) =~= cv.take(i as int).map_values(|c: CardView| node_of(c)),
            decreases cards.len() - i,
        {
            let c = &cards[i];
            let node = GraphNode {
                id: c.id.clone(),
                label: c.title.clone(),
                card_type: c.card_type.clone(),
                summary: c.summary.clone(),
                tags: copy_strings(&c.tags),
                mastery_status: c.mastery_status.clone(),
                source_conversation_id: c.source_conversation_id.clone(),
            };
            let ghost before = node_views(nodes@);
            nodes.push(node);
            assert(node_views(nodes@) =~= before.push(node_of(cv[i as int])));
            assert(cv.take(i + 1).map_values(|c: CardView| node_of(c)) =~= cv.take(i as int).map_values(|c: CardView| node_of(c)).push(node_of(cv[i as int])));
            i += 1;
        }
        assert(cv.take(cards.len() as int) == cv);
        let mut edges: Vec<GraphEdge> = Vec::new();
        let mut j: usize = 0;
        while j < relations.len()
            invariant
                j <= relations.len(),
                rv == relation_views(relations@),
                edge_views(edges@) =~= rv.take(j as int).map_values(|r: RelationView| edge_of(r)),
            decreases relations.len() - j,
        {
            let r = &relations[j];
            let edge = GraphEdge {
                id: r.id.clone(),
                source: r.source_card_id.clone(),
                target: r.target_card_id.clone(),
                label: r.relation_type.clone(),
                reason: r.reason.clone(),
                confidence_bits: r.confidence_bits,
            };
            let ghost before = edge_views(edges@);
            edges.push(edge);
            assert(edge_views(edges@) =~= before.push(edge_of(rv[j as int])));
            assert(rv.take(j + 1).map_values(|r: RelationView| edge_of(r)) =~= rv.take(j as int).map_values(|r: RelationView| edge_of(r)).push(edge_of(rv[j as int])));
            j += 1;
        }
        assert(rv.take(relations.len() as int) == rv);
        KnowledgeGraph { nodes, edges }
    }
}

} // verus!
