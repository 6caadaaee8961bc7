//! The records of CardMind (conversations, knowledge cards, relations,
//! extraction drafts and the values handed to and from the user interface),
//! each with its view over `Seq<char>`.
//!
//! A confidence is a number in `0.0..=1.0`; it is carried as the bit pattern
//! of the IEEE-754 binary64 value (`f64::to_bits`), which the library checks
//! and clamps on the pattern (see `confidence`) but never computes with.

use vstd::prelude::*;
use crate::text::string_seqs;

verus! {

pub open spec fn opt_view(o: Option<String>) -> Option<Seq<char>> {
    match o {
        Some(s) => Some(s@),
        None => None,
    }
}

/// A copy of a list of strings.
pub fn copy_strings(v: &Vec<String>) -> (out: Vec<String>)
    ensures
        out@ == v@,
        string_seqs(out@) == string_seqs(v@),
{
    let out = v.clone();
    assert(out@ =~= v@);
    out
}

/// A copy of an optional string.
pub fn copy_opt(o: &Option<String>) -> (out: Option<String>)
    ensures
        opt_view(out) == opt_view(*o),
{
    match o {
        Some(s) => Some(s.clone()),
        None => None,
    }
}

/// Input for importing a conversation.
pub struct CreateConversationInput {
    pub title: Option<String>,
    pub raw_content: String,
    pub source_type: Option<String>,
}

/// An imported AI conversation: the source material of cards.
pub struct Conversation {
    pub id: String,
    pub title: String,
    pub raw_content: String,
    pub source_type: String,
    pub created_at: String,
    pub updated_at: String,
}

pub struct ConversationView {
    pub id: Seq<char>,
    pub title: Seq<char>,
    pub raw_content: Seq<char>,
    pub source_type: Seq<char>,
    pub created_at: Seq<char>,
    pub updated_at: Seq<char>,
}

impl View for Conversation {
    type V = ConversationView;

    open spec fn view(&self) -> ConversationView {
        ConversationView {
            id: self.id@,
            title: self.title@,
            raw_content: self.raw_content@,
            source_type: self.source_type@,
            created_at: self.created_at@,
            updated_at: self.updated_at@,
        }
    }
}

impl Conversation {
    pub fn duplicate(&self) -> (out: Conversation)
        ensures
            out@ == self@,
    {
        Conversation {
            id: self.id.clone(),
            title: self.title.clone(),
            raw_content: self.raw_content.clone(),
            source_type: self.source_type.clone(),
            created_at: self.created_at.clone(),
            updated_at: self.updated_at.clone(),
        }
    }
}

/// The smallest reusable unit of knowledge.
pub struct KnowledgeCard {
    pub id: String,
    pub title: String,
    pub summary: String,
    pub content: String,
    pub card_type: String,
    pub tags: Vec<String>,
    pub mastery_status: String,
    pub source_conversation_id: String,
    pub created_at: String,
    pub updated_at: String,
}

pub struct CardView {
    pub id: Seq<char>,
    pub title: Seq<char>,
    pub summary: Seq<char>,
    pub content: Seq<char>,
    pub card_type: Seq<char>,
    pub tags: Seq<Seq<char>>,
    pub mastery_status: Seq<char>,
    pub source_conversation_id: Seq<char>,
    pub created_at: Seq<char>,
    pub updated_at: Seq<char>,
}

impl View for KnowledgeCard {
    type V = CardView;

    open spec fn view(&self) -> CardView {
        CardView {
            id: self.id@,
            title: self.title@,
            summary: self.summary@,
            content: self.content@,
            card_type: self.card_type@,
            tags: string_seqs(self.tags@),
            mastery_status: self.mastery_status@,
            source_conversation_id: self.source_conversation_id@,
            created_at: self.created_at@,
            updated_at: self.updated_at@,
        }
    }
}

impl KnowledgeCard {
    pub fn duplicate(&self) -> (out: KnowledgeCard)
        ensures
            out@ == self@,
    {
        KnowledgeCard {
            id: self.id.clone(),
            title: self.title.clone(),
            summary: self.summary.clone(),
            content: self.content.clone(),
            card_type: self.card_type.clone(),
            tags: copy_strings(&self.tags),
            mastery_status: self.mastery_status.clone(),
            source_conversation_id: self.source_conversation_id.clone(),
            created_at: self.created_at.clone(),
            updated_at: self.updated_at.clone(),
        }
    }
}

/// A directed, typed link between two cards, with the reason for it.
pub struct CardRelation {
    pub id: String,
    pub source_card_id: String,
    pub target_card_id: String,
    pub relation_type: String,
    pub reason: String,
    /// The confidence, as `f64` bits.
    pub confidence_bits: u64,
    pub created_at: String,
}

pub struct RelationView {
    pub id: Seq<char>,
    pub source_card_id: Seq<char>,
    pub target_card_id: Seq<char>,
    pub relation_type: Seq<char>,
    pub reason: Seq<char>,
    pub confidence_bits: u64,
    pub created_at: Seq<char>,
}

impl View for CardRelation {
    type V = RelationView;

    open spec fn view(&self) -> RelationView {
        RelationView {
            id: self.id@,
            source_card_id: self.source_card_id@,
            target_card_id: self.target_card_id@,
            relation_type: self.relation_type@,
            reason: self.reason@,
            confidence_bits: self.confidence_bits,
            created_at: self.created_at@,
        }
    }
}

impl CardRelation {
    pub fn duplicate(&self) -> (out: CardRelation)
        ensures
            out@ == self@,
    {
        CardRelation {
            id: self.id.clone(),
            source_card_id: self.source_card_id.clone(),
            target_card_id: self.target_card_id.clone(),
            relation_type: self.relation_type.clone(),
            reason: self.reason.clone(),
            confidence_bits: self.confidence_bits,
            created_at: self.created_at.clone(),
        }
    }
}

/// A card proposed by an extractor, before it is saved.
pub struct ExtractedCardDraft {
    pub title: String,
    pub summary: String,
    pub content: String,
    pub card_type: String,
    pub tags: Vec<String>,
}

pub struct CardDraftView {
    pub title: Seq<char>,
    pub summary: Seq<char>,
    pub content: Seq<char>,
    pub card_type: Seq<char>,
    pub tags: Seq<Seq<char>>,
}

impl View for ExtractedCardDraft {
    type V = CardDraftView;

    open spec fn view(&self) -> CardDraftView {
        CardDraftView {
            title: self.title@,
            summary: self.summary@,
            content: self.content@,
            card_type: self.card_type@,
            tags: string_seqs(self.tags@),
        }
    }
}

impl ExtractedCardDraft {
    pub fn duplicate(&self) -> (out: ExtractedCardDraft)
        ensures
            out@ == self@,
    {
        ExtractedCardDraft {
            title: self.title.clone(),
            summary: self.summary.clone(),
            content: self.content.clone(),
            card_type: self.card_type.clone(),
            tags: copy_strings(&self.tags),
        }
    }
}

/// A relation proposed by an extractor; its ends are named by card titles.
pub struct ExtractedRelationDraft {
    pub source_title: String,
    pub target_title: String,
    pub relation_type: String,
    pub reason: String,
    /// The confidence, as `f64` bits.
    pub confidence_bits: u64,
}

pub struct RelationDraftView {
    pub source_title: Seq<char>,
    pub target_title: Seq<char>,
    pub relation_type: Seq<char>,
    pub reason: Seq<char>,
    pub confidence_bits: u64,
}

impl View for ExtractedRelationDraft {
    type V = RelationDraftView;

    open spec fn view(&self) -> RelationDraftView {
        RelationDraftView {
            source_title: self.source_title@,
            target_title: self.target_title@,
            relation_type: self.relation_type@,
            reason: self.reason@,
            confidence_bits: self.confidence_bits,
        }
    }
}

impl ExtractedRelationDraft {
    pub fn duplicate(&self) -> (out: ExtractedRelationDraft)
        ensures
            out@ == self@,
    {
        ExtractedRelationDraft {
            source_title: self.source_title.clone(),
            target_title: self.target_title.clone(),
            relation_type: self.relation_type.clone(),
            reason: self.reason.clone(),
            confidence_bits: self.confidence_bits,
        }
    }
}

pub open spec fn conversation_views(s: Seq<Conversation>) -> Seq<ConversationView> {
    s.map_values(|c: Conversation| c@)
}

pub open spec fn card_views(s: Seq<KnowledgeCard>) -> Seq<CardView> {
    s.map_values(|c: KnowledgeCard| c@)
}

pub open spec fn relation_views(s: Seq<CardRelation>) -> Seq<RelationView> {
    s.map_values(|r: CardRelation| r@)
}

pub open spec fn card_draft_views(s: Seq<ExtractedCardDraft>) -> Seq<CardDraftView> {
    s.map_values(|c: ExtractedCardDraft| c@)
}

pub open spec fn relation_draft_views(s: Seq<ExtractedRelationDraft>) -> Seq<RelationDraftView> {
    s.map_values(|r: ExtractedRelationDraft| r@)
}

/// What an extractor proposes: cards and the relations between them.
pub struct ExtractionResult {
    pub cards: Vec<ExtractedCardDraft>,
    pub relations: Vec<ExtractedRelationDraft>,
}

pub struct ExtractionView {
    pub cards: Seq<CardDraftView>,
    pub relations: Seq<RelationDraftView>,
}

impl View for ExtractionResult {
    type V = ExtractionView;

    open spec fn view(&self) -> ExtractionView {
        ExtractionView {
            cards: card_draft_views(self.cards@),
            relations: relation_draft_views(self.relations@),
        }
    }
}

/// The cards and relations that an extraction saved.
pub struct PersistedExtraction {
    pub cards: Vec<KnowledgeCard>,
    pub relations: Vec<CardRelation>,
}

/// An extraction shown to the user before anything is saved.
pub struct ExtractionPreview {
    pub cards: Vec<ExtractedCardDraft>,
    pub relations: Vec<ExtractedRelationDraft>,
    /// `"openai"` or `"mock"`.
    pub provider: String,
    pub warning: Option<String>,
}

/// The drafts that the user confirmed for a conversation.
pub struct ConfirmExtractionInput {
    pub conversation_id: String,
    pub cards: Vec<ExtractedCardDraft>,
    pub relations: Vec<ExtractedRelationDraft>,
}

/// Whether an OpenAI API key is configured, where it comes from, and the model.
pub struct OpenAiStatus {
    pub has_api_key: bool,
    pub key_source: Option<String>,
    pub model: String,
}

pub struct SaveOpenAiApiKeyInput {
    pub api_key: String,
}

pub struct SetOpenAiModelInput {
    pub model: String,
}

/// A keyword search over cards with optional filters.
pub struct SearchCardsInput {
    pub query: String,
    pub tag: Option<String>,
    pub card_type: Option<String>,
    pub mastery_status: Option<String>,
}

/// The edited fields of a card.
pub struct UpdateCardInput {
    pub id: String,
    pub title: String,
    pub summary: String,
    pub content: String,
    pub card_type: String,
    pub tags: Vec<String>,
    pub mastery_status: String,
}

pub struct CardEditView {
    pub id: Seq<char>,
    pub title: Seq<char>,
    pub summary: Seq<char>,
    pub content: Seq<char>,
    pub card_type: Seq<char>,
    pub tags: Seq<Seq<char>>,
    pub mastery_status: Seq<char>,
}

impl View for UpdateCardInput {
    type V = CardEditView;

    open spec fn view(&self) -> CardEditView {
        CardEditView {
            id: self.id@,
            title: self.title@,
            summary: self.summary@,
            content: self.content@,
            card_type: self.card_type@,
            tags: string_seqs(self.tags@),
            mastery_status: self.mastery_status@,
        }
    }
}

/// The cards found by a search and the engine that found them.
pub struct SearchCardsResult {
    pub cards: Vec<KnowledgeCard>,
    pub engine: String,
}

/// A card as a node of the knowledge graph.
pub struct GraphNode {
    pub id: String,
    pub label: String,
    pub card_type: String,
    pub summary: String,
    pub tags: Vec<String>,
    pub mastery_status: String,
    pub source_conversation_id: String,
}

pub struct GraphNodeView {
    pub id: Seq<char>,
    pub label: Seq<char>,
    pub card_type: Seq<char>,
    pub summary: Seq<char>,
    pub tags: Seq<Seq<char>>,
    pub mastery_status: Seq<char>,
    pub source_conversation_id: Seq<char>,
}

impl View for GraphNode {
    type V = GraphNodeView;

    open spec fn view(&self) -> GraphNodeView {
        GraphNodeView {
            id: self.id@,
            label: self.label@,
            card_type: self.card_type@,
            summary: self.summary@,
            tags: string_seqs(self.tags@),
            mastery_status: self.mastery_status@,
            source_conversation_id: self.source_conversation_id@,
        }
    }
}

/// A relation as an edge of the knowledge graph.
pub struct GraphEdge {
    pub id: String,
    pub source: String,
    pub target: String,
    pub label: String,
    pub reason: String,
    /// The confidence, as `f64` bits.
    pub confidence_bits: u64,
}

pub struct GraphEdgeView {
    pub id: Seq<char>,
    pub source: Seq<char>,
    pub target: Seq<char>,
    pub label: Seq<char>,
    pub reason: Seq<char>,
    pub confidence_bits: u64,
}

impl View for GraphEdge {
    type V = GraphEdgeView;

    open spec fn view(&self) -> GraphEdgeView {
        GraphEdgeView {
            id: self.id@,
            source: self.source@,
            target: self.target@,
            label: self.label@,
            reason: self.reason@,
            confidence_bits: self.confidence_bits,
        }
    }
}

/// All cards as nodes and all relations as edges.
pub struct KnowledgeGraph {
    pub nodes: Vec<GraphNode>,
    pub edges: Vec<GraphEdge>,
}

/// Input for linking two cards by hand.
pub struct CreateRelationInput {
    pub source_card_id: String,
    pub target_card_id: String,
    pub relation_type: String,
    pub reason: String,
    /// The confidence, as `f64` bits; it is clamped to `0.0..=1.0`.
    pub confidence_bits: u64,
}

pub struct RelationInputView {
    pub source_card_id: Seq<char>,
    pub target_card_id: Seq<char>,
    pub relation_type: Seq<char>,
    pub reason: Seq<char>,
    pub confidence_bits: u64,
}

impl View for CreateRelationInput {
    type V = RelationInputView;

    open spec fn view(&self) -> RelationInputView {
        RelationInputView {
            source_card_id: self.source_card_id@,
            target_card_id: self.target_card_id@,
            relation_type: self.relation_type@,
            reason: self.reason@,
            confidence_bits: self.confidence_bits,
        }
    }
}

/// Input for editing a relation.
pub struct UpdateRelationInput {
    pub id: String,
    pub relation_type: String,
    pub reason: String,
    /// The confidence, as `f64` bits; it is clamped to `0.0..=1.0`.
    pub confidence_bits: u64,
}

/// Input for merging a duplicate card into another one.
pub struct MergeCardsInput {
    pub source_card_id: String,
    pub target_card_id: String,
}

/// A Markdown document to be written to a file.
pub struct MarkdownFile {
    pub filename: String,
    pub content: String,
}

} // verus!
