//! The local extractor: known concepts are recognised by keyword; when none
//! is found, the longer sentences of the conversation become note cards.
//! Consecutive cards are linked by mock relations.

use vstd::prelude::*;
use crate::models::{
    card_draft_views, copy_strings, relation_draft_views, CardDraftView, ExtractedCardDraft,
    ExtractedRelationDraft, ExtractionResult, ExtractionView, RelationDraftView,
};
use crate::text::{
    append_chars, append_str, char_seqs, chars_of, contains, contains_chars, decimal,
    decimal_chars, join, join_chars, lowercase, lowercased, same_text, split, split_chars,
    string_from_chars, string_seqs, sub_chars, take_chars, take_prefix, trim, trim_chars, words,
    words_of, Separator,
};

verus! {

/// The confidence of a mock relation: `0.72_f64.to_bits()`.
pub const MOCK_CONFIDENCE_BITS: u64 = 0x3FE7_0A3D_70A3_D70A;

/// A known concept: the keywords that reveal it and the card it yields.
pub struct ConceptRule {
    pub title: String,
    pub keywords: Vec<String>,
    pub summary: String,
    pub content: String,
    pub card_type: String,
    pub tags: Vec<String>,
}

pub struct RuleView {
    pub title: Seq<char>,
    pub keywords: Seq<Seq<char>>,
    pub summary: Seq<char>,
    pub content: Seq<char>,
    pub card_type: Seq<char>,
    pub tags: Seq<Seq<char>>,
}

impl View for ConceptRule {
    type V = RuleView;

    open spec fn view(&self) -> RuleView {
        RuleView {
            title: self.title@,
            keywords: string_seqs(self.keywords@),
            summary: self.summary@,
            content: self.content@,
            card_type: self.card_type@,
            tags: string_seqs(self.tags@),
        }
    }
}

pub open spec fn rule_views(s: Seq<ConceptRule>) -> Seq<RuleView> {
    s.map_values(|r: ConceptRule| r@)
}

/// The known concepts, in the order their cards are listed.
pub open spec fn concept_rule_table() -> Seq<RuleView> {
    seq![
        RuleView {
            title: "产品化"@,
            keywords: seq!["产品化"@, "product"@],
            summary: "产品化是把技术能力变成可交付、可维护、可迭代的产品。"@,
            content: "产品化不是简单写代码，而是把技术能力包装成用户可以使用、持续维护、持续迭代的产品能力。"@,
            card_type: "concept"@,
            tags: seq!["产品"@, "工程"@, "交付"@],
        },
        RuleView {
            title: "本地优先"@,
            keywords: seq!["本地优先"@, "local-first"@, "local first"@],
            summary: "本地优先是指数据主要保存在用户本地，优先保证数据归用户所有。"@,
            content: "本地优先适合个人知识系统，因为用户的学习记录、对话内容和知识卡片都具有长期价值和隐私属性。"@,
            card_type: "concept"@,
            tags: seq!["数据存储"@, "隐私"@, "本地化"@],
        },
        RuleView {
            title: "知识卡片"@,
            keywords: seq!["知识卡片"@, "knowledge card"@, "cards"@],
            summary: "知识卡片是从对话中抽取出的最小知识单位。"@,
            content: "知识卡片把一段对话中的有效知识点结构化保存，便于复习、搜索、连接和后续导出。"@,
            card_type: "concept"@,
            tags: seq!["知识管理"@, "学习"@, "结构化"@],
        },
        RuleView {
            title: "知识图谱"@,
            keywords: seq!["知识图谱"@, "knowledge graph"@, "graph"@],
            summary: "知识图谱用节点和边表达知识点之间的关系。"@,
            content: "在 CardMind 中，节点来自 KnowledgeCard，边来自 CardRelation，用户可以通过图谱看到知识之间的前置、包含、对比、相关和应用关系。"@,
            card_type: "concept"@,
            tags: seq!["图谱"@, "关系"@, "可视化"@],
        },
        RuleView {
            title: "SQLite"@,
            keywords: seq!["sqlite"@, "数据库"@, "structured"@],
            summary: "SQLite 是适合本地优先产品的轻量结构化数据库。"@,
            content: "SQLite 让 CardMind 在不依赖云端服务的情况下保存对话、卡片和关系，同时为全文搜索、同步、备份和数据迁移留下空间。"@,
            card_type: "technology"@,
            tags: seq!["数据库"@, "本地存储"@, "架构"@],
        },
    ]
}

/// The card that a known concept yields.
pub open spec fn card_of_rule(rule: RuleView) -> CardDraftView {
    CardDraftView {
        title: rule.title,
        summary: rule.summary,
        content: rule.content,
        card_type: rule.card_type,
        tags: rule.tags,
    }
}

/// Some keyword of the rule, lower-cased, occurs in the lower-cased text.
pub open spec fn rule_matches(text_lower: Seq<char>, rule: RuleView) -> bool {
    exists|k: int| 0 <= k < rule.keywords.len() && contains(text_lower, lowercased(#[trigger] rule.keywords[k]))
}

/// The cards of the rules that match, in rule order.
pub open spec fn matched_cards(text_lower: Seq<char>, rules: Seq<RuleView>) -> Seq<CardDraftView>
    decreases rules.len(),
{
    if rules.len() == 0 {
        Seq::empty()
    } else {
        let rest = matched_cards(text_lower, rules.drop_last());
        if rule_matches(text_lower, rules.last()) {
            rest.push(card_of_rule(rules.last()))
        } else {
            rest
        }
    }
}

/// The pieces of at least twelve characters, in order.
pub open spec fn long_pieces(pieces: Seq<Seq<char>>) -> Seq<Seq<char>>
    decreases pieces.len(),
{
    if pieces.len() == 0 {
        pieces
    } else {
        let rest = long_pieces(pieces.drop_last());
        if pieces.last().len() >= 12 {
            rest.push(pieces.last())
        } else {
            rest
        }
    }
}

pub open spec fn first_three(s: Seq<Seq<char>>) -> Seq<Seq<char>> {
    if s.len() <= 3 {
        s
    } else {
        s.take(3)
    }
}

pub open spec fn trimmed_all(pieces: Seq<Seq<char>>) -> Seq<Seq<char>> {
    pieces.map_values(|p: Seq<char>| trim(p))
}

/// The sentences that fallback cards are made of: the first three trimmed
/// sentences of at least twelve characters.
pub open spec fn fallback_sentences(text: Seq<char>) -> Seq<Seq<char>> {
    first_three(long_pieces(trimmed_all(split(text, Separator::SentenceEnd))))
}

/// `truncate`: texts longer than `limit` keep `limit - 3` characters and end in `...`.
pub open spec fn truncated(s: Seq<char>, limit: nat) -> Seq<char> {
    if s.len() > limit {
        s.subrange(0, limit - 3) + "..."@
    } else {
        s
    }
}

/// The title of the fallback card of a sentence at position `index`.
pub open spec fn fallback_title(sentence: Seq<char>, index: nat) -> Seq<char> {
    let compact = join(words(sentence), " "@);
    if compact.len() > 28 {
        compact.subrange(0, 28) + "..."@
    } else {
        "Conversation Insight "@ + decimal(index + 1)
    }
}

pub open spec fn sentence_card(sentence: Seq<char>, index: nat) -> CardDraftView {
    CardDraftView {
        title: fallback_title(sentence, index),
        summary: truncated(sentence, 120),
        content: sentence,
        card_type: "note"@,
        tags: seq!["imported"@, "mock-extraction"@],
    }
}

pub open spec fn insight_card(text: Seq<char>) -> CardDraftView {
    CardDraftView {
        title: "Imported Conversation Insight"@,
        summary: "This card captures the main imported conversation as a first structured knowledge point."@,
        content: take_chars(text, 500),
        card_type: "note"@,
        tags: seq!["imported"@, "conversation"@],
    }
}

/// The cards made when no known concept is found.
pub open spec fn fallback_cards(text: Seq<char>) -> Seq<CardDraftView> {
    let sentences = fallback_sentences(text);
    if sentences.len() == 0 {
        seq![insight_card(text)]
    } else {
        Seq::new(sentences.len(), |i: int| sentence_card(sentences[i], i as nat))
    }
}

/// The type of the mock relation between two consecutive cards.
pub open spec fn relation_kind(source: CardDraftView, target: CardDraftView) -> Seq<char> {
    if source.title == "SQLite"@ || target.title == "SQLite"@ {
        "application"@
    } else if source.title == "知识卡片"@ && target.title == "知识图谱"@ {
        "contains"@
    } else {
        "related"@
    }
}

pub open spec fn mock_reason(source_title: Seq<char>, target_title: Seq<char>) -> Seq<char> {
    "Mock extraction connected \""@ + source_title + "\" with \""@ + target_title
        + "\" because they appear in the same imported conversation."@
}

pub open spec fn mock_relation(source: CardDraftView, target: CardDraftView) -> RelationDraftView {
    RelationDraftView {
        source_title: source.title,
        target_title: target.title,
        relation_type: relation_kind(source, target),
        reason: mock_reason(source.title, target.title),
        confidence_bits: MOCK_CONFIDENCE_BITS,
    }
}

/// One relation for each pair of consecutive cards.
pub open spec fn mock_relations(cards: Seq<CardDraftView>) -> Seq<RelationDraftView> {
    if cards.len() < 2 {
        Seq::empty()
    } else {
        Seq::new((cards.len() - 1) as nat, |i: int| mock_relation(cards[i], cards[i + 1]))
    }
}

/// What the local extractor proposes for a conversation text.
pub open spec fn local_extraction(text: Seq<char>) -> ExtractionView {
    let matched = matched_cards(lowercased(text), concept_rule_table());
    let cards = if matched.len() > 0 {
        matched
    } else {
        fallback_cards(text)
    };
    ExtractionView { cards, relations: mock_relations(cards) }
}

fn string_list2(a: &str, b: &str) -> (out: Vec<String>)
    ensures
        string_seqs(out@) == seq![a@, b@],
{
    let mut v: Vec<String> = Vec::new();
    v.push(String::from_str(a));
    v.push(String::from_str(b));
    assert(string_seqs(v@) =~= seq![a@, b@]);
    v
}

fn string_list3(a: &str, b: &str, c: &str) -> (out: Vec<String>)
    ensures
        string_seqs(out@) == seq![a@, b@, c@],
{
    let mut v: Vec<String> = Vec::new();
    v.push(String::from_str(a));
    v.push(String::from_str(b));
    v.push(String::from_str(c));
    assert(string_seqs(v@) =~= seq![a@, b@, c@]);
    v
}

fn rule(
    title: &str,
    keywords: Vec<String>,
    summary: &str,
    content: &str,
    card_type: &str,
    tags: Vec<String>,
) -> (out: ConceptRule)
    ensures
        out@ == (RuleView {
            title: title@,
            keywords: string_seqs(keywords@),
            summary: summary@,
            content: content@,
            card_type: card_type@,
            tags: string_seqs(tags@),
        }),
{
    ConceptRule {
        title: String::from_str(title),
        keywords,
        summary: String::from_str(summary),
        content: String::from_str(content),
        card_type: String::from_str(card_type),
        tags,
    }
}

/// The known concepts.
pub fn concept_rules() -> (out: Vec<ConceptRule>)
    ensures
        rule_views(out@) == concept_rule_table(),
{
    let mut v: Vec<ConceptRule> = Vec::new();
    v.push(
        rule(
            "产品化",
            string_list2("产品化", "product"),
            "产品化是把技术能力变成可交付、可维护、可迭代的产品。",
            "产品化不是简单写代码，而是把技术能力包装成用户可以使用、持续维护、持续迭代的产品能力。",
            "concept",
            string_list3("产品", "工程", "交付"),
        ),
    );
    v.push(
        rule(
            "本地优先",
            string_list3("本地优先", "local-first", "local first"),
            "本地优先是指数据主要保存在用户本地，优先保证数据归用户所有。",
            "本地优先适合个人知识系统，因为用户的学习记录、对话内容和知识卡片都具有长期价值和隐私属性。",
            "concept",
            string_list3("数据存储", "隐私", "本地化"),
        ),
    );
    v.push(
        rule(
            "知识卡片",
            string_list3("知识卡片", "knowledge card", "cards"),
            "知识卡片是从对话中抽取出的最小知识单位。",
            "知识卡片把一段对话中的有效知识点结构化保存，便于复习、搜索、连接和后续导出。",
            "concept",
            string_list3("知识管理", "学习", "结构化"),
        ),
    );
    v.push(
        rule(
            "知识图谱",
            string_list3("知识图谱", "knowledge graph", "graph"),
            "知识图谱用节点和边表达知识点之间的关系。",
            "在 CardMind 中，节点来自 KnowledgeCard，边来自 CardRelation，用户可以通过图谱看到知识之间的前置、包含、对比、相关和应用关系。",
            "concept",
            string_list3("图谱", "关系", "可视化"),
        ),
    );
    v.push(
        rule(
            "SQLite",
            string_list3("sqlite", "数据库", "structured"),
            "SQLite 是适合本地优先产品的轻量结构化数据库。",
            "SQLite 让 CardMind 在不依赖云端服务的情况下保存对话、卡片和关系，同时为全文搜索、同步、备份和数据迁移留下空间。",
            "technology",
            string_list3("数据库", "本地存储", "架构"),
        ),
    );
    assert(rule_views(v@) =~= concept_rule_table());
    v
}

/// The card that a known concept yields.
pub fn card_from_rule(rule: &ConceptRule) -> (out: ExtractedCardDraft)
    ensures
        out@ == card_of_rule(rule@),
{
    ExtractedCardDraft {
        title: rule.title.clone(),
        summary: rule.summary.clone(),
        content: rule.content.clone(),
        card_type: rule.card_type.clone(),
        tags: copy_strings(&rule.tags),
    }
}

/// Whether some keyword of the rule occurs in the lower-cased text.
fn rule_matches_text(text_lower: &Vec<char>, rule: &ConceptRule) -> (out: bool)
    ensures
        out == rule_matches(text_lower@, rule@),
{
    let mut k: usize = 0;
    while k < rule.keywords.len()
        invariant
            k <= rule.keywords.len(),
            forall|j: int|
                0 <= j < k ==> !contains(text_lower@, lowercased(#[trigger] string_seqs(rule.keywords@)[j])),
        decreases rule.keywords.len() - k,
    {
        let keyword = lowercase(rule.keywords[k].as_str());
        let needle = chars_of(keyword.as_str());
        if contains_chars(text_lower, &needle) {
            assert(string_seqs(rule.keywords@)[k as int] == rule.keywords@[k as int]@);
            assert(contains(text_lower@, lowercased(rule@.keywords[k as int])));
            return true;
        }
        assert(string_seqs(rule.keywords@)[k as int] == rule.keywords@[k as int]@);
        k += 1;
    }
    false
}

/// `truncate` on characters.
fn truncate_chars(value: &Vec<char>, limit: usize) -> (out: Vec<char>)
    requires
        value.len() <= limit || limit >= 3,
    ensures
        out@ == truncated(value@, limit as nat),
{
    if value.len() > limit {
        let mut out = sub_chars(value, 0, limit - 3);
        append_str(&mut out, "...");
        out
    } else {
        sub_chars(value, 0, value.len())
    }
}

/// Shortens a text longer than `limit` characters to `limit - 3` characters
/// followed by `...`.
pub fn truncate(value: &str, limit: usize) -> (out: String)
    requires
        value@.len() <= limit || limit >= 3,
    ensures
        out@ == truncated(value@, limit as nat),
{
    let chars = chars_of(value);
    let out = truncate_chars(&chars, limit);
    string_from_chars(&out)
}

fn fallback_title_chars(sentence: &Vec<char>, index: usize) -> (out: Vec<char>)
    requires
        index < usize::MAX,
    ensures
        out@ == fallback_title(sentence@, index as nat),
{
    let tokens = words_of(sentence);
    let space = chars_of(" ");
    let compact = join_chars(&tokens, &space);
    if compact.len() > 28 {
        let mut out = sub_chars(&compact, 0, 28);
        append_str(&mut out, "...");
        out
    } else {
        let mut out = chars_of("Conversation Insight ");
        let digits = decimal_chars(index + 1);
        append_chars(&mut out, &digits);
        out
    }
}

/// The title of a fallback card: the sentence with its whitespace collapsed,
/// cut to 28 characters and `...` when longer, or `Conversation Insight n`
/// for the `n`-th sentence otherwise.
pub fn create_fallback_title(sentence: &str, index: usize) -> (out: String)
    requires
        index < usize::MAX,
    ensures
        out@ == fallback_title(sentence@, index as nat),
{
    let chars = chars_of(sentence);
    let out = fallback_title_chars(&chars, index);
    string_from_chars(&out)
}

fn sentence_card_of(sentence: &Vec<char>, index: usize) -> (out: ExtractedCardDraft)
    requires
        index < usize::MAX,
    ensures
        out@ == sentence_card(sentence@, index as nat),
{
    let title = fallback_title_chars(sentence, index);
    let summary = truncate_chars(sentence, 120);
    ExtractedCardDraft {
        title: string_from_chars(&title),
        summary: string_from_chars(&summary),
        content: string_from_chars(sentence),
        card_type: String::from_str("note"),
        tags: string_list2("imported", "mock-extraction"),
    }
}

/// The sentences that fallback cards are made of.
fn fallback_sentence_list(text: &Vec<char>) -> (out: Vec<Vec<char>>)
    ensures
        char_seqs(out@) == fallback_sentences(text@),
{
    let pieces = split_chars(text, Separator::SentenceEnd);
    let ghost all = char_seqs(pieces@);
    let mut out: Vec<Vec<char>> = Vec::new();
    let mut i: usize = 0;
    assert(trimmed_all(all.take(0)) =~= Seq::<Seq<char>>::empty());
    while i < pieces.len()
        invariant
            i <= pieces.len(),
            all == char_seqs(pieces@),
            char_seqs(out@) == first_three(long_pieces(trimmed_all(all.take(i as int)))),
        decreases pieces.len() - i,
    {
        let ghost before = long_pieces(trimmed_all(all.take(i as int)));
        let ghost out_before = char_seqs(out@);
        let t = trim_chars(&pieces[i]);
        proof {
            assert(char_seqs(out@).len() == out.len());
            if before.len() > 3 {
                assert(before.take(3).len() == 3);
            }
            assert(all[i as int] == pieces[i as int]@);
            assert(trimmed_all(all.take(i + 1)) =~= trimmed_all(all.take(i as int)).push(
                trim(all[i as int]),
            ));
            assert(trimmed_all(all.take(i + 1)).drop_last() =~= trimmed_all(all.take(i as int)));
        }
        if t.len() >= 12 {
            if out.len() < 3 {
                assert(before.len() < 3);
                out.push(t);
                assert(char_seqs(out@) =~= out_before.push(t@));
            } else {
                assert(before.len() >= 3);
                assert(before.push(t@).take(3) =~= before.take(3));
            }
        }
        i += 1;
    }
    assert(all.take(pieces.len() as int) == all);
    out
}

/// The cards made when no known concept is found: one `note` card for each
/// of the first three trimmed sentences of at least twelve characters, or,
/// when there is none, one card holding the first 500 characters.
pub fn create_fallback_cards(conversation_text: &str) -> (out: Vec<ExtractedCardDraft>)
    ensures
        card_draft_views(out@) == fallback_cards(conversation_text@),
{
    let text = chars_of(conversation_text);
    let sentences = fallback_sentence_list(&text);
    let ghost ss = fallback_sentences(text@);
    assert(char_seqs(sentences@).len() == sentences.len());
    let mut cards: Vec<ExtractedCardDraft> = Vec::new();
    if sentences.len() == 0 {
        let content = take_prefix(&text, 500);
        cards.push(
            ExtractedCardDraft {
                title: String::from_str("Imported Conversation Insight"),
                summary: String::from_str(
                    "This card captures the main imported conversation as a first structured knowledge point.",
                ),
                content: string_from_chars(&content),
                card_type: String::from_str("note"),
                tags: string_list2("imported", "conversation"),
            },
        );
        assert(card_draft_views(cards@) =~= fallback_cards(conversation_text@));
        return cards;
    }
    let mut j: usize = 0;
    while j < sentences.len()
        invariant
            j <= sentences.len() <= 3,
            char_seqs(sentences@) == ss,
            ss == fallback_sentences(conversation_text@),
            card_draft_views(cards@) =~= Seq::new(j as nat, |i: int| sentence_card(ss[i], i as nat)),
        decreases sentences.len() - j,
    {
        assert(ss[j as int] == sentences[j as int]@);
        let card = sentence_card_of(&sentences[j], j);
        let ghost prev = card_draft_views(cards@);
        cards.push(card);
        assert(card_draft_views(cards@) =~= prev.push(sentence_card(ss[j as int], j as nat)));
        j += 1;
        assert(card_draft_views(cards@) =~= Seq::new(j as nat, |i: int| sentence_card(ss[i], i as nat)));
    }
    cards
}

/// The type of the mock relation from `source` to `target`.
pub fn infer_relation_type(source: &ExtractedCardDraft, target: &ExtractedCardDraft) -> (out: &'static str)
    ensures
        out@ == relation_kind(source@, target@),
{
    if same_text(source.title.as_str(), "SQLite") || same_text(target.title.as_str(), "SQLite") {
        "application"
    } else if same_text(source.title.as_str(), "知识卡片") && same_text(target.title.as_str(), "知识图谱") {
        "contains"
    } else {
        "related"
    }
}

fn mock_relation_of(source: &ExtractedCardDraft, target: &ExtractedCardDraft) -> (out: ExtractedRelationDraft)
    ensures
        out@ == mock_relation(source@, target@),
{
    let mut reason = chars_of("Mock extraction connected \"");
    append_str(&mut reason, source.title.as_str());
    append_str(&mut reason, "\" with \"");
    append_str(&mut reason, target.title.as_str());
    append_str(&mut reason, "\" because they appear in the same imported conversation.");
    ExtractedRelationDraft {
        source_title: source.title.clone(),
        target_title: target.title.clone(),
        relation_type: String::from_str(infer_relation_type(source, target)),
        reason: string_from_chars(&reason),
        confidence_bits: MOCK_CONFIDENCE_BITS,
    }
}

/// One mock relation for each pair of consecutive cards.
pub fn create_relations(cards: &Vec<ExtractedCardDraft>) -> (out: Vec<ExtractedRelationDraft>)
    ensures
        relation_draft_views(out@) == mock_relations(card_draft_views(cards@)),
{
    let ghost cv = card_draft_views(cards@);
    let mut out: Vec<ExtractedRelationDraft> = Vec::new();
    if cards.len() < 2 {
        assert(relation_draft_views(out@) =~= mock_relations(cv));
        return out;
    }
    let mut i: usize = 0;
    while i + 1 < cards.len()
        invariant
            cards.len() >= 2,
            i + 1 <= cards.len(),
            cv == card_draft_views(cards@),
            relation_draft_views(out@) =~= Seq::new(i as nat, |k: int| mock_relation(cv[k], cv[k + 1])),
        decreases cards.len() - i,
    {
        let relation = mock_relation_of(&cards[i], &cards[i + 1]);
        let ghost prev = relation_draft_views(out@);
        out.push(relation);
        assert(relation_draft_views(out@) =~= prev.push(mock_relation(cv[i as int], cv[i + 1])));
        i += 1;
        assert(relation_draft_views(out@) =~= Seq::new(i as nat, |k: int| mock_relation(cv[k], cv[k + 1])));
    }
    out
}

/// Proposes cards and relations for a conversation without any remote
/// service: the cards of the known concepts whose keywords occur in the
/// lower-cased text, or fallback cards when none does, linked in order.
pub fn extract_knowledge_cards(conversation_text: &str) -> (out: ExtractionResult)
    ensures
        out@ == local_extraction(conversation_text@),
{
    let lower = lowercase(conversation_text);
    let normalized = chars_of(lower.as_str());
    let rules = concept_rules();
    let ghost table = concept_rule_table();
    let mut cards: Vec<ExtractedCardDraft> = Vec::new();
    let mut i: usize = 0;
    assert(table.take(0) =~= Seq::<RuleView>::empty());
    while i < rules.len()
        invariant
            i <= rules.len(),
            rule_views(rules@) == table,
            normalized@ == lowercased(conversation_text@),
            card_draft_views(cards@) == matched_cards(normalized@, table.take(i as int)),
        decreases rules.len() - i,
    {
        assert(table.take(i + 1).drop_last() == table.take(i as int));
        assert(table[i as int] == rules[i as int]@);
        let ghost before = card_draft_views(cards@);
        if rule_matches_text(&normalized, &rules[i]) {
            let card = card_from_rule(&rules[i]);
            cards.push(card);
            assert(card_draft_views(cards@) =~= before.push(card_of_rule(table[i as int])));
        }
        i += 1;
    }
    assert(table.take(rules.len() as int) == table);
    if cards.len() == 0 {
        cards = create_fallback_cards(conversation_text);
    }
    let relations = create_relations(&cards);
    ExtractionResult { cards, relations }
}

} // verus!
