//! The sample data written into an empty repository: one conversation, five
//! cards and three relations.

use vstd::prelude::*;
use crate::models::{
    card_draft_views, relation_draft_views, CardDraftView, CreateConversationInput,
    ExtractedCardDraft, ExtractedRelationDraft, RelationDraftView,
};
use crate::text::string_seqs;

verus! {

pub open spec fn sample_title() -> Seq<char> {
    "示例：学习复盘、工程分析与简历沉淀"@
}

pub open spec fn sample_content() -> Seq<char> {
    "这是一段 CardMind 示例对话，内容来自个人学习和面试复盘场景：视频点播后端修复记录需要沉淀为可复用的排查方法；内存池 benchmark 分析需要记录实验口径和性能结论；TinyMuduo Reactor 事件循环问答可以拆成 Channel、Poller、EventLoop 等知识点；简历优化建议需要区分真实项目能力和包装表达；微服务拆分边界需要说明模块职责、数据归属和接口契约。"@
}

/// The sample conversation.
pub fn sample_conversation_input() -> (out: CreateConversationInput)
    ensures
        out.title matches Some(t) && t@ == sample_title(),
        out.raw_content@ == sample_content(),
        out.source_type matches Some(s) && s@ == "sample"@,
{
    CreateConversationInput {
        title: Some(String::from_str("示例：学习复盘、工程分析与简历沉淀")),
        raw_content: String::from_str(
            "这是一段 CardMind 示例对话，内容来自个人学习和面试复盘场景：视频点播后端修复记录需要沉淀为可复用的排查方法；内存池 benchmark 分析需要记录实验口径和性能结论；TinyMuduo Reactor 事件循环问答可以拆成 Channel、Poller、EventLoop 等知识点；简历优化建议需要区分真实项目能力和包装表达；微服务拆分边界需要说明模块职责、数据归属和接口契约。",
        ),
        source_type: Some(String::from_str("sample")),
    }
}

/// The sample cards.
pub open spec fn sample_card_table() -> Seq<CardDraftView> {
    seq![
        CardDraftView {
            title: "视频点播后端修复记录"@,
            summary: "后端修复记录应沉淀问题现象、定位路径、验证命令和最终边界。"@,
            content: "视频点播后端修复不只是记录改了哪一行代码，还要记录接口现象、日志线索、数据库状态、复现步骤、修复方案和 smoke test 结果，方便之后复盘和面试讲解。"@,
            card_type: "engineering-note"@,
            tags: seq!["后端"@, "视频点播"@, "排障"@],
        },
        CardDraftView {
            title: "内存池 benchmark 分析"@,
            summary: "benchmark 结论必须绑定测试口径，否则性能数字不可复用。"@,
            content: "分析内存池 benchmark 时，需要同时记录分配粒度、线程数、循环次数、预热策略、对照组、统计指标和异常波动。否则单个耗时数字很难说明设计是否真的更好。"@,
            card_type: "analysis"@,
            tags: seq!["C++"@, "性能"@, "benchmark"@],
        },
        CardDraftView {
            title: "TinyMuduo Reactor 事件循环"@,
            summary: "Reactor 通过事件循环把 IO 就绪事件分发给 Channel 回调。"@,
            content: "TinyMuduo 的 Reactor 模型可以从 EventLoop、Poller、Channel 三个对象理解：Poller 等待 IO 就绪，Channel 描述 fd 和回调，EventLoop 负责循环调度和线程归属。"@,
            card_type: "concept"@,
            tags: seq!["C++"@, "网络库"@, "Reactor"@],
        },
        CardDraftView {
            title: "简历优化建议"@,
            summary: "简历表达要把真实经历转成可验证的工程成果。"@,
            content: "简历优化不是夸大项目，而是把做过的功能、验证方式、技术取舍和结果边界表达清楚。尤其要区分已完成能力、demo 能力和后续计划。"@,
            card_type: "career-note"@,
            tags: seq!["简历"@, "面试"@, "表达"@],
        },
        CardDraftView {
            title: "微服务拆分边界"@,
            summary: "微服务拆分边界应围绕业务职责、数据归属和接口契约判断。"@,
            content: "微服务拆分不能只按代码目录拆，应该明确每个服务的业务职责、数据所有权、跨服务调用方式、失败处理和演进成本。边界不清会带来分布式复杂度。"@,
            card_type: "architecture"@,
            tags: seq!["微服务"@, "架构"@, "边界"@],
        },
    ]
}

/// `0.9_f64.to_bits()`
pub const CONFIDENCE_0_90: u64 = 0x3FEC_CCCC_CCCC_CCCD;

/// `0.92_f64.to_bits()`
pub const CONFIDENCE_0_92: u64 = 0x3FED_70A3_D70A_3D71;

/// `0.95_f64.to_bits()`
pub const CONFIDENCE_0_95: u64 = 0x3FEE_6666_6666_6666;

/// The sample relations.
pub open spec fn sample_relation_table() -> Seq<RelationDraftView> {
    seq![
        RelationDraftView {
            source_title: "视频点播后端修复记录"@,
            target_title: "简历优化建议"@,
            relation_type: "related"@,
            reason: "真实修复记录可以转化为简历中可验证的项目成果。"@,
            confidence_bits: CONFIDENCE_0_90,
        },
        RelationDraftView {
            source_title: "内存池 benchmark 分析"@,
            target_title: "简历优化建议"@,
            relation_type: "supports"@,
            reason: "清晰的 benchmark 口径支持简历中对性能优化的可信表达。"@,
            confidence_bits: CONFIDENCE_0_92,
        },
        RelationDraftView {
            source_title: "微服务拆分边界"@,
            target_title: "视频点播后端修复记录"@,
            relation_type: "contains"@,
            reason: "视频点播后端问题定位通常涉及模块职责和服务边界判断。"@,
            confidence_bits: CONFIDENCE_0_95,
        },
    ]
}

fn tags3(a: &str, b: &str, c: &str) -> (out: Vec<String>)
    ensures
        string_seqs(out@) == seq![a@, b@, c@],
{
    let mut v: Vec<String> = Vec::new();
    v.push(String::from_str(a));
    v.push(String::from_str(b));
    v.push(String::from_str(c));
    assert(string_seqs(v@) =~= seq![a@, b@, c@]);
    v
}

fn card(title: &str, summary: &str, content: &str, card_type: &str, tags: Vec<String>) -> (out:
    ExtractedCardDraft)
    ensures
        out@ == (CardDraftView {
            title: title@,
            summary: summary@,
            content: content@,
            card_type: card_type@,
            tags: string_seqs(tags@),
        }),
{
    ExtractedCardDraft {
        title: String::from_str(title),
        summary: String::from_str(summary),
        content: String::from_str(content),
        card_type: String::from_str(card_type),
        tags,
    }
}

fn relation(source: &str, target: &str, relation_type: &str, reason: &str, confidence_bits: u64) -> (out:
    ExtractedRelationDraft)
    ensures
        out@ == (RelationDraftView {
            source_title: source@,
            target_title: target@,
            relation_type: relation_type@,
            reason: reason@,
            confidence_bits,
        }),
{
    ExtractedRelationDraft {
        source_title: String::from_str(source),
        target_title: String::from_str(target),
        relation_type: String::from_str(relation_type),
        reason: String::from_str(reason),
        confidence_bits,
    }
}

/// The sample cards.
pub fn sample_cards() -> (out: Vec<ExtractedCardDraft>)
    ensures
        card_draft_views(out@) == sample_card_table(),
{
    let mut v: Vec<ExtractedCardDraft> = Vec::new();
    v.push(
        card(
            "视频点播后端修复记录",
            "后端修复记录应沉淀问题现象、定位路径、验证命令和最终边界。",
            "视频点播后端修复不只是记录改了哪一行代码，还要记录接口现象、日志线索、数据库状态、复现步骤、修复方案和 smoke test 结果，方便之后复盘和面试讲解。",
            "engineering-note",
            tags3("后端", "视频点播", "排障"),
        ),
    );
    v.push(
        card(
            "内存池 benchmark 分析",
            "benchmark 结论必须绑定测试口径，否则性能数字不可复用。",
            "分析内存池 benchmark 时，需要同时记录分配粒度、线程数、循环次数、预热策略、对照组、统计指标和异常波动。否则单个耗时数字很难说明设计是否真的更好。",
            "analysis",
            tags3("C++", "性能", "benchmark"),
        ),
    );
    v.push(
        card(
            "TinyMuduo Reactor 事件循环",
            "Reactor 通过事件循环把 IO 就绪事件分发给 Channel 回调。",
            "TinyMuduo 的 Reactor 模型可以从 EventLoop、Poller、Channel 三个对象理解：Poller 等待 IO 就绪，Channel 描述 fd 和回调，EventLoop 负责循环调度和线程归属。",
            "concept",
            tags3("C++", "网络库", "Reactor"),
        ),
    );
    v.push(
        card(
            "简历优化建议",
            "简历表达要把真实经历转成可验证的工程成果。",
            "简历优化不是夸大项目，而是把做过的功能、验证方式、技术取舍和结果边界表达清楚。尤其要区分已完成能力、demo 能力和后续计划。",
            "career-note",
            tags3("简历", "面试", "表达"),
        ),
    );
    v.push(
        card(
            "微服务拆分边界",
            "微服务拆分边界应围绕业务职责、数据归属和接口契约判断。",
            "微服务拆分不能只按代码目录拆，应该明确每个服务的业务职责、数据所有权、跨服务调用方式、失败处理和演进成本。边界不清会带来分布式复杂度。",
            "architecture",
            tags3("微服务", "架构", "边界"),
        ),
    );
    assert(card_draft_views(v@) =~= sample_card_table());
    v
}

/// The sample relations.
pub fn sample_relations() -> (out: Vec<ExtractedRelationDraft>)
    ensures
        relation_draft_views(out@) == sample_relation_table(),
{
    let mut v: Vec<ExtractedRelationDraft> = Vec::new();
    v.push(
        relation(
            "视频点播后端修复记录",
            "简历优化建议",
            "related",
            "真实修复记录可以转化为简历中可验证的项目成果。",
            CONFIDENCE_0_90,
        ),
    );
    v.push(
        relation(
            "内存池 benchmark 分析",
            "简历优化建议",
            "supports",
            "清晰的 benchmark 口径支持简历中对性能优化的可信表达。",
            CONFIDENCE_0_92,
        ),
    );
    v.push(
        relation(
            "微服务拆分边界",
            "视频点播后端修复记录",
            "contains",
            "视频点播后端问题定位通常涉及模块职责和服务边界判断。",
            CONFIDENCE_0_95,
        ),
    );
    assert(relation_draft_views(v@) =~= sample_relation_table());
    v
}

} // verus!
