//! The decisions around the OpenAI extractor: whether to ask it at all, how
//! to read and check its reply, how to report its failures, and the local
//! fallback. The HTTP exchange itself is made by the caller.

use vstd::prelude::*;
use crate::extractor::{extract_knowledge_cards, local_extraction};
use crate::models::{
    card_draft_views, opt_view, relation_draft_views, CardDraftView, ExtractionPreview, ExtractionResult, ExtractionView, RelationDraftView,
};
use crate::normalize::{is_known_relation_type, is_relation_type};
use crate::repository::refused;
use crate::text::{
    append_chars, append_str, chars_of, contains, contains_chars, lowercase, lowercased,
    string_from_chars, take_chars, take_prefix, trim, trim_chars,
};

verus! {

/// The model used when none is chosen.
pub open spec fn default_model() -> Seq<char> {
    "gpt-5.4-mini"@
}

/// The model used when none is chosen.
pub fn default_openai_model() -> (out: String)
    ensures
        out@ == default_model(),
{
    String::from_str("gpt-5.4-mini")
}

/// A key counts as given when it is not blank.
pub open spec fn usable_key(key: Option<Seq<char>>) -> Option<Seq<char>> {
    match key {
        Some(k) => if trim(k).len() > 0 {
            Some(k)
        } else {
            None
        },
        None => None,
    }
}

/// The given key when it is not blank.
pub fn filter_key(key: Option<String>) -> (out: Option<String>)
    ensures
        opt_view(out) == usable_key(opt_view(key)),
{
    match key {
        Some(k) => {
            let chars = chars_of(k.as_str());
            let trimmed = trim_chars(&chars);
            if trimmed.len() > 0 {
                Some(k)
            } else {
                None
            }
        },
        None => None,
    }
}

/// The API key to use: the environment's when not blank, else the stored one.
pub open spec fn chosen_key(env_key: Option<Seq<char>>, stored_key: Option<Seq<char>>) -> Option<
    Seq<char>,
> {
    match usable_key(env_key) {
        Some(k) => Some(k),
        None => stored_key,
    }
}

/// The API key to use.
pub fn choose_api_key(env_key: Option<String>, stored_key: Option<String>) -> (out: Option<String>)
    ensures
        opt_view(out) == chosen_key(opt_view(env_key), opt_view(stored_key)),
{
    match filter_key(env_key) {
        Some(k) => Some(k),
        None => stored_key,
    }
}

/// The key that is saved: the entered one, trimmed; a blank one is refused.
pub fn prepare_api_key(api_key: &str) -> (out: Result<String, String>)
    ensures
        match out {
            Ok(k) => trim(api_key@).len() > 0 && k@ == trim(api_key@),
            Err(e) => trim(api_key@).len() == 0 && e@ == "OpenAI API Key 不能为空。"@,
        },
{
    let chars = chars_of(api_key);
    let trimmed = trim_chars(&chars);
    if trimmed.len() == 0 {
        Err(String::from_str("OpenAI API Key 不能为空。"))
    } else {
        Ok(string_from_chars(&trimmed))
    }
}

/// What the preview does next: it is ready, or the OpenAI extractor must be
/// asked with this key and model.
pub enum PreviewStep {
    Ready(ExtractionPreview),
    AskOpenAi { conversation_text: String, api_key: String, model: String },
}

pub struct PreviewView {
    pub cards: Seq<CardDraftView>,
    pub relations: Seq<RelationDraftView>,
    pub provider: Seq<char>,
    pub warning: Option<Seq<char>>,
}

impl View for ExtractionPreview {
    type V = PreviewView;

    open spec fn view(&self) -> PreviewView {
        PreviewView {
            cards: card_draft_views(self.cards@),
            relations: relation_draft_views(self.relations@),
            provider: self.provider@,
            warning: opt_view(self.warning),
        }
    }
}

/// The preview made by the local extractor, with a warning.
pub open spec fn mock_preview(text: Seq<char>, warning: Seq<char>) -> PreviewView {
    PreviewView {
        cards: local_extraction(text).cards,
        relations: local_extraction(text).relations,
        provider: "mock"@,
        warning: Some(warning),
    }
}

fn mock_preview_of(conversation_text: &str, warning: String) -> (out: ExtractionPreview)
    ensures
        out@ == mock_preview(conversation_text@, warning@),
{
    let fallback = extract_knowledge_cards(conversation_text);
    ExtractionPreview {
        cards: fallback.cards,
        relations: fallback.relations,
        provider: String::from_str("mock"),
        warning: Some(warning),
    }
}

/// How a preview starts: without a usable key the local extractor answers at
/// once; with one, OpenAI is to be asked for the text with that key and model.
pub open spec fn preview_started(step: PreviewStep, text: Seq<char>, key: Option<Seq<char>>, model: Seq<char>) -> bool {
    match usable_key(key) {
        None => step matches PreviewStep::Ready(p) && p@ == mock_preview(
            text,
            "未配置 OpenAI API Key，已使用本地 mock 抽取。"@,
        ),
        Some(k) => step matches PreviewStep::AskOpenAi { conversation_text: t, api_key, model: m }
            && t@ == text && api_key@ == k && m@ == model,
    }
}

/// Starts a preview: without a usable key the local extractor answers at
/// once; with one, OpenAI is to be asked.
pub fn extract_with_openai_or_mock(conversation_text: &str, api_key: Option<String>, model: &str) -> (out:
    PreviewStep)
    ensures
        preview_started(out, conversation_text@, opt_view(api_key), model@),
{
    match filter_key(api_key) {
        None => PreviewStep::Ready(
            mock_preview_of(
                conversation_text,
                String::from_str("未配置 OpenAI API Key，已使用本地 mock 抽取。"),
            ),
        ),
        Some(k) => PreviewStep::AskOpenAi {
            conversation_text: String::from_str(conversation_text),
            api_key: k,
            model: String::from_str(model),
        },
    }
}

/// Ends a preview with OpenAI's answer: its extraction, or on failure the
/// local extractor's with a warning that gives the reason.
pub fn finish_openai_preview(conversation_text: &str, outcome: Result<ExtractionResult, String>) -> (out:
    ExtractionPreview)
    ensures
        match outcome {
            Ok(e) => out@ == PreviewView {
                cards: e@.cards,
                relations: e@.relations,
                provider: "openai"@,
                warning: None,
            },
            Err(error) => out@ == mock_preview(
                conversation_text@,
                "OpenAI 抽取失败，已回退到本地 mock："@ + error@,
            ),
        },
{
    match outcome {
        Ok(extraction) => ExtractionPreview {
            cards: extraction.cards,
            relations: extraction.relations,
            provider: String::from_str("openai"),
            warning: None,
        },
        Err(error) => {
            let mut warning = chars_of("OpenAI 抽取失败，已回退到本地 mock：");
            append_str(&mut warning, error.as_str());
            mock_preview_of(conversation_text, string_from_chars(&warning))
        },
    }
}

/// A request that checks the connection to OpenAI.
#[derive(Debug)]
pub struct ConnectionProbe {
    pub api_key: String,
    pub model: String,
    pub input: String,
}

/// Prepares the connection check: refused without a usable key.
pub fn test_openai_connection(api_key: Option<String>, model: &str) -> (out: Result<ConnectionProbe, String>)
    ensures
        match usable_key(opt_view(api_key)) {
            None => out matches Err(e) && e@
                == "未配置 OpenAI API Key。请先粘贴 Key，或设置环境变量 OPENAI_API_KEY。"@,
            Some(k) => out matches Ok(p) && p.api_key@ == k && p.model@ == model@ && p.input@
                == "请只回复 OK，用于验证 CardMind 的 OpenAI 连接。"@,
        },
{
    match filter_key(api_key) {
        None => Err(
            String::from_str(
                "未配置 OpenAI API Key。请先粘贴 Key，或设置环境变量 OPENAI_API_KEY。",
            ),
        ),
        Some(k) => Ok(
            ConnectionProbe {
                api_key: k,
                model: String::from_str(model),
                input: String::from_str("请只回复 OK，用于验证 CardMind 的 OpenAI 连接。"),
            },
        ),
    }
}

/// An HTTP status of the success class.
pub open spec fn is_success(status: u16) -> bool {
    200 <= status && status <= 299
}

/// What the `Display` of `reqwest::StatusCode` writes for a status code.
pub uninterp spec fn status_display(code: u16) -> Seq<char>;

/// `reqwest::StatusCode::from_u16(code)` written with `to_string`: the code
/// and its canonical reason. Only codes `100..=999` are status codes.
#[verifier::external_body]
fn status_text(code: u16) -> (out: String)
    requires
        100 <= code <= 999,
    ensures
        out@ == status_display(code),
{
    match reqwest::StatusCode::from_u16(code) {
        Ok(status) => status.to_string(),
        Err(_) => String::new(),
    }
}

/// The hint given for a failed OpenAI request.
pub open spec fn error_hint(status: u16, body: Seq<char>) -> Seq<char> {
    if status == 401 {
        "API Key 无效或已过期。"@
    } else if status == 403 {
        "当前账号没有权限访问该模型或接口。"@
    } else if status == 404 {
        "模型不存在，或当前账号不可用这个模型。"@
    } else if status == 429 {
        "请求过于频繁或额度不足。"@
    } else if 500 <= status && status <= 599 {
        "OpenAI 服务暂时不可用。"@
    } else if contains(lowercased(body), "model"@) {
        "请检查模型名称和账号权限。"@
    } else {
        "请检查网络、API Key 和模型设置。"@
    }
}

/// The message for a failed OpenAI request: the status, a hint and the
/// first 500 characters of the reply.
pub open spec fn openai_error_message(status: u16, body: Seq<char>) -> Seq<char> {
    "OpenAI HTTP "@ + status_display(status) + "："@ + error_hint(status, body) + " 原始错误："@
        + take_chars(body, 500)
}

/// The message for a failed OpenAI request.
pub fn format_openai_error(status: u16, body: &str) -> (out: String)
    requires
        100 <= status <= 999,
    ensures
        out@ == openai_error_message(status, body@),
{
    let lower = lowercase(body);
    let lower_chars = chars_of(lower.as_str());
    let model_word = chars_of("model");
    let hint = if status == 401 {
        "API Key 无效或已过期。"
    } else if status == 403 {
        "当前账号没有权限访问该模型或接口。"
    } else if status == 404 {
        "模型不存在，或当前账号不可用这个模型。"
    } else if status == 429 {
        "请求过于频繁或额度不足。"
    } else if 500 <= status && status <= 599 {
        "OpenAI 服务暂时不可用。"
    } else if contains_chars(&lower_chars, &model_word) {
        "请检查模型名称和账号权限。"
    } else {
        "请检查网络、API Key 和模型设置。"
    };
    let body_chars = chars_of(body);
    let compact = take_prefix(&body_chars, 500);
    let mut out = chars_of("OpenAI HTTP ");
    let status_line = status_text(status);
    append_str(&mut out, status_line.as_str());
    append_str(&mut out, "：");
    append_str(&mut out, hint);
    append_str(&mut out, " 原始错误：");
    append_chars(&mut out, &compact);
    string_from_chars(&out)
}

/// The outcome of the connection check for an HTTP reply.
pub fn finish_connection_test(status: u16, body: &str) -> (out: Result<(), String>)
    requires
        100 <= status <= 999,
    ensures
        match out {
            Ok(()) => is_success(status),
            Err(e) => !is_success(status) && e@ == openai_error_message(status, body@),
        },
{
    if 200 <= status && status <= 299 {
        Ok(())
    } else {
        Err(format_openai_error(status, body))
    }
}

/// A content part of a reply: its `text` and `output_text` strings, when
/// they are strings.
pub struct ResponsePart {
    pub text: Option<String>,
    pub output_text: Option<String>,
}

/// An output item of a reply: its content parts (none when `content` is
/// not an array).
pub struct ResponseItem {
    pub content: Vec<ResponsePart>,
}

/// The parts of an OpenAI reply that are read: the top-level `output_text`
/// when it is a string, and the `output` items when `output` is an array.
pub struct ResponseBody {
    pub output_text: Option<String>,
    pub output: Option<Vec<ResponseItem>>,
}

pub struct PartView {
    pub text: Option<Seq<char>>,
    pub output_text: Option<Seq<char>>,
}

impl View for ResponsePart {
    type V = PartView;

    open spec fn view(&self) -> PartView {
        PartView { text: opt_view(self.text), output_text: opt_view(self.output_text) }
    }
}

pub open spec fn part_views(s: Seq<ResponsePart>) -> Seq<PartView> {
    s.map_values(|p: ResponsePart| p@)
}

pub open spec fn item_views(s: Seq<ResponseItem>) -> Seq<Seq<PartView>> {
    s.map_values(|i: ResponseItem| part_views(i.content@))
}

pub open spec fn output_views(o: Option<Vec<ResponseItem>>) -> Option<Seq<Seq<PartView>>> {
    match o {
        Some(items) => Some(item_views(items@)),
        None => None,
    }
}

/// The text of a content part: `text`, else `output_text`.
pub open spec fn part_text(p: PartView) -> Option<Seq<char>> {
    match p.text {
        Some(t) => Some(t),
        None => p.output_text,
    }
}

/// The first content part with a text.
pub open spec fn first_part_text(parts: Seq<PartView>) -> Option<Seq<char>>
    decreases parts.len(),
{
    if parts.len() == 0 {
        None
    } else if part_text(parts[0]) is Some {
        part_text(parts[0])
    } else {
        first_part_text(parts.drop_first())
    }
}

/// The first content part with a text, over all items in order.
pub open spec fn first_item_text(items: Seq<Seq<PartView>>) -> Option<Seq<char>>
    decreases items.len(),
{
    if items.len() == 0 {
        None
    } else if first_part_text(items[0]) is Some {
        first_part_text(items[0])
    } else {
        first_item_text(items.drop_first())
    }
}

/// The text of a reply: the top-level `output_text`, else the first text of
/// the output items.
pub open spec fn reply_text(output_text: Option<Seq<char>>, output: Option<Seq<Seq<PartView>>>) -> Option<
    Seq<char>,
> {
    match output_text {
        Some(t) => Some(t),
        None => match output {
            Some(items) => first_item_text(items),
            None => None,
        },
    }
}

fn first_text_of_parts(parts: &Vec<ResponsePart>) -> (out: Option<String>)
    ensures
        opt_view(out) == first_part_text(part_views(parts@)),
{
    let ghost pv = part_views(parts@);
    let mut i: usize = 0;
    assert(pv.subrange(0, pv.len() as int) == pv);
    while i < parts.len()
        invariant
            i <= parts.len(),
            pv == part_views(parts@),
            first_part_text(pv) == first_part_text(pv.subrange(i as int, pv.len() as int)),
        decreases parts.len() - i,
    {
        let ghost rest = pv.subrange(i as int, pv.len() as int);
        assert(rest[0] == parts@[i as int]@);
        assert(rest.drop_first() == pv.subrange(i + 1, pv.len() as int));
        match &parts[i].text {
            Some(t) => {
                return Some(t.clone());
            },
            None => {},
        }
        match &parts[i].output_text {
            Some(t) => {
                return Some(t.clone());
            },
            None => {},
        }
        i += 1;
    }
    None
}

/// The text that an OpenAI reply carries, if any.
pub fn extract_output_text(body: &ResponseBody) -> (out: Option<String>)
    ensures
        opt_view(out) == reply_text(opt_view(body.output_text), output_views(body.output)),
{
    match &body.output_text {
        Some(t) => {
            return Some(t.clone());
        },
        None => {},
    }
    match &body.output {
        None => None,
        Some(items) => {
            let ghost iv = item_views(items@);
            let ghost goal = reply_text(opt_view(body.output_text), output_views(body.output));
            assert(goal == first_item_text(iv));
            let mut i: usize = 0;
            assert(iv.subrange(0, iv.len() as int) == iv);
            while i < items.len()
                invariant
                    i <= items.len(),
                    iv == item_views(items@),
                    goal == first_item_text(iv),
                    goal == reply_text(opt_view(body.output_text), output_views(body.output)),
                    first_item_text(iv) == first_item_text(iv.subrange(i as int, iv.len() as int)),
                decreases items.len() - i,
            {
                let ghost rest = iv.subrange(i as int, iv.len() as int);
                assert(rest[0] == part_views(items@[i as int].content@));
                assert(rest.drop_first() == iv.subrange(i + 1, iv.len() as int));
                match first_text_of_parts(&items[i].content) {
                    Some(t) => {
                        return Some(t);
                    },
                    None => {},
                }
                i += 1;
            }
            None
        },
    }
}

/// A card of a reply leaves a field blank.
pub open spec fn draft_is_blank(c: CardDraftView) -> bool {
    ||| trim(c.title).len() == 0
    ||| trim(c.summary).len() == 0
    ||| trim(c.content).len() == 0
    ||| trim(c.card_type).len() == 0
}

/// The type of the first relation with a type the table does not accept.
pub open spec fn first_unknown_type(relations: Seq<RelationDraftView>) -> Option<Seq<char>>
    decreases relations.len(),
{
    if relations.len() == 0 {
        None
    } else if !is_relation_type(relations[0].relation_type) {
        Some(relations[0].relation_type)
    } else {
        first_unknown_type(relations.drop_first())
    }
}

/// Why a reply's extraction is refused: a blank card field, else a relation
/// type that the table does not accept.
pub open spec fn extraction_problem(e: ExtractionView) -> Option<Seq<char>> {
    if exists|i: int| 0 <= i < e.cards.len() && draft_is_blank(#[trigger] e.cards[i]) {
        Some("OpenAI 返回了字段为空的卡片。"@)
    } else {
        match first_unknown_type(e.relations) {
            Some(t) => Some("OpenAI 返回了非法关系类型："@ + t),
            None => None,
        }
    }
}

fn is_blank(s: &String) -> (out: bool)
    ensures
        out == (trim(s@).len() == 0),
{
    let chars = chars_of(s.as_str());
    let trimmed = trim_chars(&chars);
    trimmed.len() == 0
}

/// Checks the extraction of a reply.
pub fn validate_extraction(extraction: &ExtractionResult) -> (out: Result<(), String>)
    ensures
        match extraction_problem(extraction@) {
            None => out is Ok,
            Some(m) => out matches Err(e) && e@ == m,
        },
{
    let ghost ev = extraction@;
    let mut i: usize = 0;
    while i < extraction.cards.len()
        invariant
            i <= extraction.cards.len(),
            ev == extraction@,
            forall|k: int| 0 <= k < i ==> !draft_is_blank(#[trigger] ev.cards[k]),
        decreases extraction.cards.len() - i,
    {
        let card = &extraction.cards[i];
        assert(ev.cards[i as int] == card@);
        if is_blank(&card.title) || is_blank(&card.summary) || is_blank(&card.content) || is_blank(
            &card.card_type,
        ) {
            return Err(String::from_str("OpenAI 返回了字段为空的卡片。"));
        }
        i += 1;
    }
    let ghost rv = ev.relations;
    let mut j: usize = 0;
    assert(rv.subrange(0, rv.len() as int) == rv);
    while j < extraction.relations.len()
        invariant
            j <= extraction.relations.len(),
            ev == extraction@,
            rv == ev.relations,
            forall|k: int| 0 <= k < ev.cards.len() ==> !draft_is_blank(#[trigger] ev.cards[k]),
            first_unknown_type(rv) == first_unknown_type(rv.subrange(j as int, rv.len() as int)),
        decreases extraction.relations.len() - j,
    {
        let relation = &extraction.relations[j];
        let ghost rest = rv.subrange(j as int, rv.len() as int);
        assert(rest[0] == relation@);
        assert(rest.drop_first() == rv.subrange(j + 1, rv.len() as int));
        if !is_known_relation_type(relation.relation_type.as_str()) {
            let mut message = chars_of("OpenAI 返回了非法关系类型：");
            append_str(&mut message, relation.relation_type.as_str());
            return Err(string_from_chars(&message));
        }
        j += 1;
    }
    Ok(())
}


/// What the text of a successful reply is, or why there is none: the
/// formatted error for a failed request, the decoding error of the reply,
/// or the lack of a text.
pub fn reply_text_or_error(status: u16, body: &str, reply: Result<ResponseBody, String>) -> (out: Result<
    String,
    String,
>)
    requires
        100 <= status <= 999,
    ensures
        if !is_success(status) {
            refused(out, openai_error_message(status, body@))
        } else {
            match reply {
                Err(e) => refused(out, e@),
                Ok(b) => match reply_text(opt_view(b.output_text), output_views(b.output)) {
                    Some(t) => out matches Ok(x) && x@ == t,
                    None => refused(out, "OpenAI 响应中没有可解析文本。"@),
                },
            }
        },
{
    if !(200 <= status && status <= 299) {
        return Err(format_openai_error(status, body));
    }
    match reply {
        Err(e) => Err(e),
        Ok(b) => match extract_output_text(&b) {
            Some(t) => Ok(t),
            None => Err(String::from_str("OpenAI 响应中没有可解析文本。")),
        },
    }
}

/// The extraction read from a reply's text, once checked: the decoding
/// error, or the problem that `validate_extraction` finds.
pub fn checked_extraction(parsed: Result<ExtractionResult, String>) -> (out: Result<ExtractionResult, String>)
    ensures
        match parsed {
            Err(e) => refused(out, e@),
            Ok(x) => match extraction_problem(x@) {
                None => out matches Ok(y) && y@ == x@,
                Some(m) => refused(out, m),
            },
        },
{
    match parsed {
        Err(e) => Err(e),
        Ok(x) => match validate_extraction(&x) {
            Ok(()) => Ok(x),
            Err(e) => Err(e),
        },
    }
}

} // verus!
