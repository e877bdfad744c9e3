//! Conversation items and their wire form for xAI's Grok `/responses` API.

use vstd::prelude::*;

use crate::json::array_view;
use crate::json::copy_json;
use crate::json::field;
use crate::json::key_at;
use crate::json::lemma_member_at;
use crate::json::lemma_array_view;
use crate::json::lemma_array_view_push;
use crate::json::lemma_members_view;
use crate::json::lemma_members_view_push;
use crate::json::members_view;
use crate::json::Json;
use crate::json::JsonV;

verus! {

/// How closely an image is to be looked at.
#[derive(Clone, Copy, Debug, PartialEq, Eq, Structural)]
pub enum ImageDetail {
    Auto,
    Low,
    High,
    Original,
}

/// Whether an assistant message is commentary or the final answer.
#[derive(Clone, Copy, Debug, PartialEq, Eq, Structural)]
pub enum MessagePhase {
    Commentary,
    FinalAnswer,
}

/// One part of a message.
#[derive(Debug, PartialEq)]
pub enum ContentItem {
    InputText { text: String },
    InputImage { image_url: String, detail: Option<ImageDetail> },
    OutputText { text: String },
}

/// One item of a conversation as Codex records it.
#[derive(Debug, PartialEq)]
#[allow(inconsistent_fields)]
pub enum ResponseItem {
    Message {
        id: Option<String>,
        role: String,
        content: Vec<ContentItem>,
        phase: Option<MessagePhase>,
        internal_chat_message_metadata_passthrough: Option<Json>,
    },
    Reasoning {
        id: Option<String>,
        summary: Vec<String>,
        content: Option<Vec<String>>,
        encrypted_content: Option<String>,
        internal_chat_message_metadata_passthrough: Option<Json>,
    },
    FunctionCall {
        id: Option<String>,
        name: String,
        namespace: Option<String>,
        arguments: String,
        call_id: String,
        internal_chat_message_metadata_passthrough: Option<Json>,
    },
    FunctionCallOutput {
        id: Option<String>,
        call_id: String,
        output: String,
        internal_chat_message_metadata_passthrough: Option<Json>,
    },
    CustomToolCall {
        id: Option<String>,
        status: Option<String>,
        call_id: String,
        name: String,
        namespace: Option<String>,
        input: String,
        internal_chat_message_metadata_passthrough: Option<Json>,
    },
    CustomToolCallOutput {
        id: Option<String>,
        call_id: String,
        name: Option<String>,
        output: String,
        internal_chat_message_metadata_passthrough: Option<Json>,
    },
    WebSearchCall {
        id: Option<String>,
        status: Option<String>,
        action: Option<Json>,
        internal_chat_message_metadata_passthrough: Option<Json>,
    },
    Compaction {
        id: Option<String>,
        encrypted_content: String,
        internal_chat_message_metadata_passthrough: Option<Json>,
    },
    /// Any other kind of item (shell calls, tool search, image generation, ...).
    Other,
}

pub enum ContentItemV {
    InputText(Seq<char>),
    InputImage(Seq<char>, Option<ImageDetail>),
    OutputText(Seq<char>),
}

#[allow(inconsistent_fields)]
pub enum ResponseItemV {
    Message {
        id: Option<Seq<char>>,
        role: Seq<char>,
        content: Seq<ContentItemV>,
        phase: Option<MessagePhase>,
        passthrough: Option<JsonV>,
    },
    Reasoning {
        id: Option<Seq<char>>,
        summary: Seq<Seq<char>>,
        content: Option<Seq<Seq<char>>>,
        encrypted_content: Option<Seq<char>>,
        passthrough: Option<JsonV>,
    },
    FunctionCall {
        id: Option<Seq<char>>,
        name: Seq<char>,
        namespace: Option<Seq<char>>,
        arguments: Seq<char>,
        call_id: Seq<char>,
        passthrough: Option<JsonV>,
    },
    FunctionCallOutput {
        id: Option<Seq<char>>,
        call_id: Seq<char>,
        output: Seq<char>,
        passthrough: Option<JsonV>,
    },
    CustomToolCall {
        id: Option<Seq<char>>,
        status: Option<Seq<char>>,
        call_id: Seq<char>,
        name: Seq<char>,
        namespace: Option<Seq<char>>,
        input: Seq<char>,
        passthrough: Option<JsonV>,
    },
    CustomToolCallOutput {
        id: Option<Seq<char>>,
        call_id: Seq<char>,
        name: Option<Seq<char>>,
        output: Seq<char>,
        passthrough: Option<JsonV>,
    },
    WebSearchCall {
        id: Option<Seq<char>>,
        status: Option<Seq<char>>,
        action: Option<JsonV>,
        passthrough: Option<JsonV>,
    },
    Compaction { id: Option<Seq<char>>, encrypted_content: Seq<char>, passthrough: Option<JsonV> },
    Other,
}

pub open spec fn opt_str(o: Option<String>) -> Option<Seq<char>> {
    match o {
        Some(s) => Some(s@),
        None => None,
    }
}

pub open spec fn opt_json(o: Option<Json>) -> Option<JsonV> {
    match o {
        Some(j) => Some(j@),
        None => None,
    }
}

pub open spec fn strs_view(v: Seq<String>) -> Seq<Seq<char>> {
    v.map_values(|s: String| s@)
}

pub open spec fn opt_strs(o: Option<Vec<String>>) -> Option<Seq<Seq<char>>> {
    match o {
        Some(v) => Some(strs_view(v@)),
        None => None,
    }
}

impl View for ContentItem {
    type V = ContentItemV;

    open spec fn view(&self) -> ContentItemV {
        match self {
            ContentItem::InputText { text } => ContentItemV::InputText(text@),
            ContentItem::InputImage { image_url, detail } => ContentItemV::InputImage(
                image_url@,
                *detail,
            ),
            ContentItem::OutputText { text } => ContentItemV::OutputText(text@),
        }
    }
}

pub open spec fn contents_view(v: Seq<ContentItem>) -> Seq<ContentItemV> {
    v.map_values(|c: ContentItem| c@)
}

impl View for ResponseItem {
    type V = ResponseItemV;

    open spec fn view(&self) -> ResponseItemV {
        match self {
            ResponseItem::Message {
                id,
                role,
                content,
                phase,
                internal_chat_message_metadata_passthrough,
            } => ResponseItemV::Message {
                id: opt_str(*id),
                role: role@,
                content: contents_view(content@),
                phase: *phase,
                passthrough: opt_json(*internal_chat_message_metadata_passthrough),
            },
            ResponseItem::Reasoning {
                id,
                summary,
                content,
                encrypted_content,
                internal_chat_message_metadata_passthrough,
            } => ResponseItemV::Reasoning {
                id: opt_str(*id),
                summary: strs_view(summary@),
                content: opt_strs(*content),
                encrypted_content: opt_str(*encrypted_content),
                passthrough: opt_json(*internal_chat_message_metadata_passthrough),
            },
            ResponseItem::FunctionCall {
                id,
                name,
                namespace,
                arguments,
                call_id,
                internal_chat_message_metadata_passthrough,
            } => ResponseItemV::FunctionCall {
                id: opt_str(*id),
                name: name@,
                namespace: opt_str(*namespace),
                arguments: arguments@,
                call_id: call_id@,
                passthrough: opt_json(*internal_chat_message_metadata_passthrough),
            },
            ResponseItem::FunctionCallOutput {
                id,
                call_id,
                output,
                internal_chat_message_metadata_passthrough,
            } => ResponseItemV::FunctionCallOutput {
                id: opt_str(*id),
                call_id: call_id@,
                output: output@,
                passthrough: opt_json(*internal_chat_message_metadata_passthrough),
            },
            ResponseItem::CustomToolCall {
                id,
                status,
                call_id,
                name,
                namespace,
                input,
                internal_chat_message_metadata_passthrough,
            } => ResponseItemV::CustomToolCall {
                id: opt_str(*id),
                status: opt_str(*status),
                call_id: call_id@,
                name: name@,
                namespace: opt_str(*namespace),
                input: input@,
                passthrough: opt_json(*internal_chat_message_metadata_passthrough),
            },
            ResponseItem::CustomToolCallOutput {
                id,
                call_id,
                name,
                output,
                internal_chat_message_metadata_passthrough,
            } => ResponseItemV::CustomToolCallOutput {
                id: opt_str(*id),
                call_id: call_id@,
                name: opt_str(*name),
                output: output@,
                passthrough: opt_json(*internal_chat_message_metadata_passthrough),
            },
            ResponseItem::WebSearchCall {
                id,
                status,
                action,
                internal_chat_message_metadata_passthrough,
            } => ResponseItemV::WebSearchCall {
                id: opt_str(*id),
                status: opt_str(*status),
                action: opt_json(*action),
                passthrough: opt_json(*internal_chat_message_metadata_passthrough),
            },
            ResponseItem::Compaction {
                id,
                encrypted_content,
                internal_chat_message_metadata_passthrough,
            } => ResponseItemV::Compaction {
                id: opt_str(*id),
                encrypted_content: encrypted_content@,
                passthrough: opt_json(*internal_chat_message_metadata_passthrough),
            },
            ResponseItem::Other => ResponseItemV::Other,
        }
    }
}

pub open spec fn items_view(v: Seq<ResponseItem>) -> Seq<ResponseItemV> {
    v.map_values(|i: ResponseItem| i@)
}

impl ResponseItem {
    /// A message whose role is `user`.
    pub fn is_user_message(&self) -> (r: bool)
        ensures
            r == (self@ matches ResponseItemV::Message { role, .. } && role == "user"@),
    {
        match self {
            ResponseItem::Message { role, .. } => *role == String::from_str("user"),
            _ => false,
        }
    }
}

/// What one input item becomes for xAI: developer messages speak as the user, custom tool
/// calls and outputs become function calls and outputs, reasoning is kept only with
/// non-empty encrypted content, and kinds xAI rejects are dropped.
pub open spec fn normalize_item(item: ResponseItemV) -> Option<ResponseItemV> {
    match item {
        ResponseItemV::Message { id, role, content, phase, passthrough } => if role == "developer"@ {
            Some(ResponseItemV::Message { id, role: "user"@, content, phase: None, passthrough })
        } else if role == "user"@ || role == "assistant"@ {
            Some(item)
        } else {
            None
        },
        ResponseItemV::FunctionCall { id, name, namespace, arguments, call_id, passthrough } => Some(
            ResponseItemV::FunctionCall { id, name, namespace: None, arguments, call_id, passthrough },
        ),
        ResponseItemV::FunctionCallOutput { .. } => Some(item),
        ResponseItemV::CustomToolCall { id, status, call_id, name, namespace, input, passthrough } => Some(
            ResponseItemV::FunctionCall {
                id,
                name,
                namespace: None,
                arguments: input,
                call_id,
                passthrough,
            },
        ),
        ResponseItemV::CustomToolCallOutput { id, call_id, name, output, passthrough } => Some(
            ResponseItemV::FunctionCallOutput { id, call_id, output, passthrough },
        ),
        ResponseItemV::Reasoning { id, summary, content, encrypted_content, passthrough } => match encrypted_content {
            Some(e) => if e.len() > 0 {
                Some(
                    ResponseItemV::Reasoning {
                        id: None,
                        summary,
                        content: None,
                        encrypted_content: Some(e),
                        passthrough: None,
                    },
                )
            } else {
                None
            },
            None => None,
        },
        _ => None,
    }
}

/// The input list xAI receives: each item normalized, the dropped ones left out.
pub open spec fn sanitize_input(items: Seq<ResponseItemV>) -> Seq<ResponseItemV> {
    items.filter_map(|i: ResponseItemV| normalize_item(i))
}

fn string_is(s: &String, lit: &str) -> (r: bool)
    ensures
        r == (s@ == lit@),
{
    *s == String::from_str(lit)
}

/// One input item for xAI (see [`normalize_item`]).
pub fn normalize_input_item_for_xai(item: ResponseItem) -> (r: Option<ResponseItem>)
    ensures
        match r {
            Some(x) => normalize_item(item@) == Some(x@),
            None => normalize_item(item@) is None,
        },
{
    match item {
        ResponseItem::Message { id, role, content, phase, internal_chat_message_metadata_passthrough } => {
            if string_is(&role, "developer") {
                Some(
                    ResponseItem::Message {
                        id,
                        role: String::from_str("user"),
                        content,
                        phase: None,
                        internal_chat_message_metadata_passthrough,
                    },
                )
            } else if string_is(&role, "user") || string_is(&role, "assistant") {
                Some(
                    ResponseItem::Message {
                        id,
                        role,
                        content,
                        phase,
                        internal_chat_message_metadata_passthrough,
                    },
                )
            } else {
                None
            }
        },
        ResponseItem::FunctionCall { id, name, namespace, arguments, call_id, internal_chat_message_metadata_passthrough } => Some(
            ResponseItem::FunctionCall {
                id,
                name,
                namespace: None,
                arguments,
                call_id,
                internal_chat_message_metadata_passthrough,
            },
        ),
        ResponseItem::FunctionCallOutput { id, call_id, output, internal_chat_message_metadata_passthrough } => Some(
            ResponseItem::FunctionCallOutput {
                id,
                call_id,
                output,
                internal_chat_message_metadata_passthrough,
            },
        ),
        ResponseItem::CustomToolCall { id, status, call_id, name, namespace, input, internal_chat_message_metadata_passthrough } => Some(
            ResponseItem::FunctionCall {
                id,
                name,
                namespace: None,
                arguments: input,
                call_id,
                internal_chat_message_metadata_passthrough,
            },
        ),
        ResponseItem::CustomToolCallOutput { id, call_id, name, output, internal_chat_message_metadata_passthrough } => Some(
            ResponseItem::FunctionCallOutput {
                id,
                call_id,
                output,
                internal_chat_message_metadata_passthrough,
            },
        ),
        ResponseItem::Reasoning { id, summary, content, encrypted_content, internal_chat_message_metadata_passthrough } => {
            match encrypted_content {
                Some(e) => {
                    if e.as_str().unicode_len() > 0 {
                        Some(
                            ResponseItem::Reasoning {
                                id: None,
                                summary,
                                content: None,
                                encrypted_content: Some(e),
                                internal_chat_message_metadata_passthrough: None,
                            },
                        )
                    } else {
                        None
                    }
                },
                None => None,
            }
        },
        _ => None,
    }
}

proof fn lemma_filter_map_push(items: Seq<ResponseItemV>, x: ResponseItemV)
    ensures
        sanitize_input(items.push(x)) == match normalize_item(x) {
            Some(y) => sanitize_input(items).push(y),
            None => sanitize_input(items),
        },
{
    assert(items.push(x).drop_last() =~= items);
    assert(items.push(x).last() == x);
    match normalize_item(x) {
        Some(y) => {
            assert(sanitize_input(items) + seq![y] =~= sanitize_input(items).push(y));
        },
        None => {},
    }
}

/// The input list for xAI (see [`sanitize_input`]).
pub fn sanitize_input_for_xai(input: Vec<ResponseItem>) -> (r: Vec<ResponseItem>)
    ensures
        items_view(r@) == sanitize_input(items_view(input@)),
{
    let ghost orig = items_view(input@);
    let mut rest = input;
    let mut reversed: Vec<ResponseItem> = Vec::new();
    while rest.len() > 0
        invariant
            items_view(rest@) + items_view(reversed@).reverse() =~= orig,
        decreases rest.len(),
    {
        let x = rest.pop().unwrap();
        proof {
            assert(items_view(rest@.push(x)) =~= items_view(rest@).push(x@));
            assert(items_view(reversed@.push(x)) =~= items_view(reversed@).push(x@));
            assert(items_view(reversed@).push(x@).reverse() =~= seq![x@] + items_view(reversed@).reverse());
        }
        reversed.push(x);
    }
    let mut out: Vec<ResponseItem> = Vec::new();
    let ghost done: Seq<ResponseItemV> = Seq::empty();
    while reversed.len() > 0
        invariant
            done + items_view(reversed@).reverse() =~= orig,
            items_view(out@) == sanitize_input(done),
        decreases reversed.len(),
    {
        let x = reversed.pop().unwrap();
        proof {
            assert(items_view(reversed@.push(x)) =~= items_view(reversed@).push(x@));
            assert(items_view(reversed@).push(x@).reverse() =~= seq![x@] + items_view(reversed@).reverse());
            lemma_filter_map_push(done, x@);
        }
        let ghost xv = x@;
        match normalize_input_item_for_xai(x) {
            Some(y) => {
                proof {
                    assert(items_view(out@.push(y)) =~= items_view(out@).push(y@));
                }
                out.push(y);
            },
            None => {},
        }
        proof {
            done = done.push(xv);
        }
    }
    assert(done =~= orig);
    out
}


pub open spec fn detail_text(d: ImageDetail) -> Seq<char> {
    match d {
        ImageDetail::Auto => "auto"@,
        ImageDetail::Low => "low"@,
        ImageDetail::High => "high"@,
        ImageDetail::Original => "original"@,
    }
}

pub open spec fn phase_text(p: MessagePhase) -> Seq<char> {
    match p {
        MessagePhase::Commentary => "commentary"@,
        MessagePhase::FinalAnswer => "final_answer"@,
    }
}

/// Assistant text is `output_text`, everyone else's `input_text`.
pub open spec fn text_type(role: Seq<char>) -> Seq<char> {
    if role == "assistant"@ {
        "output_text"@
    } else {
        "input_text"@
    }
}

/// One content part on the wire.
pub open spec fn content_wire(role: Seq<char>, c: ContentItemV) -> JsonV {
    match c {
        ContentItemV::InputText(t) => JsonV::Object(
            seq![("type"@, JsonV::Str(text_type(role))), ("text"@, JsonV::Str(t))],
        ),
        ContentItemV::OutputText(t) => JsonV::Object(
            seq![("type"@, JsonV::Str(text_type(role))), ("text"@, JsonV::Str(t))],
        ),
        ContentItemV::InputImage(url, detail) => {
            let base = seq![("type"@, JsonV::Str("input_image"@)), ("image_url"@, JsonV::Str(url))];
            match detail {
                Some(d) => JsonV::Object(base.push(("detail"@, JsonV::Str(detail_text(d))))),
                None => JsonV::Object(base),
            }
        },
    }
}

pub open spec fn contents_wire(role: Seq<char>, cs: Seq<ContentItemV>) -> JsonV {
    JsonV::Array(cs.map_values(|c: ContentItemV| content_wire(role, c)))
}

/// A message on the wire: an assistant message with an id or a phase is a typed, completed
/// `message` (its id only when non-empty); any other message is just role and content.
pub open spec fn message_wire(
    role: Seq<char>,
    content: Seq<ContentItemV>,
    id: Option<Seq<char>>,
    phase: Option<MessagePhase>,
) -> JsonV {
    let wire_content = contents_wire(role, content);
    if role == "assistant"@ && (id is Some || phase is Some) {
        let base = seq![
            ("type"@, JsonV::Str("message"@)),
            ("role"@, JsonV::Str(role)),
            ("status"@, JsonV::Str("completed"@)),
            ("content"@, wire_content),
        ];
        let with_id = match id {
            Some(i) => if i.len() > 0 {
                base.push(("id"@, JsonV::Str(i)))
            } else {
                base
            },
            None => base,
        };
        match phase {
            Some(p) => JsonV::Object(with_id.push(("phase"@, JsonV::Str(phase_text(p))))),
            None => JsonV::Object(with_id),
        }
    } else {
        JsonV::Object(seq![("role"@, JsonV::Str(role)), ("content"@, wire_content)])
    }
}

pub open spec fn summary_wire(summary: Seq<Seq<char>>) -> JsonV {
    JsonV::Array(
        summary.map_values(
            |t: Seq<char>|
                JsonV::Object(seq![("type"@, JsonV::Str("summary_text"@)), ("text"@, JsonV::Str(t))]),
        ),
    )
}

/// An input item on the wire; items without a wire form give nothing.
pub open spec fn item_wire(item: ResponseItemV) -> Option<JsonV> {
    match item {
        ResponseItemV::Message { id, role, content, phase, .. } => Some(
            message_wire(role, content, id, phase),
        ),
        ResponseItemV::FunctionCall { name, arguments, call_id, .. } => Some(
            JsonV::Object(
                seq![
                    ("type"@, JsonV::Str("function_call"@)),
                    ("call_id"@, JsonV::Str(call_id)),
                    ("name"@, JsonV::Str(name)),
                    ("arguments"@, JsonV::Str(arguments)),
                ],
            ),
        ),
        ResponseItemV::FunctionCallOutput { call_id, output, .. } => Some(
            JsonV::Object(
                seq![
                    ("type"@, JsonV::Str("function_call_output"@)),
                    ("call_id"@, JsonV::Str(call_id)),
                    ("output"@, JsonV::Str(output)),
                ],
            ),
        ),
        ResponseItemV::Reasoning { summary, encrypted_content, .. } => match encrypted_content {
            Some(e) => if e.len() > 0 {
                Some(
                    JsonV::Object(
                        seq![
                            ("type"@, JsonV::Str("reasoning"@)),
                            ("encrypted_content"@, JsonV::Str(e)),
                            ("summary"@, summary_wire(summary)),
                        ],
                    ),
                )
            } else {
                None
            },
            None => None,
        },
        _ => None,
    }
}

fn str_value(s: &str) -> (r: Json)
    ensures
        r@ == JsonV::Str(s@),
{
    Json::Str(String::from_str(s))
}

fn text_value(s: &String) -> (r: Json)
    ensures
        r@ == JsonV::Str(s@),
{
    Json::Str(s.clone())
}

fn member(k: &str, v: Json) -> (r: (String, Json))
    ensures
        r.0@ == k@,
        r.1 == v,
{
    (String::from_str(k), v)
}

fn detail_value(d: ImageDetail) -> (r: Json)
    ensures
        r@ == JsonV::Str(detail_text(d)),
{
    match d {
        ImageDetail::Auto => str_value("auto"),
        ImageDetail::Low => str_value("low"),
        ImageDetail::High => str_value("high"),
        ImageDetail::Original => str_value("original"),
    }
}

fn phase_value(p: MessagePhase) -> (r: Json)
    ensures
        r@ == JsonV::Str(phase_text(p)),
{
    match p {
        MessagePhase::Commentary => str_value("commentary"),
        MessagePhase::FinalAnswer => str_value("final_answer"),
    }
}

/// The content parts of a message on the wire.
pub fn content_items_to_xai_wire(role: &String, content: &[ContentItem]) -> (r: Json)
    ensures
        r@ == contents_wire(role@, contents_view(content@)),
{
    let assistant = string_is(role, "assistant");
    let mut out: Vec<Json> = Vec::new();
    let mut i: usize = 0;
    while i < content.len()
        invariant
            i <= content.len(),
            assistant == (role@ == "assistant"@),
            array_view(out@) =~= contents_view(content@.take(i as int)).map_values(
                |c: ContentItemV| content_wire(role@, c),
            ),
        decreases content.len() - i,
    {
        let mut ms: Vec<(String, Json)> = Vec::new();
        match &content[i] {
            ContentItem::InputText { text } => {
                ms.push(member("type", if assistant { str_value("output_text") } else { str_value("input_text") }));
                ms.push(member("text", text_value(text)));
            },
            ContentItem::OutputText { text } => {
                ms.push(member("type", if assistant { str_value("output_text") } else { str_value("input_text") }));
                ms.push(member("text", text_value(text)));
            },
            ContentItem::InputImage { image_url, detail } => {
                ms.push(member("type", str_value("input_image")));
                ms.push(member("image_url", text_value(image_url)));
                match detail {
                    Some(d) => {
                        ms.push(member("detail", detail_value(*d)));
                    },
                    None => {},
                }
            },
        }
        let part = Json::Object(ms);
        proof {
            lemma_members_view(ms@);
            let c = content@[i as int]@;
            match c {
                ContentItemV::InputImage(url, detail) => {
                    let base = seq![("type"@, JsonV::Str("input_image"@)), ("image_url"@, JsonV::Str(url))];
                    match detail {
                        Some(d) => {
                            assert(members_view(ms@) =~= base.push(("detail"@, JsonV::Str(detail_text(d)))));
                        },
                        None => {
                            assert(members_view(ms@) =~= base);
                        },
                    }
                },
                _ => {
                    assert(members_view(ms@) =~= seq![("type"@, JsonV::Str(text_type(role@))), ("text"@, members_view(ms@)[1].1)]);
                },
            }
            assert(part@ == content_wire(role@, c));
            lemma_array_view_push(out@, part);
            assert(contents_view(content@.take(i + 1)) =~= contents_view(content@.take(i as int)).push(c));
        }
        out.push(part);
        i = i + 1;
    }
    assert(content@.take(content.len() as int) =~= content@);
    Json::Array(out)
}


/// A message on the wire (see [`message_wire`]).
pub fn message_to_xai_wire(
    role: &String,
    content: &[ContentItem],
    id: Option<&String>,
    phase: Option<MessagePhase>,
) -> (r: Json)
    ensures
        r@ == message_wire(
            role@,
            contents_view(content@),
            match id {
                Some(i) => Some(i@),
                None => None,
            },
            phase,
        ),
{
    let wire_content = content_items_to_xai_wire(role, content);
    let ghost wc = wire_content@;
    let mut ms: Vec<(String, Json)> = Vec::new();
    if string_is(role, "assistant") && (id.is_some() || phase.is_some()) {
        ms.push(member("type", str_value("message")));
        ms.push(member("role", text_value(role)));
        ms.push(member("status", str_value("completed")));
        ms.push(member("content", wire_content));
        let ghost base = seq![
            ("type"@, JsonV::Str("message"@)),
            ("role"@, JsonV::Str(role@)),
            ("status"@, JsonV::Str("completed"@)),
            ("content"@, wc),
        ];
        proof {
            lemma_members_view(ms@);
            assert(members_view(ms@) =~= base);
        }
        match id {
            Some(i) => {
                if i.as_str().unicode_len() > 0 {
                    let m = member("id", text_value(i));
                    proof {
                        lemma_members_view_push(ms@, m);
                    }
                    ms.push(m);
                }
            },
            None => {},
        }
        match phase {
            Some(p) => {
                let m = member("phase", phase_value(p));
                proof {
                    lemma_members_view_push(ms@, m);
                }
                ms.push(m);
            },
            None => {},
        }
    } else {
        ms.push(member("role", text_value(role)));
        ms.push(member("content", wire_content));
        proof {
            lemma_members_view(ms@);
            assert(members_view(ms@) =~= seq![("role"@, JsonV::Str(role@)), ("content"@, wc)]);
        }
    }
    Json::Object(ms)
}

fn summary_to_wire(summary: &Vec<String>) -> (r: Json)
    ensures
        r@ == summary_wire(strs_view(summary@)),
{
    let mut out: Vec<Json> = Vec::new();
    let mut i: usize = 0;
    while i < summary.len()
        invariant
            i <= summary.len(),
            array_view(out@) =~= strs_view(summary@.take(i as int)).map_values(
                |t: Seq<char>|
                    JsonV::Object(seq![("type"@, JsonV::Str("summary_text"@)), ("text"@, JsonV::Str(t))]),
            ),
        decreases summary.len() - i,
    {
        let mut ms: Vec<(String, Json)> = Vec::new();
        ms.push(member("type", str_value("summary_text")));
        ms.push(member("text", text_value(&summary[i])));
        let part = Json::Object(ms);
        proof {
            lemma_members_view(ms@);
            assert(members_view(ms@) =~= seq![
                ("type"@, JsonV::Str("summary_text"@)),
                ("text"@, JsonV::Str(summary@[i as int]@)),
            ]);
            lemma_array_view_push(out@, part);
            assert(strs_view(summary@.take(i + 1)) =~= strs_view(summary@.take(i as int)).push(
                summary@[i as int]@,
            ));
        }
        out.push(part);
        i = i + 1;
    }
    assert(summary@.take(summary.len() as int) =~= summary@);
    Json::Array(out)
}

/// An input item on the wire (see [`item_wire`]).
pub fn response_item_to_xai_wire_value(item: &ResponseItem) -> (r: Option<Json>)
    ensures
        match r {
            Some(x) => item_wire(item@) == Some(x@),
            None => item_wire(item@) is None,
        },
{
    match item {
        ResponseItem::Message { id, role, content, phase, .. } => {
            let id_ref = match id {
                Some(i) => Some(i),
                None => None,
            };
            Some(message_to_xai_wire(role, content.as_slice(), id_ref, *phase))
        },
        ResponseItem::FunctionCall { name, arguments, call_id, .. } => {
            let mut ms: Vec<(String, Json)> = Vec::new();
            ms.push(member("type", str_value("function_call")));
            ms.push(member("call_id", text_value(call_id)));
            ms.push(member("name", text_value(name)));
            ms.push(member("arguments", text_value(arguments)));
            proof {
                lemma_members_view(ms@);
                assert(members_view(ms@) =~= seq![
                    ("type"@, JsonV::Str("function_call"@)),
                    ("call_id"@, JsonV::Str(call_id@)),
                    ("name"@, JsonV::Str(name@)),
                    ("arguments"@, JsonV::Str(arguments@)),
                ]);
            }
            Some(Json::Object(ms))
        },
        ResponseItem::FunctionCallOutput { call_id, output, .. } => {
            let mut ms: Vec<(String, Json)> = Vec::new();
            ms.push(member("type", str_value("function_call_output")));
            ms.push(member("call_id", text_value(call_id)));
            ms.push(member("output", text_value(output)));
            proof {
                lemma_members_view(ms@);
                assert(members_view(ms@) =~= seq![
                    ("type"@, JsonV::Str("function_call_output"@)),
                    ("call_id"@, JsonV::Str(call_id@)),
                    ("output"@, JsonV::Str(output@)),
                ]);
            }
            Some(Json::Object(ms))
        },
        ResponseItem::Reasoning { summary, encrypted_content, .. } => {
            match encrypted_content {
                Some(e) => {
                    if e.as_str().unicode_len() == 0 {
                        return None;
                    }
                    let mut ms: Vec<(String, Json)> = Vec::new();
                    ms.push(member("type", str_value("reasoning")));
                    ms.push(member("encrypted_content", text_value(e)));
                    ms.push(member("summary", summary_to_wire(summary)));
                    proof {
                        lemma_members_view(ms@);
                        assert(members_view(ms@) =~= seq![
                            ("type"@, JsonV::Str("reasoning"@)),
                            ("encrypted_content"@, JsonV::Str(e@)),
                            ("summary"@, summary_wire(strs_view(summary@))),
                        ]);
                    }
                    Some(Json::Object(ms))
                },
                None => None,
            }
        },
        _ => None,
    }
}


/// An item in the form xAI accepts: a user or assistant message, a function call without a
/// namespace, a function call output, or reasoning that carries only non-empty encrypted
/// content and its summary.
pub open spec fn accepted_by_xai(item: ResponseItemV) -> bool {
    match item {
        ResponseItemV::Message { role, .. } => role == "user"@ || role == "assistant"@,
        ResponseItemV::FunctionCall { namespace, .. } => namespace is None,
        ResponseItemV::FunctionCallOutput { .. } => true,
        ResponseItemV::Reasoning { id, content, encrypted_content, passthrough, .. } => id is None
            && content is None && passthrough is None && (encrypted_content matches Some(e) && e.len() > 0),
        _ => false,
    }
}

proof fn lemma_normalized_accepted(item: ResponseItemV)
    ensures
        normalize_item(item) matches Some(y) ==> accepted_by_xai(y) && normalize_item(y) == Some(y),
{
    reveal_strlit("user");
    reveal_strlit("assistant");
    reveal_strlit("developer");
}

proof fn lemma_sanitized_elements(items: Seq<ResponseItemV>)
    ensures
        forall|i: int| 0 <= i < sanitize_input(items).len() ==> accepted_by_xai(#[trigger] sanitize_input(items)[i])
            && normalize_item(sanitize_input(items)[i]) == Some(sanitize_input(items)[i]),
    decreases items.len(),
{
    if items.len() > 0 {
        let rest = items.drop_last();
        lemma_sanitized_elements(rest);
        assert(rest.push(items.last()) =~= items);
        lemma_filter_map_push(rest, items.last());
        lemma_normalized_accepted(items.last());
    }
}

proof fn lemma_fixed_points_survive(items: Seq<ResponseItemV>)
    requires
        forall|i: int| 0 <= i < items.len() ==> normalize_item(#[trigger] items[i]) == Some(items[i]),
    ensures
        sanitize_input(items) == items,
    decreases items.len(),
{
    if items.len() > 0 {
        let rest = items.drop_last();
        assert forall|i: int| 0 <= i < rest.len() implies normalize_item(#[trigger] rest[i]) == Some(rest[i]) by {
            assert(rest[i] == items[i]);
        }
        lemma_fixed_points_survive(rest);
        assert(rest.push(items.last()) =~= items);
        lemma_filter_map_push(rest, items.last());
        assert(normalize_item(items[items.len() - 1]) == Some(items[items.len() - 1]));
    } else {
        assert(sanitize_input(items) =~= items);
    }
}

/// Everything the input sanitizer keeps is in a form xAI accepts.
pub proof fn law_sanitized_input_is_accepted(items: Seq<ResponseItemV>, i: int)
    requires
        0 <= i < sanitize_input(items).len(),
    ensures
        accepted_by_xai(sanitize_input(items)[i]),
{
    lemma_sanitized_elements(items);
}

/// Sanitizing input that was already sanitized changes nothing.
pub proof fn law_sanitize_input_is_idempotent(items: Seq<ResponseItemV>)
    ensures
        sanitize_input(sanitize_input(items)) == sanitize_input(items),
{
    lemma_sanitized_elements(items);
    lemma_fixed_points_survive(sanitize_input(items));
}

/// Every text part of a message goes to xAI typed by who wrote it: `output_text` in an
/// assistant message (its earlier replies), `input_text` in anyone else's, with its text.
pub proof fn law_wire_text_parts_are_typed_by_role(
    id: Option<Seq<char>>,
    role: Seq<char>,
    content: Seq<ContentItemV>,
    phase: Option<MessagePhase>,
    passthrough: Option<JsonV>,
    k: int,
)
    requires
        0 <= k < content.len(),
        content[k] matches ContentItemV::InputText(_) || content[k] matches ContentItemV::OutputText(_),
    ensures
        ({
            let w = item_wire(ResponseItemV::Message { id, role, content, phase, passthrough });
            &&& w is Some
            &&& field(w->0, "content"@) matches Some(JsonV::Array(parts))
            &&& parts.len() == content.len()
            &&& field(parts[k], "type"@) == Some(
                JsonV::Str(if role == "assistant"@ { "output_text"@ } else { "input_text"@ }),
            )
            &&& field(parts[k], "text"@) == Some(
                JsonV::Str(
                    match content[k] {
                        ContentItemV::InputText(t) => t,
                        ContentItemV::OutputText(t) => t,
                        ContentItemV::InputImage(u, _) => u,
                    },
                ),
            )
        }),
{
    reveal_strlit("type");
    reveal_strlit("role");
    reveal_strlit("status");
    reveal_strlit("content");
    reveal_strlit("text");
    let w = message_wire(role, content, id, phase);
    let parts = content.map_values(|c: ContentItemV| content_wire(role, c));
    match w {
        JsonV::Object(ms) => {
            if role == "assistant"@ && (id is Some || phase is Some) {
                assert(ms.len() >= 4);
                assert(ms[0].0 == "type"@ && ms[1].0 == "role"@ && ms[2].0 == "status"@);
                assert(ms[3] == ("content"@, contents_wire(role, content)));
                assert("type"@ != "content"@ && "role"@ != "content"@ && "status"@ != "content"@);
                assert(key_at(ms, "content"@, 3));
                lemma_member_at(ms, "content"@, 3);
            } else {
                assert(ms[0].0 == "role"@ && ms[1] == ("content"@, contents_wire(role, content)));
                assert("role"@ != "content"@);
                assert(key_at(ms, "content"@, 1));
                lemma_member_at(ms, "content"@, 1);
            }
        },
        _ => {},
    }
    let part = content_wire(role, content[k]);
    assert(parts[k] == part);
    match part {
        JsonV::Object(pm) => {
            assert(key_at(pm, "type"@, 0));
            lemma_member_at(pm, "type"@, 0);
            assert("type"@[1] != "text"@[1]);
            assert("type"@ != "text"@);
            assert(key_at(pm, "text"@, 1));
            lemma_member_at(pm, "text"@, 1);
        },
        _ => {},
    }
}

} // verus!
