//! Adapting Codex `/responses` requests for xAI's Grok API.
//!
//! xAI exposes an OpenAI-compatible `/v1/responses` surface but rejects several
//! Codex-specific input item types and tool shapes; these functions strip or convert
//! them before a request is sent.

use vstd::prelude::*;

use crate::json::array_view;
use crate::json::copy_json;
use crate::json::lemma_array_view_push;
use crate::json::lemma_members_view;
use crate::json::lemma_members_view_push;
use crate::json::members_view;
use crate::json::Json;
use crate::json::JsonV;
use crate::text::has_prefix;
use crate::text::starts_with;
use crate::text::str_to_chars;
use crate::text::trim;
use crate::text::trim_string;
use crate::xai_items::item_wire;
use crate::xai_items::items_view;
use crate::xai_items::opt_json;
use crate::xai_items::opt_str;
use crate::xai_items::response_item_to_xai_wire_value;
use crate::xai_items::sanitize_input;
use crate::xai_items::sanitize_input_for_xai;
use crate::xai_items::strs_view;
use crate::xai_items::ResponseItem;
use crate::xai_items::ResponseItemV;
use crate::xai_tools::sanitize_tools;
use crate::xai_tools::sanitize_tools_for_xai;

verus! {

/// How hard a reasoning model is asked to think.
#[derive(Clone, Copy, Debug, PartialEq, Eq, Structural)]
pub enum ReasoningEffort {
    Off,
    Minimal,
    Low,
    Medium,
    High,
    XHigh,
}

/// Reasoning controls of a request.
#[derive(Debug, PartialEq)]
pub struct Reasoning {
    pub effort: Option<ReasoningEffort>,
    pub summary: Option<String>,
    pub context: Option<String>,
}

/// A request to the `/responses` endpoint.
#[derive(Debug, PartialEq)]
pub struct ResponsesApiRequest {
    pub model: String,
    pub instructions: String,
    pub input: Vec<ResponseItem>,
    pub tools: Option<Vec<Json>>,
    pub tool_choice: String,
    pub parallel_tool_calls: bool,
    pub reasoning: Option<Reasoning>,
    pub store: bool,
    pub stream: bool,
    pub includes: Vec<String>,
    pub service_tier: Option<String>,
    pub prompt_cache_key: Option<String>,
    pub text: Option<Json>,
    pub client_metadata: Option<Json>,
}

/// What `str::to_lowercase` returns for `s` (Unicode lowercase mapping).
pub uninterp spec fn unicode_lowercase(s: Seq<char>) -> Seq<char>;

/// `str::to_lowercase`; the result is the named Unicode lowercase mapping of `s`.
#[verifier::external_body]
fn to_lowercase(s: &str) -> (r: String)
    ensures
        r@ == unicode_lowercase(s@),
{
    s.to_lowercase()
}

/// `i` is the position of the last `/` in `s`.
pub open spec fn last_slash_at(s: Seq<char>, i: int) -> bool {
    &&& 0 <= i < s.len()
    &&& s[i] == '/'
    &&& forall|j: int| i < j < s.len() ==> s[j] != '/'
}

/// The part of a model name after its last `/` (all of it when there is none).
pub open spec fn model_slug(name: Seq<char>) -> Seq<char> {
    if exists|i: int| last_slash_at(name, i) {
        name.subrange((choose|i: int| last_slash_at(name, i)) + 1, name.len() as int)
    } else {
        name
    }
}

/// The model families whose API takes a `reasoning.effort` dial.
pub open spec fn slug_supports_reasoning_effort(slug: Seq<char>) -> bool {
    ||| starts_with(slug, "grok-3-mini"@)
    ||| starts_with(slug, "grok-4.20-multi-agent"@)
    ||| starts_with(slug, "grok-4.3"@)
}

/// Whether the lowercased, trimmed model name `name` (a provider prefix such as `xai/` is
/// allowed) belongs to a family that accepts a `reasoning.effort` dial.
pub fn name_supports_reasoning_effort(name: &str) -> (r: bool)
    ensures
        r == slug_supports_reasoning_effort(model_slug(name@)),
{
    let cs = str_to_chars(name);
    let mut i: usize = cs.len();
    while i > 0 && cs[i - 1] != '/'
        invariant
            i <= cs.len(),
            cs@ == name@,
            forall|j: int| i <= j < cs.len() ==> cs@[j] != '/',
        decreases i,
    {
        i = i - 1;
    }
    let mut slug: Vec<char> = Vec::new();
    let mut k: usize = i;
    while k < cs.len()
        invariant
            i <= k <= cs.len(),
            slug@ == cs@.subrange(i as int, k as int),
        decreases cs.len() - k,
    {
        slug.push(cs[k]);
        k = k + 1;
    }
    proof {
        if i > 0 {
            assert(last_slash_at(name@, i - 1));
            let c = choose|c: int| last_slash_at(name@, c);
            if c < i - 1 {
                assert(name@[i - 1] != '/');
            }
            if c > i - 1 {
                assert(name@[c] != '/');
            }
        } else {
            assert(!exists|c: int| last_slash_at(name@, c));
            assert(slug@ =~= name@);
        }
    }
    let a = str_to_chars("grok-3-mini");
    let b = str_to_chars("grok-4.20-multi-agent");
    let c = str_to_chars("grok-4.3");
    has_prefix(&slug, &a) || has_prefix(&slug, &b) || has_prefix(&slug, &c)
}

/// Returns whether the Grok model accepts a `reasoning.effort` dial: the model name is
/// trimmed and lowercased, a provider prefix up to the last `/` is dropped, and the rest
/// must start with `grok-3-mini`, `grok-4.20-multi-agent` or `grok-4.3`.
pub fn grok_supports_reasoning_effort(model: &str) -> (r: bool)
    ensures
        r == slug_supports_reasoning_effort(model_slug(unicode_lowercase(trim(model@)))),
{
    let trimmed = trim_string(model);
    let lowered = to_lowercase(trimmed.as_str());
    name_supports_reasoning_effort(lowered.as_str())
}

/// The reasoning controls sent to xAI: the configured effort for a model that takes one.
pub fn build_xai_reasoning(model: &str, effort: Option<ReasoningEffort>) -> (r: Option<Reasoning>)
    ensures
        match r {
            Some(x) => slug_supports_reasoning_effort(
                model_slug(unicode_lowercase(trim(model@))),
            ) && effort is Some && x.effort == effort && x.summary is None && x.context is None,
            None => !slug_supports_reasoning_effort(model_slug(unicode_lowercase(trim(model@))))
                || effort is None,
        },
{
    if !grok_supports_reasoning_effort(model) {
        return None;
    }
    match effort {
        Some(e) => Some(Reasoning { effort: Some(e), summary: None, context: None }),
        None => None,
    }
}

/// The `include` list that asks for encrypted reasoning, always requested from xAI when
/// reasoning is enabled.
pub fn xai_reasoning_include() -> (r: Vec<String>)
    ensures
        strs_view(r@) == seq!["reasoning.encrypted_content"@],
{
    let mut v: Vec<String> = Vec::new();
    v.push(String::from_str("reasoning.encrypted_content"));
    assert(strs_view(v@) =~= seq!["reasoning.encrypted_content"@]);
    v
}


/// The request as xAI takes it: input items normalized, tools converted (none when no tool
/// is left, and then no `tool_choice` either), nothing stored, no service tier.
pub fn adapt_responses_request(request: &mut ResponsesApiRequest)
    ensures
        items_view(final(request).input@) == sanitize_input(items_view(old(request).input@)),
        match old(request).tools {
            Some(ts) => if sanitize_tools(array_view(ts@)).len() > 0 {
                final(request).tools matches Some(nt) && array_view(nt@) == sanitize_tools(
                    array_view(ts@),
                )
            } else {
                final(request).tools is None
            },
            None => final(request).tools is None,
        },
        final(request).tool_choice@ == if final(request).tools is Some {
            old(request).tool_choice@
        } else {
            Seq::empty()
        },
        !final(request).store,
        final(request).service_tier is None,
        final(request).model == old(request).model,
        final(request).instructions == old(request).instructions,
        final(request).parallel_tool_calls == old(request).parallel_tool_calls,
        final(request).reasoning == old(request).reasoning,
        final(request).stream == old(request).stream,
        final(request).includes == old(request).includes,
        final(request).prompt_cache_key == old(request).prompt_cache_key,
        final(request).text == old(request).text,
        final(request).client_metadata == old(request).client_metadata,
{
    let mut input: Vec<ResponseItem> = Vec::new();
    std::mem::swap(&mut input, &mut request.input);
    request.input = sanitize_input_for_xai(input);
    let tools = request.tools.take();
    request.tools = match tools {
        Some(ts) => {
            let sanitized = sanitize_tools_for_xai(ts.as_slice());
            if sanitized.len() > 0 {
                Some(sanitized)
            } else {
                None
            }
        },
        None => None,
    };
    if request.tools.is_none() {
        request.tool_choice = String::new();
    }
    request.store = false;
    request.service_tier = None;
}

pub open spec fn effort_text(e: ReasoningEffort) -> Seq<char> {
    match e {
        ReasoningEffort::Off => "none"@,
        ReasoningEffort::Minimal => "minimal"@,
        ReasoningEffort::Low => "low"@,
        ReasoningEffort::Medium => "medium"@,
        ReasoningEffort::High => "high"@,
        ReasoningEffort::XHigh => "xhigh"@,
    }
}

/// `ms` with `k: v` appended when `v` is present.
pub open spec fn push_some(ms: Seq<(Seq<char>, JsonV)>, k: Seq<char>, v: Option<JsonV>) -> Seq<
    (Seq<char>, JsonV),
> {
    match v {
        Some(x) => ms.push((k, x)),
        None => ms,
    }
}

pub open spec fn opt_text(o: Option<String>) -> Option<JsonV> {
    match o {
        Some(s) => Some(JsonV::Str(s@)),
        None => None,
    }
}

/// The reasoning controls as a JSON object; absent fields are left out.
pub open spec fn reasoning_body(r: Reasoning) -> JsonV {
    let effort = match r.effort {
        Some(e) => Some(JsonV::Str(effort_text(e))),
        None => None,
    };
    JsonV::Object(
        push_some(
            push_some(push_some(Seq::empty(), "effort"@, effort), "summary"@, opt_text(r.summary)),
            "context"@,
            opt_text(r.context),
        ),
    )
}

/// The input items in xAI's wire format, those without one left out.
pub open spec fn wire_input(items: Seq<ResponseItemV>) -> Seq<JsonV> {
    items.filter_map(|i: ResponseItemV| item_wire(i))
}

/// The request body sent to xAI: model, instructions, the input in wire form, then the tools
/// with `parallel_tool_calls` when there are tools, `tool_choice` when it is set, the
/// reasoning controls, `store`, `stream`, `include`, and the optional fields that are present.
pub open spec fn request_body(req: ResponsesApiRequest) -> JsonV {
    let m0 = seq![
        ("model"@, JsonV::Str(req.model@)),
        ("instructions"@, JsonV::Str(req.instructions@)),
        ("input"@, JsonV::Array(wire_input(items_view(req.input@)))),
    ];
    let m1 = match req.tools {
        Some(ts) => m0.push(("tools"@, JsonV::Array(array_view(ts@)))),
        None => m0,
    };
    let m2 = if req.tool_choice@.len() > 0 {
        m1.push(("tool_choice"@, JsonV::Str(req.tool_choice@)))
    } else {
        m1
    };
    let m3 = if req.tools is Some {
        m2.push(("parallel_tool_calls"@, JsonV::Bool(req.parallel_tool_calls)))
    } else {
        m2
    };
    let m4 = match req.reasoning {
        Some(r) => m3.push(("reasoning"@, reasoning_body(r))),
        None => m3,
    };
    let m5 = m4.push(("store"@, JsonV::Bool(req.store))).push(
        ("stream"@, JsonV::Bool(req.stream)),
    ).push(
        ("include"@, JsonV::Array(strs_view(req.includes@).map_values(|s: Seq<char>| JsonV::Str(s)))),
    );
    let m6 = push_some(m5, "service_tier"@, opt_text(req.service_tier));
    let m7 = push_some(m6, "prompt_cache_key"@, opt_text(req.prompt_cache_key));
    let m8 = push_some(m7, "text"@, opt_json(req.text));
    JsonV::Object(push_some(m8, "client_metadata"@, opt_json(req.client_metadata)))
}

fn push_member(ms: &mut Vec<(String, Json)>, k: &str, v: Json)
    ensures
        members_view(final(ms)@) == members_view(old(ms)@).push((k@, v@)),
{
    let m = (String::from_str(k), v);
    proof {
        lemma_members_view_push(ms@, m);
    }
    ms.push(m);
}

fn push_opt_text(ms: &mut Vec<(String, Json)>, k: &str, v: &Option<String>)
    ensures
        members_view(final(ms)@) == push_some(members_view(old(ms)@), k@, opt_text(*v)),
{
    match v {
        Some(s) => push_member(ms, k, Json::Str(s.clone())),
        None => {},
    }
}

fn push_opt_json(ms: &mut Vec<(String, Json)>, k: &str, v: &Option<Json>)
    ensures
        members_view(final(ms)@) == push_some(members_view(old(ms)@), k@, opt_json(*v)),
{
    match v {
        Some(j) => push_member(ms, k, copy_json(j)),
        None => {},
    }
}

fn effort_value(e: ReasoningEffort) -> (r: Json)
    ensures
        r@ == JsonV::Str(effort_text(e)),
{
    let t = match e {
        ReasoningEffort::Off => "none",
        ReasoningEffort::Minimal => "minimal",
        ReasoningEffort::Low => "low",
        ReasoningEffort::Medium => "medium",
        ReasoningEffort::High => "high",
        ReasoningEffort::XHigh => "xhigh",
    };
    Json::Str(String::from_str(t))
}

fn reasoning_to_json(r: &Reasoning) -> (j: Json)
    ensures
        j@ == reasoning_body(*r),
{
    let mut ms: Vec<(String, Json)> = Vec::new();
    proof {
        let e: Seq<(String, Json)> = Seq::empty();
        assert(ms@ =~= e);
    }
    match r.effort {
        Some(e) => push_member(&mut ms, "effort", effort_value(e)),
        None => {},
    }
    push_opt_text(&mut ms, "summary", &r.summary);
    push_opt_text(&mut ms, "context", &r.context);
    Json::Object(ms)
}

fn copy_array(v: &Vec<Json>) -> (r: Vec<Json>)
    ensures
        array_view(r@) == array_view(v@),
{
    let mut out: Vec<Json> = Vec::new();
    let mut i: usize = 0;
    while i < v.len()
        invariant
            i <= v.len(),
            array_view(out@) == array_view(v@.take(i as int)),
        decreases v.len() - i,
    {
        let c = copy_json(&v[i]);
        proof {
            lemma_array_view_push(out@, c);
            lemma_array_view_push(v@.take(i as int), v@[i as int]);
            assert(v@.take(i as int).push(v@[i as int]) =~= v@.take(i + 1));
        }
        out.push(c);
        i = i + 1;
    }
    assert(v@.take(v.len() as int) =~= v@);
    out
}

proof fn lemma_wire_input_push(items: Seq<ResponseItemV>, x: ResponseItemV)
    ensures
        wire_input(items.push(x)) == match item_wire(x) {
            Some(y) => wire_input(items).push(y),
            None => wire_input(items),
        },
{
    assert(items.push(x).drop_last() =~= items);
    assert(items.push(x).last() == x);
    match item_wire(x) {
        Some(y) => {
            assert(wire_input(items) + seq![y] =~= wire_input(items).push(y));
        },
        None => {},
    }
}

fn input_to_wire(input: &Vec<ResponseItem>) -> (r: Vec<Json>)
    ensures
        array_view(r@) == wire_input(items_view(input@)),
{
    let mut out: Vec<Json> = Vec::new();
    let mut i: usize = 0;
    while i < input.len()
        invariant
            i <= input.len(),
            array_view(out@) == wire_input(items_view(input@.take(i as int))),
        decreases input.len() - i,
    {
        proof {
            assert(items_view(input@.take(i + 1)) =~= items_view(input@.take(i as int)).push(
                input@[i as int]@,
            ));
            lemma_wire_input_push(items_view(input@.take(i as int)), input@[i as int]@);
        }
        match response_item_to_xai_wire_value(&input[i]) {
            Some(w) => {
                proof {
                    lemma_array_view_push(out@, w);
                }
                out.push(w);
            },
            None => {},
        }
        i = i + 1;
    }
    assert(input@.take(input.len() as int) =~= input@);
    out
}

fn strings_to_json(v: &Vec<String>) -> (r: Json)
    ensures
        r@ == JsonV::Array(strs_view(v@).map_values(|s: Seq<char>| JsonV::Str(s))),
{
    let mut out: Vec<Json> = Vec::new();
    let mut i: usize = 0;
    while i < v.len()
        invariant
            i <= v.len(),
            array_view(out@) =~= strs_view(v@.take(i as int)).map_values(|s: Seq<char>| JsonV::Str(s)),
        decreases v.len() - i,
    {
        let c = Json::Str(v[i].clone());
        proof {
            lemma_array_view_push(out@, c);
            assert(strs_view(v@.take(i + 1)) =~= strs_view(v@.take(i as int)).push(v@[i as int]@));
        }
        out.push(c);
        i = i + 1;
    }
    assert(v@.take(v.len() as int) =~= v@);
    Json::Array(out)
}

/// The body of `request` in xAI's wire format (see [`request_body`]).
pub fn encode_responses_request_for_xai(request: &ResponsesApiRequest) -> (r: Json)
    ensures
        r@ == request_body(*request),
{
    let mut ms: Vec<(String, Json)> = Vec::new();
    push_member(&mut ms, "model", Json::Str(request.model.clone()));
    push_member(&mut ms, "instructions", Json::Str(request.instructions.clone()));
    push_member(&mut ms, "input", Json::Array(input_to_wire(&request.input)));
    proof {
        lemma_members_view(ms@);
        assert(members_view(ms@) =~= seq![
            ("model"@, JsonV::Str(request.model@)),
            ("instructions"@, JsonV::Str(request.instructions@)),
            ("input"@, JsonV::Array(wire_input(items_view(request.input@)))),
        ]);
    }
    match &request.tools {
        Some(ts) => push_member(&mut ms, "tools", Json::Array(copy_array(ts))),
        None => {},
    }
    if request.tool_choice.as_str().unicode_len() > 0 {
        push_member(&mut ms, "tool_choice", Json::Str(request.tool_choice.clone()));
    }
    if request.tools.is_some() {
        push_member(&mut ms, "parallel_tool_calls", Json::Bool(request.parallel_tool_calls));
    }
    match &request.reasoning {
        Some(r) => push_member(&mut ms, "reasoning", reasoning_to_json(r)),
        None => {},
    }
    push_member(&mut ms, "store", Json::Bool(request.store));
    push_member(&mut ms, "stream", Json::Bool(request.stream));
    push_member(&mut ms, "include", strings_to_json(&request.includes));
    push_opt_text(&mut ms, "service_tier", &request.service_tier);
    push_opt_text(&mut ms, "prompt_cache_key", &request.prompt_cache_key);
    push_opt_json(&mut ms, "text", &request.text);
    push_opt_json(&mut ms, "client_metadata", &request.client_metadata);
    Json::Object(ms)
}

} // verus!
