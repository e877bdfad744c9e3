//! Prompt cache keys addressed by content.
//!
//! The static request prefix (instructions and tool schemas) is hashed so that recurring
//! jobs with fresh thread or session ids still land in the same provider cache bucket. The
//! thread id is the fallback when there is nothing static to hash.

use vstd::prelude::*;

use sha2::Digest;
use sha2::Sha256;

use crate::json::array_view;
use crate::json::copy_json;
use crate::json::find_member;
use crate::json::json_text;
use crate::json::json_view;
use crate::json::hex_digit;
use crate::json::key_at;
use crate::json::lemma_array_view;
use crate::json::lemma_array_view_push;
use crate::json::lemma_members_view;
use crate::json::lemma_member_at;
use crate::json::member;
use crate::json::members_view;
use crate::json::write_json;
use crate::json::Json;
use crate::json::JsonV;
use crate::text::chars_to_string;
use crate::text::str_to_chars;

verus! {

/// The key a tool is ordered by: the JSON text of its `name`, else of its `type`, else empty.
pub open spec fn tool_sort_key(t: JsonV) -> Seq<char> {
    match t {
        JsonV::Object(ms) => {
            let v = if member(ms, "name"@) is Some {
                member(ms, "name"@)
            } else {
                member(ms, "type"@)
            };
            match v {
                Some(x) => json_text(x),
                None => Seq::empty(),
            }
        },
        _ => Seq::empty(),
    }
}

/// `a <= b` in the order of `String`: lexicographic by character.
pub open spec fn text_le(a: Seq<char>, b: Seq<char>) -> bool
    decreases a.len(),
{
    if a.len() == 0 {
        true
    } else if b.len() == 0 {
        false
    } else if a[0] != b[0] {
        a[0] < b[0]
    } else {
        text_le(a.drop_first(), b.drop_first())
    }
}

/// `x` placed into `sorted` after every tool whose key is not greater than its own.
pub open spec fn insert_tool(sorted: Seq<JsonV>, x: JsonV) -> Seq<JsonV>
    decreases sorted.len(),
{
    if sorted.len() == 0 {
        seq![x]
    } else if text_le(tool_sort_key(sorted.last()), tool_sort_key(x)) {
        sorted.push(x)
    } else {
        insert_tool(sorted.drop_last(), x).push(sorted.last())
    }
}

/// `ts` sorted by [`tool_sort_key`], tools with equal keys in their original order.
pub open spec fn sort_tools(ts: Seq<JsonV>) -> Seq<JsonV>
    decreases ts.len(),
{
    if ts.len() == 0 {
        Seq::empty()
    } else {
        insert_tool(sort_tools(ts.drop_last()), ts.last())
    }
}

/// The text that is hashed: the instructions, a NUL, and the sorted tools as one JSON array.
pub open spec fn cache_key_content(instructions: Seq<char>, tools: Option<Seq<JsonV>>) -> Seq<char> {
    let tools_part = match tools {
        Some(ts) => json_text(JsonV::Array(sort_tools(ts))),
        None => Seq::empty(),
    };
    instructions + seq!['\0'] + tools_part
}

/// The lowercase hexadecimal text of `bytes`, two digits a byte.
pub open spec fn hex_text(bytes: Seq<u8>) -> Seq<char>
    decreases bytes.len(),
{
    if bytes.len() == 0 {
        Seq::empty()
    } else {
        hex_text(bytes.drop_last()) + seq![
            hex_digit((bytes.last() as int) / 16),
            hex_digit((bytes.last() as int) % 16),
        ]
    }
}

/// The SHA-256 digest of the UTF-8 encoding of `s`.
pub uninterp spec fn sha256_utf8(s: Seq<char>) -> Seq<u8>;

/// `Sha256::digest` of the UTF-8 bytes of `s`; the result is the named digest, 32 bytes long.
#[verifier::external_body]
fn sha256_digest(s: &str) -> (r: Vec<u8>)
    ensures
        r@ == sha256_utf8(s@),
        r@.len() == 32,
{
    Sha256::digest(s.as_bytes()).to_vec()
}

/// Whether `a <= b` as strings.
fn text_le_exec(a: &[char], b: &[char]) -> (r: bool)
    ensures
        r == text_le(a@, b@),
{
    let mut i: usize = 0;
    assert(a@.skip(0) =~= a@);
    assert(b@.skip(0) =~= b@);
    while i < a.len() && i < b.len() && a[i] == b[i]
        invariant
            i <= a.len(),
            i <= b.len(),
            text_le(a@, b@) == text_le(a@.skip(i as int), b@.skip(i as int)),
        decreases a.len() - i,
    {
        assert(a@.skip(i as int).drop_first() =~= a@.skip(i + 1));
        assert(b@.skip(i as int).drop_first() =~= b@.skip(i + 1));
        i = i + 1;
    }
    if i == a.len() {
        true
    } else if i == b.len() {
        false
    } else {
        a[i] < b[i]
    }
}

/// The sort key of `tool` as text.
fn tool_sort_key_exec(tool: &Json) -> (r: Vec<char>)
    ensures
        r@ == tool_sort_key(tool@),
{
    let mut out: Vec<char> = Vec::new();
    match tool {
        Json::Object(ms) => {
            proof {
                lemma_members_view(ms@);
            }
            let name = String::from_str("name");
            let ty = String::from_str("type");
            let found = match find_member(ms, &name) {
                Some(i) => Some(i),
                None => find_member(ms, &ty),
            };
            match found {
                Some(i) => {
                    proof {
                        if exists|c: int| key_at(members_view(ms@), "name"@, c) {
                            lemma_member_at(members_view(ms@), "name"@, i as int);
                        } else {
                            lemma_member_at(members_view(ms@), "type"@, i as int);
                        }
                    }
                    write_json(&mut out, &ms[i].1);
                    assert(Seq::<char>::empty() + json_text(json_view(ms@[i as int].1)) =~= json_text(
                        json_view(ms@[i as int].1),
                    ));
                },
                None => {},
            }
        },
        _ => {},
    }
    out
}

proof fn lemma_insert_tool_at(sorted: Seq<JsonV>, x: JsonV, p: int)
    requires
        0 <= p <= sorted.len(),
        p == 0 || text_le(tool_sort_key(sorted[p - 1]), tool_sort_key(x)),
        forall|j: int| p <= j < sorted.len() ==> !text_le(tool_sort_key(sorted[j]), tool_sort_key(x)),
    ensures
        insert_tool(sorted, x) == sorted.take(p).push(x) + sorted.skip(p),
    decreases sorted.len(),
{
    if sorted.len() == 0 {
        assert(sorted.take(p).push(x) + sorted.skip(p) =~= seq![x]);
    } else if p == sorted.len() {
        assert(sorted.take(p).push(x) + sorted.skip(p) =~= sorted.push(x));
    } else {
        let rest = sorted.drop_last();
        lemma_insert_tool_at(rest, x, p);
        assert(sorted.take(p).push(x) + sorted.skip(p) =~= (rest.take(p).push(x) + rest.skip(p)).push(
            sorted.last(),
        ));
    }
}

/// The stable sort of `tools` by key, as the JSON text of an array.
fn sorted_tools_text(tools: &[Json]) -> (r: Vec<char>)
    ensures
        r@ == json_text(JsonV::Array(sort_tools(array_view(tools@)))),
{
    let ghost all = array_view(tools@);
    proof {
        lemma_array_view(tools@);
    }
    let mut keys: Vec<Vec<char>> = Vec::new();
    let mut order: Vec<usize> = Vec::new();
    let mut i: usize = 0;
    while i < tools.len()
        invariant
            i <= tools.len(),
            all == array_view(tools@),
            all.len() == tools.len(),
            forall|t: int| 0 <= t < tools.len() ==> #[trigger] all[t] == json_view(tools@[t]),
            keys.len() == i,
            forall|t: int| 0 <= t < i ==> (#[trigger] keys@[t])@ == tool_sort_key(all[t]),
            forall|t: int| 0 <= t < order.len() ==> (#[trigger] order@[t]) < i,
            order@.map_values(|k: usize| all[k as int]) == sort_tools(all.take(i as int)),
        decreases tools.len() - i,
    {
        let key = tool_sort_key_exec(&tools[i]);
        let mut p: usize = order.len();
        let ghost sorted = order@.map_values(|k: usize| all[k as int]);
        while p > 0 && !text_le_exec(keys[order[p - 1]].as_slice(), key.as_slice())
            invariant
                p <= order.len(),
                i < tools.len(),
                keys.len() == i,
                forall|t: int| 0 <= t < i ==> (#[trigger] keys@[t])@ == tool_sort_key(all[t]),
                forall|t: int| 0 <= t < order.len() ==> (#[trigger] order@[t]) < i,
                sorted == order@.map_values(|k: usize| all[k as int]),
                key@ == tool_sort_key(all[i as int]),
                forall|j: int| p <= j < order.len() ==> !text_le(tool_sort_key(sorted[j]), tool_sort_key(all[i as int])),
            decreases p,
        {
            p = p - 1;
        }
        proof {
            lemma_insert_tool_at(sorted, all[i as int], p as int);
            assert(all.take(i + 1).drop_last() =~= all.take(i as int));
        }
        order.insert(p, i);
        keys.push(key);
        proof {
            assert(order@.map_values(|k: usize| all[k as int]) =~= sorted.take(p as int).push(all[i as int]) + sorted.skip(p as int));
        }
        i = i + 1;
    }
    assert(all.take(tools.len() as int) =~= all);
    let mut sorted_json: Vec<Json> = Vec::new();
    let mut k: usize = 0;
    while k < order.len()
        invariant
            k <= order.len(),
            all.len() == tools.len(),
            forall|t: int| 0 <= t < tools.len() ==> #[trigger] all[t] == json_view(tools@[t]),
            forall|t: int| 0 <= t < order.len() ==> (#[trigger] order@[t]) < tools.len(),
            array_view(sorted_json@) == order@.take(k as int).map_values(|x: usize| all[x as int]),
        decreases order.len() - k,
    {
        let c = copy_json(&tools[order[k]]);
        proof {
            lemma_array_view_push(sorted_json@, c);
            assert(order@.take(k + 1).map_values(|x: usize| all[x as int]) =~= order@.take(k as int).map_values(
                |x: usize| all[x as int],
            ).push(all[order@[k as int] as int]));
        }
        sorted_json.push(c);
        k = k + 1;
    }
    assert(order@.take(order.len() as int) =~= order@);
    let mut out: Vec<char> = Vec::new();
    write_json(&mut out, &Json::Array(sorted_json));
    assert(Seq::<char>::empty() + json_text(JsonV::Array(sort_tools(all))) =~= json_text(
        JsonV::Array(sort_tools(all)),
    ));
    out
}

/// The text that is hashed for a cache key (see [`cache_key_content`]).
pub fn prompt_cache_content(instructions: &str, tools: Option<&[Json]>) -> (r: String)
    ensures
        r@ == cache_key_content(
            instructions@,
            match tools {
                Some(ts) => Some(array_view(ts@)),
                None => None,
            },
        ),
{
    let mut content = str_to_chars(instructions);
    content.push('\0');
    match tools {
        Some(ts) => {
            let part = sorted_tools_text(ts);
            let mut j: usize = 0;
            let ghost before = content@;
            while j < part.len()
                invariant
                    j <= part.len(),
                    content@ == before + part@.take(j as int),
                decreases part.len() - j,
            {
                content.push(part[j]);
                assert(part@.take(j + 1) =~= part@.take(j as int).push(part@[j as int]));
                j = j + 1;
            }
            assert(part@.take(part.len() as int) =~= part@);
        },
        None => {
            assert(content@ + Seq::<char>::empty() =~= content@);
        },
    }
    chars_to_string(&content)
}

/// `pck_` followed by the first 24 hexadecimal digits of `digest`.
pub fn prompt_cache_key_from_digest(digest: &[u8]) -> (r: String)
    ensures
        r@ == "pck_"@ + hex_text(digest@).take(
            if hex_text(digest@).len() < 24 {
                hex_text(digest@).len() as int
            } else {
                24
            },
        ),
{
    let mut hex: Vec<char> = Vec::new();
    let mut i: usize = 0;
    while i < digest.len()
        invariant
            i <= digest.len(),
            hex@ == hex_text(digest@.take(i as int)),
            hex@.len() == 2 * i,
        decreases digest.len() - i,
    {
        let b = digest[i];
        let hi = hex_digit_char(b / 16);
        let lo = hex_digit_char(b % 16);
        hex.push(hi);
        hex.push(lo);
        proof {
            assert(digest@.take(i + 1).drop_last() =~= digest@.take(i as int));
            assert(hex_text(digest@.take(i as int)).push(hi).push(lo) =~= hex_text(digest@.take(i as int)) + seq![hi, lo]);
        }
        i = i + 1;
    }
    assert(digest@.take(digest.len() as int) =~= digest@);
    let n: usize = if hex.len() < 24 {
        hex.len()
    } else {
        24
    };
    let mut key = str_to_chars("pck_");
    proof {
        reveal_strlit("pck_");
    }
    let ghost prefix = key@;
    let mut j: usize = 0;
    while j < n
        invariant
            j <= n,
            n <= hex.len(),
            key@ == prefix + hex@.take(j as int),
        decreases n - j,
    {
        key.push(hex[j]);
        assert(hex@.take(j + 1) =~= hex@.take(j as int).push(hex@[j as int]));
        j = j + 1;
    }
    chars_to_string(&key)
}

fn hex_digit_char(n: u8) -> (c: char)
    requires
        n < 16,
    ensures
        c == hex_digit(n as int),
{
    let digits: [char; 16] = [
        '0', '1', '2', '3', '4', '5', '6', '7', '8', '9', 'a', 'b', 'c', 'd', 'e', 'f',
    ];
    assert(digits@ == seq![
        '0', '1', '2', '3', '4', '5', '6', '7', '8', '9', 'a', 'b', 'c', 'd', 'e', 'f',
    ]);
    digits[n as usize]
}

/// Content-addresses the prompt cache key from instructions and tool JSON: `pck_` and the
/// first 24 hexadecimal digits of the SHA-256 of [`cache_key_content`]; `None` when there are
/// no instructions and no tools.
pub fn content_addressed_prompt_cache_key(instructions: &str, tools: Option<&[Json]>) -> (r: Option<String>)
    ensures
        match r {
            None => !has_content(
                instructions@,
                match tools {
                    Some(ts) => Some(array_view(ts@)),
                    None => None,
                },
            ),
            Some(k) => has_content(
                instructions@,
                match tools {
                    Some(ts) => Some(array_view(ts@)),
                    None => None,
                },
            ) && k@ == content_key(
                instructions@,
                match tools {
                    Some(ts) => Some(array_view(ts@)),
                    None => None,
                },
            ),
        },
{
    let has_instructions = instructions.unicode_len() > 0;
    let has_tools = match tools {
        Some(ts) => ts.len() > 0,
        None => false,
    };
    if !has_instructions && !has_tools {
        proof {
            lemma_array_view_len(tools);
        }
        return None;
    }
    proof {
        lemma_array_view_len(tools);
    }
    let content = prompt_cache_content(instructions, tools);
    let digest = sha256_digest(content.as_str());
    proof {
        lemma_hex_text_len(digest@);
    }
    Some(prompt_cache_key_from_digest(digest.as_slice()))
}

proof fn lemma_array_view_len(tools: Option<&[Json]>)
    ensures
        match tools {
            Some(ts) => array_view(ts@).len() == ts@.len(),
            None => true,
        },
{
    match tools {
        Some(ts) => lemma_array_view(ts@),
        None => {},
    }
}

proof fn lemma_hex_text_len(bytes: Seq<u8>)
    ensures
        hex_text(bytes).len() == 2 * bytes.len(),
    decreases bytes.len(),
{
    if bytes.len() > 0 {
        lemma_hex_text_len(bytes.drop_last());
    }
}


/// What the cache-key policy reads of a model provider.
pub struct ModelProviderInfo {
    /// The provider's API base URL, when configured.
    pub base_url: Option<String>,
    /// The provider is registered as xAI.
    pub xai: bool,
    /// The provider is OpenAI itself.
    pub openai: bool,
}

impl ModelProviderInfo {
    pub fn is_xai(&self) -> (r: bool)
        ensures
            r == self.xai,
    {
        self.xai
    }

    pub fn is_openai(&self) -> (r: bool)
        ensures
            r == self.openai,
    {
        self.openai
    }
}

/// `pat` occurs in `s`.
pub open spec fn contains_text(s: Seq<char>, pat: Seq<char>) -> bool {
    exists|i: int| 0 <= i && i + pat.len() <= s.len() && #[trigger] s.subrange(i, i + pat.len()) == pat
}

fn contains_text_exec(s: &[char], pat: &[char]) -> (r: bool)
    ensures
        r == contains_text(s@, pat@),
{
    if pat.len() > s.len() {
        return false;
    }
    let mut i: usize = 0;
    while i <= s.len() - pat.len()
        invariant
            pat.len() <= s.len(),
            i <= s.len() - pat.len() + 1,
            forall|t: int| 0 <= t < i ==> #[trigger] s@.subrange(t, t + pat.len()) != pat@,
        decreases s.len() - i,
    {
        let mut j: usize = 0;
        while j < pat.len() && s[i + j] == pat[j]
            invariant
                j <= pat.len(),
                i + pat.len() <= s.len(),
                forall|t: int| 0 <= t < j ==> s@[i + t] == pat@[t],
            decreases pat.len() - j,
        {
            j = j + 1;
        }
        if j == pat.len() {
            assert(s@.subrange(i as int, i + pat.len()) =~= pat@);
            return true;
        }
        assert(s@.subrange(i as int, i + pat.len())[j as int] != pat@[j as int]);
        i = i + 1;
    }
    proof {
        assert forall|t: int| 0 <= t && t + pat.len() <= s.len() implies #[trigger] s@.subrange(t, t + pat.len()) != pat@ by {
            assert(t < i);
        }
    }
    false
}

/// The provider is xAI: registered as such, or its base URL points at `api.x.ai`.
pub open spec fn xai_provider(p: ModelProviderInfo) -> bool {
    p.xai || (p.base_url matches Some(u) && contains_text(u@, "api.x.ai"@))
}

/// Whether requests to `provider` go to xAI.
pub fn is_xai_provider(provider: &ModelProviderInfo) -> (r: bool)
    ensures
        r == xai_provider(*provider),
{
    if provider.is_xai() {
        return true;
    }
    match &provider.base_url {
        Some(u) => {
            let cs = str_to_chars(u.as_str());
            let pat = str_to_chars("api.x.ai");
            contains_text_exec(&cs, &pat)
        },
        None => false,
    }
}

/// There is something static to hash: instructions, or at least one tool.
pub open spec fn has_content(instructions: Seq<char>, tools: Option<Seq<JsonV>>) -> bool {
    !(instructions.len() == 0 && (tools is None || tools->0.len() == 0))
}

/// The content-addressed key: `pck_` and the first 24 hexadecimal digits of the digest of
/// [`cache_key_content`].
pub open spec fn content_key(instructions: Seq<char>, tools: Option<Seq<JsonV>>) -> Seq<char> {
    "pck_"@ + hex_text(sha256_utf8(cache_key_content(instructions, tools))).take(24)
}

/// The prompt cache key of a request: the override when given; for xAI and for providers
/// other than OpenAI the content-addressed key when there is content; else the thread id.
pub open spec fn resolved_cache_key(
    provider: ModelProviderInfo,
    instructions: Seq<char>,
    tools: Option<Seq<JsonV>>,
    thread_id: Seq<char>,
    override_key: Option<Seq<char>>,
) -> Seq<char> {
    match override_key {
        Some(k) => k,
        None => if (xai_provider(provider) || !provider.openai) && has_content(instructions, tools) {
            content_key(instructions, tools)
        } else {
            thread_id
        },
    }
}

/// Recurring jobs share a cache bucket: where the key is content-addressed, it does not
/// depend on the thread.
pub proof fn law_cache_key_ignores_thread_id(
    provider: ModelProviderInfo,
    instructions: Seq<char>,
    tools: Option<Seq<JsonV>>,
    thread_a: Seq<char>,
    thread_b: Seq<char>,
)
    requires
        xai_provider(provider) || !provider.openai,
        has_content(instructions, tools),
    ensures
        resolved_cache_key(provider, instructions, tools, thread_a, None) == resolved_cache_key(
            provider,
            instructions,
            tools,
            thread_b,
            None,
        ),
{
}

/// The prompt cache key of a request (see [`resolved_cache_key`]).
pub fn resolve_prompt_cache_key(
    provider: &ModelProviderInfo,
    instructions: &str,
    tools: Option<&[Json]>,
    thread_id: &str,
    override_key: Option<&str>,
) -> (r: String)
    ensures
        r@ == resolved_cache_key(
            *provider,
            instructions@,
            match tools {
                Some(ts) => Some(array_view(ts@)),
                None => None,
            },
            thread_id@,
            match override_key {
                Some(k) => Some(k@),
                None => None,
            },
        ),
{
    if let Some(key) = override_key {
        return String::from_str(key);
    }
    if is_xai_provider(provider) || !provider.is_openai() {
        if let Some(key) = content_addressed_prompt_cache_key(instructions, tools) {
            return key;
        }
    }
    String::from_str(thread_id)
}


proof fn lemma_text_le_total(a: Seq<char>, b: Seq<char>)
    ensures
        text_le(a, b) || text_le(b, a),
    decreases a.len(),
{
    if a.len() > 0 && b.len() > 0 && a[0] == b[0] {
        lemma_text_le_total(a.drop_first(), b.drop_first());
    }
}

proof fn lemma_text_le_antisymmetric(a: Seq<char>, b: Seq<char>)
    requires
        text_le(a, b),
        text_le(b, a),
    ensures
        a == b,
    decreases a.len(),
{
    if a.len() > 0 && b.len() > 0 {
        lemma_text_le_antisymmetric(a.drop_first(), b.drop_first());
        assert(a =~= seq![a[0]] + a.drop_first());
        assert(b =~= seq![b[0]] + b.drop_first());
    } else {
        assert(a =~= b);
    }
}

proof fn lemma_text_le_transitive(a: Seq<char>, b: Seq<char>, c: Seq<char>)
    requires
        text_le(a, b),
        text_le(b, c),
    ensures
        text_le(a, c),
    decreases a.len(),
{
    if a.len() > 0 && b.len() > 0 && c.len() > 0 && a[0] == b[0] && b[0] == c[0] {
        lemma_text_le_transitive(a.drop_first(), b.drop_first(), c.drop_first());
    }
}

/// The tools are in key order.
pub open spec fn sorted_by_key(ts: Seq<JsonV>) -> bool {
    forall|i: int, j: int| 0 <= i < j < ts.len() ==> text_le(tool_sort_key(#[trigger] ts[i]), tool_sort_key(#[trigger] ts[j]))
}

proof fn lemma_insert_tool(sorted: Seq<JsonV>, x: JsonV)
    requires
        sorted_by_key(sorted),
    ensures
        sorted_by_key(insert_tool(sorted, x)),
        insert_tool(sorted, x).to_multiset() == sorted.to_multiset().insert(x),
    decreases sorted.len(),
{
    broadcast use vstd::seq_lib::group_to_multiset_ensures;

    if sorted.len() == 0 {
        assert(seq![x] =~= Seq::<JsonV>::empty().push(x));
    } else {
        let last = sorted.last();
        let rest = sorted.drop_last();
        assert(rest.push(last) =~= sorted);
        if text_le(tool_sort_key(last), tool_sort_key(x)) {
            let r = sorted.push(x);
            assert forall|i: int, j: int| 0 <= i < j < r.len() implies text_le(tool_sort_key(#[trigger] r[i]), tool_sort_key(#[trigger] r[j])) by {
                if j == r.len() - 1 && i < sorted.len() - 1 {
                    assert(text_le(tool_sort_key(sorted[i]), tool_sort_key(sorted[sorted.len() - 1])));
                    lemma_text_le_transitive(tool_sort_key(sorted[i]), tool_sort_key(last), tool_sort_key(x));
                }
            }
        } else {
            lemma_text_le_total(tool_sort_key(last), tool_sort_key(x));
            assert forall|i: int, j: int| 0 <= i < j < rest.len() implies text_le(tool_sort_key(#[trigger] rest[i]), tool_sort_key(#[trigger] rest[j])) by {
                assert(rest[i] == sorted[i] && rest[j] == sorted[j]);
            }
            lemma_insert_tool(rest, x);
            let inner = insert_tool(rest, x);
            let r = inner.push(last);
            assert forall|i: int, j: int| 0 <= i < j < r.len() implies text_le(tool_sort_key(#[trigger] r[i]), tool_sort_key(#[trigger] r[j])) by {
                if j == r.len() - 1 {
                    let e = inner[i];
                    assert(inner.to_multiset().count(e) > 0);
                    if e != x {
                        assert(rest.to_multiset().count(e) > 0);
                        assert(rest.contains(e));
                        let k = choose|k: int| 0 <= k < rest.len() && rest[k] == e;
                        assert(text_le(tool_sort_key(sorted[k]), tool_sort_key(sorted[sorted.len() - 1])));
                    }
                } else {
                    assert(r[i] == inner[i] && r[j] == inner[j]);
                }
            }
        }
    }
}

proof fn lemma_sort_tools(ts: Seq<JsonV>)
    ensures
        sorted_by_key(sort_tools(ts)),
        sort_tools(ts).to_multiset() == ts.to_multiset(),
    decreases ts.len(),
{
    broadcast use vstd::seq_lib::group_to_multiset_ensures;

    if ts.len() == 0 {
        assert(sort_tools(ts) =~= ts);
    } else {
        lemma_sort_tools(ts.drop_last());
        lemma_insert_tool(sort_tools(ts.drop_last()), ts.last());
        assert(ts.drop_last().push(ts.last()) =~= ts);
    }
}

/// No two tools share a sort key.
pub open spec fn keys_distinct(ts: Seq<JsonV>) -> bool {
    forall|i: int, j: int|
        0 <= i < ts.len() && 0 <= j < ts.len() && i != j ==> tool_sort_key(#[trigger] ts[i]) != tool_sort_key(#[trigger] ts[j])
}

proof fn lemma_sorted_unique(a: Seq<JsonV>, b: Seq<JsonV>)
    requires
        sorted_by_key(a),
        sorted_by_key(b),
        a.to_multiset() == b.to_multiset(),
        keys_distinct(a),
    ensures
        a == b,
    decreases a.len(),
{
    broadcast use vstd::seq_lib::group_to_multiset_ensures;

    vstd::seq_lib::to_multiset_len(a);
    vstd::seq_lib::to_multiset_len(b);
    assert(a.len() == b.len());
    if a.len() > 0 {
        let x = a[0];
        let y = b[0];
        assert(b.to_multiset().count(y) > 0);
        assert(a.contains(y));
        let k = choose|k: int| 0 <= k < a.len() && a[k] == y;
        assert(a.to_multiset().count(x) > 0);
        assert(b.contains(x));
        let m = choose|m: int| 0 <= m < b.len() && b[m] == x;
        if k != 0 {
            assert(text_le(tool_sort_key(a[0]), tool_sort_key(a[k])));
        }
        if m != 0 {
            assert(text_le(tool_sort_key(b[0]), tool_sort_key(b[m])));
        }
        lemma_text_le_total(tool_sort_key(x), tool_sort_key(y));
        if k != 0 {
            if m != 0 {
                lemma_text_le_antisymmetric(tool_sort_key(x), tool_sort_key(y));
                assert(tool_sort_key(a[0]) == tool_sort_key(a[k]));
            } else {
                assert(x == y);
            }
        }
        assert(x == y);
        let a1 = a.remove(0);
        let b1 = b.remove(0);
        assert(a1.to_multiset() == b1.to_multiset());
        assert forall|i: int, j: int| 0 <= i < j < a1.len() implies text_le(tool_sort_key(#[trigger] a1[i]), tool_sort_key(#[trigger] a1[j])) by {
            assert(a1[i] == a[i + 1] && a1[j] == a[j + 1]);
        }
        assert forall|i: int, j: int| 0 <= i < j < b1.len() implies text_le(tool_sort_key(#[trigger] b1[i]), tool_sort_key(#[trigger] b1[j])) by {
            assert(b1[i] == b[i + 1] && b1[j] == b[j + 1]);
        }
        assert forall|i: int, j: int| 0 <= i < a1.len() && 0 <= j < a1.len() && i != j implies tool_sort_key(#[trigger] a1[i]) != tool_sort_key(#[trigger] a1[j]) by {
            assert(a1[i] == a[i + 1] && a1[j] == a[j + 1]);
        }
        lemma_sorted_unique(a1, b1);
        assert(a =~= seq![x] + a1);
        assert(b =~= seq![y] + b1);
    }
}

/// The hashed content does not depend on the order of the tools, as long as no two tools
/// share a sort key.
pub proof fn law_tool_order_does_not_change_key_content(instructions: Seq<char>, a: Seq<JsonV>, b: Seq<JsonV>)
    requires
        a.to_multiset() == b.to_multiset(),
        keys_distinct(a),
    ensures
        cache_key_content(instructions, Some(a)) == cache_key_content(instructions, Some(b)),
{
    lemma_sort_tools(a);
    lemma_sort_tools(b);
    let sa = sort_tools(a);
    assert forall|i: int, j: int| 0 <= i < sa.len() && 0 <= j < sa.len() && i != j implies tool_sort_key(#[trigger] sa[i]) != tool_sort_key(#[trigger] sa[j]) by {
        broadcast use vstd::seq_lib::group_to_multiset_ensures;
        if tool_sort_key(sa[i]) == tool_sort_key(sa[j]) {
            assert(sa.to_multiset().count(sa[i]) > 0);
            assert(a.contains(sa[i]));
            assert(sa.to_multiset().count(sa[j]) > 0);
            assert(a.to_multiset().count(sa[j]) > 0);
            assert(a.contains(sa[j]));
            let p = choose|p: int| 0 <= p < a.len() && a[p] == sa[i];
            let q = choose|q: int| 0 <= q < a.len() && a[q] == sa[j];
            if p == q {
                // Two positions of the sorted list hold the same tool: then the tool occurs
                // twice in `a`, and two of its positions share a key.
                assert(sa.remove(i).to_multiset() == sa.to_multiset().remove(sa[i]));
                let k = if j < i { j } else { j - 1 };
                assert(sa.remove(i)[k] == sa[j]);
                assert(sa.remove(i).to_multiset().count(sa[j]) > 0);
                assert(a.to_multiset().count(sa[i]) >= 2);
                let a2 = a.remove(p);
                assert(a2.to_multiset().count(sa[i]) > 0);
                assert(a2.contains(sa[i]));
                let r = choose|r: int| 0 <= r < a2.len() && a2[r] == sa[i];
                let r2 = if r < p { r } else { r + 1 };
                assert(a[r2] == sa[i]);
            }
        }
    }
    lemma_sorted_unique(sa, sort_tools(b));
}

} // verus!
