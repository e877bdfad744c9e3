//! Tool definitions as xAI's Grok `/responses` API accepts them.

use vstd::prelude::*;

use crate::json::array_view;
use crate::json::copy_json;
use crate::json::field;
use crate::json::find_member;
use crate::json::get;
use crate::json::get_str;
use crate::json::has_member;
use crate::json::json_view;
use crate::json::key_at;
use crate::json::lemma_array_view;
use crate::json::lemma_array_view_push;
use crate::json::lemma_key_at_unique;
use crate::json::lemma_member_at;
use crate::json::lemma_members_view;
use crate::json::lemma_members_view_push;
use crate::json::member;
use crate::json::members_view;
use crate::json::set_member;
use crate::json::str_of;
use crate::json::with_member;
use crate::json::without;
use crate::json::without_member;
use crate::json::Json;
use crate::json::JsonV;
use crate::text::str_to_chars;
use crate::text::trim;
use crate::text::trim_string;

verus! {

/// `s` contains the character `c`.
pub open spec fn contains_char(s: Seq<char>, c: char) -> bool {
    exists|i: int| 0 <= i < s.len() && s[i] == c
}

/// An object that declares a JSON schema: it has `type`, `anyOf`, `oneOf` or `allOf`.
pub open spec fn is_schema_node(ms: Seq<(Seq<char>, JsonV)>) -> bool {
    ||| has_member(ms, "type"@)
    ||| has_member(ms, "anyOf"@)
    ||| has_member(ms, "oneOf"@)
    ||| has_member(ms, "allOf"@)
}

/// The object's `enum` is an array with a string that contains `/`.
pub open spec fn has_slash_enum(ms: Seq<(Seq<char>, JsonV)>) -> bool {
    match member(ms, "enum"@) {
        Some(JsonV::Array(xs)) => exists|i: int|
            0 <= i < xs.len() && (#[trigger] xs[i] matches JsonV::Str(s) && contains_char(s, '/')),
        _ => false,
    }
}

/// A schema node loses `pattern` and `format`, and `enum` when one of its strings holds `/`.
pub open spec fn prune_schema(ms: Seq<(Seq<char>, JsonV)>) -> Seq<(Seq<char>, JsonV)> {
    if is_schema_node(ms) {
        let kept = without(without(ms, "pattern"@), "format"@);
        if has_slash_enum(kept) {
            without(kept, "enum"@)
        } else {
            kept
        }
    } else {
        ms
    }
}

/// `j` with every schema node at any depth pruned.
pub open spec fn strip_schema(j: JsonV) -> JsonV
    decreases j,
{
    match j {
        JsonV::Object(ms) => JsonV::Object(prune_schema(strip_members(ms))),
        JsonV::Array(xs) => JsonV::Array(strip_items(xs)),
        _ => j,
    }
}

pub open spec fn strip_members(ms: Seq<(Seq<char>, JsonV)>) -> Seq<(Seq<char>, JsonV)>
    decreases ms,
{
    if ms.len() == 0 {
        Seq::empty()
    } else {
        strip_members(ms.drop_last()).push((ms.last().0, strip_schema(ms.last().1)))
    }
}

pub open spec fn strip_items(xs: Seq<JsonV>) -> Seq<JsonV>
    decreases xs,
{
    if xs.len() == 0 {
        Seq::empty()
    } else {
        strip_items(xs.drop_last()).push(strip_schema(xs.last()))
    }
}


/// No schema node at any depth of `j` has a `format` or a `pattern` member, or an `enum`
/// with a string that holds `/`.
pub open spec fn schemas_free(j: JsonV) -> bool
    decreases j,
{
    match j {
        JsonV::Object(ms) => (is_schema_node(ms) ==> !has_member(ms, "format"@) && !has_member(ms, "pattern"@)
            && !has_slash_enum(ms)) && members_free(ms),
        JsonV::Array(xs) => items_free(xs),
        _ => true,
    }
}

pub open spec fn members_free(ms: Seq<(Seq<char>, JsonV)>) -> bool
    decreases ms,
{
    if ms.len() == 0 {
        true
    } else {
        members_free(ms.drop_last()) && schemas_free(ms.last().1)
    }
}

pub open spec fn items_free(xs: Seq<JsonV>) -> bool
    decreases xs,
{
    if xs.len() == 0 {
        true
    } else {
        items_free(xs.drop_last()) && schemas_free(xs.last())
    }
}

proof fn lemma_members_free_iff(ms: Seq<(Seq<char>, JsonV)>)
    ensures
        members_free(ms) <==> forall|i: int| 0 <= i < ms.len() ==> schemas_free(#[trigger] ms[i].1),
    decreases ms.len(),
{
    if ms.len() > 0 {
        lemma_members_free_iff(ms.drop_last());
        if forall|i: int| 0 <= i < ms.len() ==> schemas_free(#[trigger] ms[i].1) {
            assert forall|i: int| 0 <= i < ms.drop_last().len() implies schemas_free(#[trigger] ms.drop_last()[i].1) by {
                assert(ms.drop_last()[i] == ms[i]);
            }
            assert(schemas_free(ms[ms.len() - 1].1));
        }
        if members_free(ms) {
            assert forall|i: int| 0 <= i < ms.len() implies schemas_free(#[trigger] ms[i].1) by {
                if i < ms.len() - 1 {
                    assert(ms.drop_last()[i] == ms[i]);
                }
            }
        }
    }
}

proof fn lemma_items_free_iff(xs: Seq<JsonV>)
    ensures
        items_free(xs) <==> forall|i: int| 0 <= i < xs.len() ==> schemas_free(#[trigger] xs[i]),
    decreases xs.len(),
{
    if xs.len() > 0 {
        lemma_items_free_iff(xs.drop_last());
        if forall|i: int| 0 <= i < xs.len() ==> schemas_free(#[trigger] xs[i]) {
            assert forall|i: int| 0 <= i < xs.drop_last().len() implies schemas_free(#[trigger] xs.drop_last()[i]) by {
                assert(xs.drop_last()[i] == xs[i]);
            }
            assert(schemas_free(xs[xs.len() - 1]));
        }
        if items_free(xs) {
            assert forall|i: int| 0 <= i < xs.len() implies schemas_free(#[trigger] xs[i]) by {
                if i < xs.len() - 1 {
                    assert(xs.drop_last()[i] == xs[i]);
                }
            }
        }
    }
}

proof fn lemma_without_sub(ms: Seq<(Seq<char>, JsonV)>, k: Seq<char>)
    ensures
        forall|i: int| 0 <= i < without(ms, k).len() ==> (#[trigger] without(ms, k)[i]).0 != k && ms.contains(
            without(ms, k)[i],
        ),
    decreases ms.len(),
{
    if ms.len() > 0 {
        lemma_without_sub(ms.drop_last(), k);
        let w = without(ms, k);
        let r = without(ms.drop_last(), k);
        assert forall|i: int| 0 <= i < w.len() implies (#[trigger] w[i]).0 != k && ms.contains(w[i]) by {
            if i < r.len() {
                assert(w[i] == r[i]);
                let j = choose|j: int| 0 <= j < ms.drop_last().len() && ms.drop_last()[j] == r[i];
                assert(ms[j] == r[i]);
            } else {
                assert(w[i] == ms.last());
                assert(ms[ms.len() - 1] == w[i]);
            }
        }
    }
}

proof fn lemma_strip_members_free(ms: Seq<(Seq<char>, JsonV)>)
    ensures
        forall|i: int| 0 <= i < strip_members(ms).len() ==> schemas_free(#[trigger] strip_members(ms)[i].1),
    decreases ms,
{
    if ms.len() > 0 {
        lemma_strip_members_free(ms.drop_last());
        lemma_strip_free(ms.last().1);
        let sm = strip_members(ms);
        let r = strip_members(ms.drop_last());
        assert forall|i: int| 0 <= i < sm.len() implies schemas_free(#[trigger] sm[i].1) by {
            if i < r.len() {
                assert(sm[i] == r[i]);
            } else {
                assert(sm[i].1 == strip_schema(ms.last().1));
            }
        }
    }
}

proof fn lemma_strip_items_free(xs: Seq<JsonV>)
    ensures
        forall|i: int| 0 <= i < strip_items(xs).len() ==> schemas_free(#[trigger] strip_items(xs)[i]),
    decreases xs,
{
    if xs.len() > 0 {
        lemma_strip_items_free(xs.drop_last());
        lemma_strip_free(xs.last());
        let sx = strip_items(xs);
        let r = strip_items(xs.drop_last());
        assert forall|i: int| 0 <= i < sx.len() implies schemas_free(#[trigger] sx[i]) by {
            if i < r.len() {
                assert(sx[i] == r[i]);
            }
        }
    }
}

proof fn lemma_strip_free(j: JsonV)
    ensures
        schemas_free(strip_schema(j)),
    decreases j,
{
    match j {
        JsonV::Object(ms) => {
            lemma_strip_members_free(ms);
            let sm = strip_members(ms);
            let pr = prune_schema(sm);
            assert forall|i: int| 0 <= i < pr.len() implies schemas_free(#[trigger] pr[i].1) by {
                if is_schema_node(sm) {
                    let a = without(sm, "pattern"@);
                    let b = without(a, "format"@);
                    lemma_without_sub(sm, "pattern"@);
                    lemma_without_sub(a, "format"@);
                    lemma_without_sub(b, "enum"@);
                    let p = pr[i];
                    if has_slash_enum(b) {
                        assert(without(b, "enum"@)[i] == p);
                        assert(b.contains(p));
                    } else {
                        assert(b[i] == p);
                        assert(b.contains(p));
                    }
                    let t = choose|t: int| 0 <= t < b.len() && b[t] == p;
                    assert(a.contains(p));
                    let u = choose|u: int| 0 <= u < a.len() && a[u] == p;
                    assert(sm.contains(p));
                    let v = choose|v: int| 0 <= v < sm.len() && sm[v] == p;
                    assert(schemas_free(sm[v].1));
                } else {
                    assert(pr[i] == sm[i]);
                }
            }
            lemma_members_free_iff(pr);
            if is_schema_node(sm) {
                let a = without(sm, "pattern"@);
                let b = without(a, "format"@);
                lemma_without_sub(sm, "pattern"@);
                lemma_without_sub(a, "format"@);
                lemma_without_sub(b, "enum"@);
                assert forall|i: int| 0 <= i < pr.len() implies (#[trigger] pr[i]).0 != "format"@ && pr[i].0 != "pattern"@ by {
                    let p = pr[i];
                    if has_slash_enum(b) {
                        assert(without(b, "enum"@)[i] == p);
                        assert(b.contains(p));
                    } else {
                        assert(b[i] == p);
                    }
                    let t = choose|t: int| 0 <= t < b.len() && b[t] == p;
                    assert(b[t].0 != "format"@);
                    assert(a.contains(p));
                    let u = choose|u: int| 0 <= u < a.len() && a[u] == p;
                    assert(a[u].0 != "pattern"@);
                }
                if has_slash_enum(b) {
                    let c = without(b, "enum"@);
                    assert(!exists|i: int| key_at(c, "enum"@, i)) by {
                        if exists|i: int| key_at(c, "enum"@, i) {
                            let i = choose|i: int| key_at(c, "enum"@, i);
                            assert(c[i].0 != "enum"@);
                        }
                    }
                    assert(member(c, "enum"@) is None);
                }
            }
        },
        JsonV::Array(xs) => {
            lemma_strip_items_free(xs);
            lemma_items_free_iff(strip_items(xs));
        },
        _ => {},
    }
}


proof fn lemma_strip_members_keys(ms: Seq<(Seq<char>, JsonV)>)
    ensures
        strip_members(ms).len() == ms.len(),
        forall|i: int| 0 <= i < ms.len() ==> (#[trigger] strip_members(ms)[i]).0 == ms[i].0,
    decreases ms.len(),
{
    if ms.len() > 0 {
        lemma_strip_members_keys(ms.drop_last());
        assert forall|i: int| 0 <= i < ms.len() implies (#[trigger] strip_members(ms)[i]).0 == ms[i].0 by {
            if i < ms.len() - 1 {
                assert(strip_members(ms)[i] == strip_members(ms.drop_last())[i]);
                assert(ms.drop_last()[i] == ms[i]);
            }
        }
    }
}

proof fn lemma_without_keeps(ms: Seq<(Seq<char>, JsonV)>, k: Seq<char>, other: Seq<char>)
    requires
        has_member(ms, other),
        other != k,
    ensures
        has_member(without(ms, k), other),
    decreases ms.len(),
{
    if ms.last().0 == other {
        let w = without(ms, k);
        assert(w[w.len() - 1] == ms.last());
    } else {
        let i = choose|i: int| 0 <= i < ms.len() && ms[i].0 == other;
        assert(ms.drop_last()[i].0 == other);
        lemma_without_keeps(ms.drop_last(), k, other);
        let r = without(ms.drop_last(), k);
        let j = choose|j: int| 0 <= j < r.len() && r[j].0 == other;
        let w = without(ms, k);
        assert(w[j] == r[j]);
    }
}

/// Stripping removes nothing else: an object keeps every member whose name is not `format`,
/// `pattern` or `enum`, and an object that declares no schema keeps all its members (so a
/// property that happens to be named `format` survives).
pub proof fn law_stripping_keeps_other_members(ms: Seq<(Seq<char>, JsonV)>, k: Seq<char>)
    requires
        has_member(ms, k),
        (k != "format"@ && k != "pattern"@ && k != "enum"@) || !is_schema_node(ms),
    ensures
        strip_schema(JsonV::Object(ms)) matches JsonV::Object(r) && has_member(r, k),
{
    lemma_strip_members_keys(ms);
    let sm = strip_members(ms);
    let i = choose|i: int| 0 <= i < ms.len() && ms[i].0 == k;
    assert(sm[i].0 == k);
    assert(has_member(sm, k));
    assert(is_schema_node(sm) == is_schema_node(ms)) by {
        assert forall|key: Seq<char>| has_member(sm, key) <==> has_member(ms, key) by {
            if has_member(sm, key) {
                let t = choose|t: int| 0 <= t < sm.len() && sm[t].0 == key;
                assert(ms[t].0 == key);
            }
            if has_member(ms, key) {
                let t = choose|t: int| 0 <= t < ms.len() && ms[t].0 == key;
                assert(sm[t].0 == key);
            }
        }
    }
    if is_schema_node(sm) {
        lemma_without_keeps(sm, "pattern"@, k);
        let a = without(sm, "pattern"@);
        lemma_without_keeps(a, "format"@, k);
        let b = without(a, "format"@);
        lemma_without_keeps(b, "enum"@, k);
    }
}

/// Stripping a JSON schema leaves no schema node, at any depth, with a `format` or `pattern`
/// keyword, or with an `enum` holding a string with `/` (none of which xAI accepts).
pub proof fn law_stripped_schemas_have_no_format_or_pattern(j: JsonV)
    ensures
        schemas_free(strip_schema(j)),
{
    lemma_strip_free(j);
}

/// Whether `s` holds `/`.
fn has_slash(s: &String) -> (r: bool)
    ensures
        r == contains_char(s@, '/'),
{
    let cs = str_to_chars(s.as_str());
    let n = cs.len();
    let mut i: usize = 0;
    while i < n
        invariant
            i <= n,
            n == s@.len(),
            cs@ == s@,
            forall|j: int| 0 <= j < i ==> s@[j] != '/',
        decreases n - i,
    {
        if cs[i] == '/' {
            return true;
        }
        i = i + 1;
    }
    false
}

/// Whether the object `ms` has an `enum` array with a string that holds `/`.
fn slash_enum(ms: &Vec<(String, Json)>) -> (r: bool)
    ensures
        r == has_slash_enum(members_view(ms@)),
{
    let key = String::from_str("enum");
    match find_member(ms, &key) {
        Some(i) => {
            proof {
                lemma_members_view(ms@);
                lemma_member_at(members_view(ms@), key@, i as int);
            }
            match &ms[i].1 {
                Json::Array(xs) => {
                    proof {
                        lemma_array_view(xs@);
                    }
                    let mut j: usize = 0;
                    while j < xs.len()
                        invariant
                            j <= xs.len(),
                            member(members_view(ms@), "enum"@) == Some(JsonV::Array(array_view(xs@))),
                            array_view(xs@).len() == xs.len(),
                            forall|t: int| 0 <= t < xs.len() ==> #[trigger] array_view(xs@)[t] == json_view(xs@[t]),
                            forall|t: int| 0 <= t < j ==> !(#[trigger] array_view(xs@)[t] matches JsonV::Str(s) && contains_char(s, '/')),
                        decreases xs.len() - j,
                    {
                        if let Json::Str(s) = &xs[j] {
                            if has_slash(s) {
                                assert(array_view(xs@)[j as int] matches JsonV::Str(t) && contains_char(t, '/'));
                                return true;
                            }
                        }
                        j = j + 1;
                    }
                    false
                },
                _ => false,
            }
        },
        None => false,
    }
}

/// Whether `ms` has a member named `k`.
fn has_key(ms: &Vec<(String, Json)>, k: &str) -> (r: bool)
    ensures
        r == has_member(members_view(ms@), k@),
{
    let key = String::from_str(k);
    let found = find_member(ms, &key);
    proof {
        if found is Some {
            assert(members_view(ms@)[found->0 as int].0 == k@);
        }
    }
    found.is_some()
}

/// `prune_schema` on a member list.
fn prune_members(ms: Vec<(String, Json)>) -> (r: Vec<(String, Json)>)
    ensures
        members_view(r@) == prune_schema(members_view(ms@)),
{
    if has_key(&ms, "type") || has_key(&ms, "anyOf") || has_key(&ms, "oneOf") || has_key(&ms, "allOf") {
        let pattern = String::from_str("pattern");
        let format = String::from_str("format");
        let enum_key = String::from_str("enum");
        let kept = without_member(&without_member(&ms, &pattern), &format);
        if slash_enum(&kept) {
            without_member(&kept, &enum_key)
        } else {
            kept
        }
    } else {
        ms
    }
}

proof fn lemma_strip_members_push(ms: Seq<(Seq<char>, JsonV)>, m: (Seq<char>, JsonV))
    ensures
        strip_members(ms.push(m)) == strip_members(ms).push((m.0, strip_schema(m.1))),
{
    assert(ms.push(m).drop_last() =~= ms);
}

proof fn lemma_strip_items_push(xs: Seq<JsonV>, x: JsonV)
    ensures
        strip_items(xs.push(x)) == strip_items(xs).push(strip_schema(x)),
{
    assert(xs.push(x).drop_last() =~= xs);
}

/// `node` with `pattern`, `format` and slash-bearing `enum` keywords removed from every
/// schema node, at any depth.
pub fn strip_xai_incompatible_schema_keys(node: &Json) -> (r: Json)
    ensures
        r@ == strip_schema(node@),
    decreases node,
{
    match node {
        Json::Object(ms) => {
            let mut out: Vec<(String, Json)> = Vec::new();
            let mut i: usize = 0;
            while i < ms.len()
                invariant
                    i <= ms.len(),
                    *node == Json::Object(*ms),
                    members_view(out@) == strip_members(members_view(ms@.take(i as int))),
                decreases ms.len() - i,
            {
                proof {
                    assert(decreases_to!(*node => (*node)->Object_0));
                    assert(decreases_to!(*ms => ms@));
                    assert(decreases_to!(ms@ => ms@[i as int]));
                    assert(decreases_to!(ms@[i as int] => ms@[i as int].1));
                }
                let m = (ms[i].0.clone(), strip_xai_incompatible_schema_keys(&ms[i].1));
                proof {
                    lemma_members_view_push(out@, m);
                    lemma_members_view_push(ms@.take(i as int), ms@[i as int]);
                    assert(ms@.take(i as int).push(ms@[i as int]) =~= ms@.take(i + 1));
                    lemma_strip_members_push(
                        members_view(ms@.take(i as int)),
                        (ms@[i as int].0@, json_view(ms@[i as int].1)),
                    );
                }
                out.push(m);
                i = i + 1;
            }
            assert(ms@.take(ms.len() as int) =~= ms@);
            Json::Object(prune_members(out))
        },
        Json::Array(xs) => {
            let mut out: Vec<Json> = Vec::new();
            let mut i: usize = 0;
            while i < xs.len()
                invariant
                    i <= xs.len(),
                    *node == Json::Array(*xs),
                    array_view(out@) == strip_items(array_view(xs@.take(i as int))),
                decreases xs.len() - i,
            {
                proof {
                    assert(decreases_to!(*node => (*node)->Array_0));
                    assert(decreases_to!(*xs => xs@));
                    assert(decreases_to!(xs@ => xs@[i as int]));
                }
                let x = strip_xai_incompatible_schema_keys(&xs[i]);
                proof {
                    lemma_array_view_push(out@, x);
                    lemma_array_view_push(xs@.take(i as int), xs@[i as int]);
                    assert(xs@.take(i as int).push(xs@[i as int]) =~= xs@.take(i + 1));
                    lemma_strip_items_push(array_view(xs@.take(i as int)), json_view(xs@[i as int]));
                }
                out.push(x);
                i = i + 1;
            }
            assert(xs@.take(xs.len() as int) =~= xs@);
            Json::Array(out)
        },
        _ => copy_json(node),
    }
}


/// The object `{"type": t}`.
pub open spec fn type_object(t: Seq<char>) -> JsonV {
    JsonV::Object(seq![("type"@, JsonV::Str(t))])
}

/// Tool types that xAI runs itself; they pass as `{"type": ...}`.
pub open spec fn native_tool_types() -> Seq<Seq<char>> {
    seq![
        "web_search"@,
        "x_search"@,
        "collections_search"@,
        "file_search"@,
        "code_execution"@,
        "code_interpreter"@,
        "mcp"@,
        "shell"@,
    ]
}

/// The schema `{"type": "object", "properties": {}}`.
pub open spec fn empty_object_schema() -> JsonV {
    JsonV::Object(seq![("type"@, JsonV::Str("object"@)), ("properties"@, JsonV::Object(seq![]))])
}

/// The single-string schema that stands for a freeform custom tool's input.
pub open spec fn custom_input_schema() -> JsonV {
    JsonV::Object(
        seq![
            ("type"@, JsonV::Str("object"@)),
            (
                "properties"@,
                JsonV::Object(
                    seq![
                        (
                            "input"@,
                            JsonV::Object(
                                seq![
                                    ("type"@, JsonV::Str("string"@)),
                                    (
                                        "description"@,
                                        JsonV::Str(
                                            "Freeform input for the original Codex custom tool."@,
                                        ),
                                    ),
                                ],
                            ),
                        ),
                    ],
                ),
            ),
            ("required"@, JsonV::Array(seq![JsonV::Str("input"@)])),
            ("additionalProperties"@, JsonV::Bool(false)),
        ],
    )
}

/// `tool[k]`, or else `tool["function"][k]`.
pub open spec fn own_or_function_field(t: JsonV, k: Seq<char>) -> Option<JsonV> {
    match field(t, k) {
        Some(v) => Some(v),
        None => match field(t, "function"@) {
            Some(f) => field(f, k),
            None => None,
        },
    }
}

/// The name of a function tool: its own trimmed non-empty `name`, else `function.name`, else empty.
pub open spec fn function_tool_name(t: JsonV) -> Seq<char> {
    let own = str_of(field(t, "name"@));
    if own is Some && trim(own->0).len() > 0 {
        trim(own->0)
    } else {
        match field(t, "function"@) {
            Some(JsonV::Object(fm)) => match str_of(member(fm, "name"@)) {
                Some(n) => n,
                None => Seq::empty(),
            },
            _ => Seq::empty(),
        }
    }
}

/// A function tool in the flat form xAI takes.
pub open spec fn function_tool(t: JsonV) -> JsonV {
    let description = match str_of(own_or_function_field(t, "description"@)) {
        Some(d) => d,
        None => Seq::empty(),
    };
    let parameters = match own_or_function_field(t, "parameters"@) {
        Some(p) => p,
        None => empty_object_schema(),
    };
    let strict = match field(t, "strict"@) {
        Some(JsonV::Bool(b)) => b,
        _ => false,
    };
    JsonV::Object(
        seq![
            ("type"@, JsonV::Str("function"@)),
            ("name"@, JsonV::Str(function_tool_name(t))),
            ("description"@, JsonV::Str(description)),
            ("strict"@, JsonV::Bool(strict)),
            ("parameters"@, parameters),
        ],
    )
}

/// A freeform custom tool as a function with one string argument; none without a name.
pub open spec fn custom_tool(t: JsonV) -> Option<JsonV> {
    match str_of(field(t, "name"@)) {
        Some(n) => if trim(n).len() == 0 {
            None
        } else {
            let description = match str_of(field(t, "description"@)) {
                Some(d) => d,
                None => Seq::empty(),
            };
            Some(
                JsonV::Object(
                    seq![
                        ("type"@, JsonV::Str("function"@)),
                        ("name"@, JsonV::Str(trim(n))),
                        ("description"@, JsonV::Str(description)),
                        ("strict"@, JsonV::Bool(false)),
                        ("parameters"@, custom_input_schema()),
                    ],
                ),
            )
        },
        None => None,
    }
}

/// What becomes of one tool definition.
pub enum ToolConversion {
    Converted(Json),
    Flatten(Vec<Json>),
    Skip,
}

pub enum ToolConversionV {
    Converted(JsonV),
    Flatten(Seq<JsonV>),
    Skip,
}

impl View for ToolConversion {
    type V = ToolConversionV;

    open spec fn view(&self) -> ToolConversionV {
        match self {
            ToolConversion::Converted(j) => ToolConversionV::Converted(j@),
            ToolConversion::Flatten(v) => ToolConversionV::Flatten(array_view(v@)),
            ToolConversion::Skip => ToolConversionV::Skip,
        }
    }
}

/// The tools a conversion leaves.
pub open spec fn conversion_tools(c: ToolConversionV) -> Seq<JsonV> {
    match c {
        ToolConversionV::Converted(x) => seq![x],
        ToolConversionV::Flatten(xs) => xs,
        ToolConversionV::Skip => Seq::empty(),
    }
}

/// The key under which a namespace lists its tools: `tools`, or else `functions`.
pub open spec fn namespace_key(ms: Seq<(Seq<char>, JsonV)>) -> Seq<char> {
    if member(ms, "tools"@) is Some {
        "tools"@
    } else {
        "functions"@
    }
}

/// How one tool definition is carried over: native tools by type, functions flattened,
/// custom tools as functions, namespaces replaced by their converted tools, others dropped.
pub open spec fn convert_tool(t: JsonV) -> ToolConversionV
    decreases t,
{
    match str_of(field(t, "type"@)) {
        None => ToolConversionV::Skip,
        Some(ty) => if native_tool_types().contains(ty) {
            ToolConversionV::Converted(type_object(ty))
        } else if ty == "function"@ {
            ToolConversionV::Converted(function_tool(t))
        } else if ty == "custom"@ {
            match custom_tool(t) {
                Some(c) => ToolConversionV::Converted(c),
                None => ToolConversionV::Skip,
            }
        } else if ty == "namespace"@ {
            match t {
                JsonV::Object(ms) => {
                    let k = namespace_key(ms);
                    if exists|i: int| key_at(ms, k, i) {
                        let i = choose|i: int| key_at(ms, k, i);
                        match ms[i].1 {
                            JsonV::Array(items) => {
                                proof {
                                    assert(decreases_to!(t => t->Object_0));
                                    assert(decreases_to!(ms => ms[i]));
                                    assert(decreases_to!(ms[i] => ms[i].1));
                                    assert(decreases_to!(ms[i].1 => ms[i].1->Array_0));
                                }
                                ToolConversionV::Flatten(flatten_tools(items))
                            },
                            _ => ToolConversionV::Skip,
                        }
                    } else {
                        ToolConversionV::Skip
                    }
                },
                _ => ToolConversionV::Skip,
            }
        } else {
            ToolConversionV::Skip
        },
    }
}

/// The converted tools of a namespace's list, in order.
pub open spec fn flatten_tools(items: Seq<JsonV>) -> Seq<JsonV>
    decreases items,
{
    if items.len() == 0 {
        Seq::empty()
    } else {
        proof {
            assert(decreases_to!(items => items[items.len() - 1]));
        }
        flatten_tools(items.drop_last()) + conversion_tools(convert_tool(items.last()))
    }
}


pub proof fn lemma_array_view_concat(a: Seq<Json>, b: Seq<Json>)
    ensures
        array_view(a + b) == array_view(a) + array_view(b),
    decreases b.len(),
{
    if b.len() == 0 {
        assert(a + b =~= a);
        assert(array_view(a) + array_view(b) =~= array_view(a));
    } else {
        lemma_array_view_concat(a, b.drop_last());
        assert((a + b).drop_last() =~= a + b.drop_last());
        assert((a + b).last() == b.last());
        assert(array_view(a) + array_view(b) =~= (array_view(a) + array_view(b.drop_last())).push(
            json_view(b.last()),
        ));
    }
}

/// The string value `s`.
fn json_str(s: &str) -> (r: Json)
    ensures
        r@ == JsonV::Str(s@),
{
    Json::Str(String::from_str(s))
}

/// The member `k: v`.
fn pair(k: &str, v: Json) -> (r: (String, Json))
    ensures
        r.0@ == k@,
        r.1 == v,
{
    (String::from_str(k), v)
}

/// `{"type": t}`.
fn type_object_json(t: &str) -> (r: Json)
    ensures
        r@ == type_object(t@),
{
    let mut ms: Vec<(String, Json)> = Vec::new();
    ms.push(pair("type", json_str(t)));
    proof {
        lemma_members_view(ms@);
        assert(members_view(ms@) =~= seq![("type"@, JsonV::Str(t@))]);
    }
    Json::Object(ms)
}

fn empty_object_schema_json() -> (r: Json)
    ensures
        r@ == empty_object_schema(),
{
    let mut ms: Vec<(String, Json)> = Vec::new();
    ms.push(pair("type", json_str("object")));
    ms.push(pair("properties", Json::Object(Vec::new())));
    proof {
        lemma_members_view(ms@);
        let e: Seq<(String, Json)> = Seq::empty();
        assert(members_view(e) =~= seq![]);
        assert(members_view(ms@) =~= seq![
            ("type"@, JsonV::Str("object"@)),
            ("properties"@, JsonV::Object(seq![])),
        ]);
    }
    Json::Object(ms)
}

fn custom_input_schema_json() -> (r: Json)
    ensures
        r@ == custom_input_schema(),
{
    let mut input: Vec<(String, Json)> = Vec::new();
    input.push(pair("type", json_str("string")));
    input.push(pair("description", json_str("Freeform input for the original Codex custom tool.")));
    let mut properties: Vec<(String, Json)> = Vec::new();
    properties.push(pair("input", Json::Object(input)));
    let mut required: Vec<Json> = Vec::new();
    required.push(json_str("input"));
    let mut ms: Vec<(String, Json)> = Vec::new();
    ms.push(pair("type", json_str("object")));
    ms.push(pair("properties", Json::Object(properties)));
    ms.push(pair("required", Json::Array(required)));
    ms.push(pair("additionalProperties", Json::Bool(false)));
    proof {
        lemma_members_view(input@);
        lemma_members_view(properties@);
        lemma_array_view(required@);
        lemma_members_view(ms@);
        assert(array_view(required@) =~= seq![JsonV::Str("input"@)]);
        assert(members_view(input@) =~= seq![
            ("type"@, JsonV::Str("string"@)),
            ("description"@, JsonV::Str("Freeform input for the original Codex custom tool."@)),
        ]);
        assert(members_view(properties@) =~= seq![("input"@, json_view(properties@[0].1))]);
        assert(members_view(ms@) =~= seq![
            ("type"@, JsonV::Str("object"@)),
            ("properties"@, json_view(ms@[1].1)),
            ("required"@, JsonV::Array(seq![JsonV::Str("input"@)])),
            ("additionalProperties"@, JsonV::Bool(false)),
        ]);
    }
    Json::Object(ms)
}

/// `tool[k]`, or else `tool["function"][k]`.
fn own_or_function_field_json<'a>(tool: &'a Json, k: &String) -> (r: Option<&'a Json>)
    ensures
        match r {
            Some(x) => own_or_function_field(tool@, k@) == Some(x@),
            None => own_or_function_field(tool@, k@) is None,
        },
{
    match get(tool, k) {
        Some(v) => Some(v),
        None => {
            let function = String::from_str("function");
            match get(tool, &function) {
                Some(f) => get(f, k),
                None => None,
            }
        },
    }
}

/// Flattens a function tool to the shape xAI takes: type, name, description, strict, parameters.
pub fn convert_function_tool_for_xai(tool: &Json) -> (r: Json)
    ensures
        r@ == function_tool(tool@),
{
    let name_key = String::from_str("name");
    let function_key = String::from_str("function");
    let mut name = String::new();
    let mut named = false;
    match get_str(tool, &name_key) {
        Some(n) => {
            let t = trim_string(n.as_str());
            if t.as_str().unicode_len() > 0 {
                name = t;
                named = true;
            }
        },
        None => {},
    }
    if !named {
        match get(tool, &function_key) {
            Some(Json::Object(fm)) => {
                match find_member(fm, &name_key) {
                    Some(i) => {
                        proof {
                            lemma_members_view(fm@);
                            lemma_member_at(members_view(fm@), name_key@, i as int);
                        }
                        if let Json::Str(n) = &fm[i].1 {
                            name = n.clone();
                        }
                    },
                    None => {},
                }
            },
            _ => {},
        }
    }
    assert(name@ == function_tool_name(tool@));
    let description_key = String::from_str("description");
    let description = match own_or_function_field_json(tool, &description_key) {
        Some(Json::Str(d)) => d.clone(),
        _ => String::new(),
    };
    let parameters_key = String::from_str("parameters");
    let parameters = match own_or_function_field_json(tool, &parameters_key) {
        Some(p) => copy_json(p),
        None => empty_object_schema_json(),
    };
    let strict_key = String::from_str("strict");
    let strict = match get(tool, &strict_key) {
        Some(Json::Bool(b)) => *b,
        _ => false,
    };
    let mut ms: Vec<(String, Json)> = Vec::new();
    ms.push(pair("type", json_str("function")));
    ms.push(pair("name", Json::Str(name)));
    ms.push(pair("description", Json::Str(description)));
    ms.push(pair("strict", Json::Bool(strict)));
    ms.push(pair("parameters", parameters));
    proof {
        lemma_members_view(ms@);
        assert(members_view(ms@) =~= seq![
            ("type"@, JsonV::Str("function"@)),
            ("name"@, JsonV::Str(function_tool_name(tool@))),
            ("description"@, json_view(ms@[2].1)),
            ("strict"@, JsonV::Bool(strict)),
            ("parameters"@, json_view(ms@[4].1)),
        ]);
    }
    Json::Object(ms)
}

/// A freeform custom tool as a function taking one string `input`; `None` without a name.
pub fn convert_custom_tool_for_xai(tool: &Json) -> (r: Option<Json>)
    ensures
        match r {
            Some(x) => custom_tool(tool@) == Some(x@),
            None => custom_tool(tool@) is None,
        },
{
    let name_key = String::from_str("name");
    let raw = match get_str(tool, &name_key) {
        Some(n) => n,
        None => return None,
    };
    let name = trim_string(raw.as_str());
    if name.as_str().unicode_len() == 0 {
        return None;
    }
    let description_key = String::from_str("description");
    let description = match get_str(tool, &description_key) {
        Some(d) => d.clone(),
        None => String::new(),
    };
    let mut ms: Vec<(String, Json)> = Vec::new();
    ms.push(pair("type", json_str("function")));
    ms.push(pair("name", Json::Str(name)));
    ms.push(pair("description", Json::Str(description)));
    ms.push(pair("strict", Json::Bool(false)));
    ms.push(pair("parameters", custom_input_schema_json()));
    proof {
        lemma_members_view(ms@);
        assert(members_view(ms@) =~= seq![
            ("type"@, JsonV::Str("function"@)),
            ("name"@, json_view(ms@[1].1)),
            ("description"@, json_view(ms@[2].1)),
            ("strict"@, JsonV::Bool(false)),
            ("parameters"@, custom_input_schema()),
        ]);
    }
    Some(Json::Object(ms))
}

/// Whether `ty` is a tool type that xAI runs natively.
fn is_native_tool_type(ty: &String) -> (r: bool)
    ensures
        r == native_tool_types().contains(ty@),
{
    let names: [&str; 8] = [
        "web_search",
        "x_search",
        "collections_search",
        "file_search",
        "code_execution",
        "code_interpreter",
        "mcp",
        "shell",
    ];
    let mut i: usize = 0;
    while i < 8
        invariant
            i <= 8,
            names@ == seq![
                "web_search",
                "x_search",
                "collections_search",
                "file_search",
                "code_execution",
                "code_interpreter",
                "mcp",
                "shell",
            ],
            forall|j: int| 0 <= j < i ==> native_tool_types()[j] != ty@,
        decreases 8 - i,
    {
        let candidate = String::from_str(names[i]);
        if candidate == *ty {
            assert(native_tool_types()[i as int] == ty@);
            return true;
        }
        i = i + 1;
    }
    false
}


proof fn lemma_flatten_tools_push(items: Seq<JsonV>, x: JsonV)
    ensures
        flatten_tools(items.push(x)) == flatten_tools(items) + conversion_tools(convert_tool(x)),
{
    assert(items.push(x).drop_last() =~= items);
}

/// Appends the tools that `c` leaves to `out`.
fn push_conversion(out: &mut Vec<Json>, c: ToolConversion)
    ensures
        array_view(final(out)@) == array_view(old(out)@) + conversion_tools(c@),
{
    match c {
        ToolConversion::Converted(x) => {
            proof {
                lemma_array_view_push(out@, x);
            }
            out.push(x);
        },
        ToolConversion::Flatten(mut xs) => {
            proof {
                lemma_array_view_concat(out@, xs@);
            }
            out.append(&mut xs);
        },
        ToolConversion::Skip => {
            assert(array_view(out@) + Seq::empty() =~= array_view(out@));
        },
    }
}

/// How one tool definition is carried over to xAI (see [`convert_tool`]).
pub fn convert_tool_for_xai(tool: &Json) -> (r: ToolConversion)
    ensures
        r@ == convert_tool(tool@),
    decreases tool,
{
    let type_key = String::from_str("type");
    let ty = match get_str(tool, &type_key) {
        Some(t) => t,
        None => return ToolConversion::Skip,
    };
    if is_native_tool_type(ty) {
        return ToolConversion::Converted(type_object_json(ty.as_str()));
    }
    let function = String::from_str("function");
    if *ty == function {
        return ToolConversion::Converted(convert_function_tool_for_xai(tool));
    }
    let custom = String::from_str("custom");
    if *ty == custom {
        return match convert_custom_tool_for_xai(tool) {
            Some(c) => ToolConversion::Converted(c),
            None => ToolConversion::Skip,
        };
    }
    let namespace = String::from_str("namespace");
    if *ty != namespace {
        return ToolConversion::Skip;
    }
    let ms = match tool {
        Json::Object(ms) => ms,
        _ => return ToolConversion::Skip,
    };
    let tools_key = String::from_str("tools");
    let functions_key = String::from_str("functions");
    let key = if find_member(ms, &tools_key).is_some() {
        tools_key
    } else {
        functions_key
    };
    proof {
        lemma_members_view(ms@);
    }
    let i = match find_member(ms, &key) {
        Some(i) => i,
        None => return ToolConversion::Skip,
    };
    proof {
        let c = choose|c: int| key_at(members_view(ms@), key@, c);
        lemma_key_at_unique(members_view(ms@), key@, i as int, c);
    }
    let items = match &ms[i].1 {
        Json::Array(items) => items,
        _ => return ToolConversion::Skip,
    };
    let mut out: Vec<Json> = Vec::new();
    let mut j: usize = 0;
    while j < items.len()
        invariant
            j <= items.len(),
            *tool == Json::Object(*ms),
            i < ms@.len(),
            ms@[i as int].1 == Json::Array(*items),
            array_view(out@) == flatten_tools(array_view(items@.take(j as int))),
        decreases items.len() - j,
    {
        proof {
            assert(decreases_to!(*tool => (*tool)->Object_0));
            assert(decreases_to!(*ms => ms@));
            assert(decreases_to!(ms@ => ms@[i as int]));
            assert(decreases_to!(ms@[i as int] => ms@[i as int].1));
            assert(decreases_to!(ms@[i as int].1 => (ms@[i as int].1)->Array_0));
            assert(decreases_to!(*items => items@));
            assert(decreases_to!(items@ => items@[j as int]));
        }
        let c = convert_tool_for_xai(&items[j]);
        proof {
            lemma_array_view_push(items@.take(j as int), items@[j as int]);
            assert(items@.take(j as int).push(items@[j as int]) =~= items@.take(j + 1));
            lemma_flatten_tools_push(array_view(items@.take(j as int)), json_view(items@[j as int]));
        }
        push_conversion(&mut out, c);
        j = j + 1;
    }
    assert(items@.take(items.len() as int) =~= items@);
    ToolConversion::Flatten(out)
}

/// The tool with its parameter schema stripped: `parameters`, else `function.parameters`.
pub open spec fn sanitize_tool_schema(t: JsonV) -> JsonV {
    match t {
        JsonV::Object(ms) => match member(ms, "parameters"@) {
            Some(p) => JsonV::Object(with_member(ms, "parameters"@, strip_schema(p))),
            None => match member(ms, "function"@) {
                Some(JsonV::Object(fm)) => match member(fm, "parameters"@) {
                    Some(p) => JsonV::Object(
                        with_member(
                            ms,
                            "function"@,
                            JsonV::Object(with_member(fm, "parameters"@, strip_schema(p))),
                        ),
                    ),
                    None => t,
                },
                _ => t,
            },
        },
        _ => t,
    }
}

/// Strips the parameter schema of one tool (see [`sanitize_tool_schema`]).
pub fn sanitize_tool_schema_for_xai(tool: &Json) -> (r: Json)
    ensures
        r@ == sanitize_tool_schema(tool@),
{
    let ms = match tool {
        Json::Object(ms) => ms,
        _ => return copy_json(tool),
    };
    proof {
        lemma_members_view(ms@);
    }
    let parameters = String::from_str("parameters");
    match find_member(ms, &parameters) {
        Some(i) => {
            proof {
                lemma_member_at(members_view(ms@), parameters@, i as int);
            }
            let stripped = strip_xai_incompatible_schema_keys(&ms[i].1);
            return Json::Object(set_member(ms, &parameters, stripped));
        },
        None => {},
    }
    let function = String::from_str("function");
    match find_member(ms, &function) {
        Some(i) => {
            proof {
                lemma_member_at(members_view(ms@), function@, i as int);
            }
            match &ms[i].1 {
                Json::Object(fm) => {
                    proof {
                        lemma_members_view(fm@);
                    }
                    match find_member(fm, &parameters) {
                        Some(p) => {
                            proof {
                                lemma_member_at(members_view(fm@), parameters@, p as int);
                            }
                            let stripped = strip_xai_incompatible_schema_keys(&fm[p].1);
                            let inner = Json::Object(set_member(fm, &parameters, stripped));
                            Json::Object(set_member(ms, &function, inner))
                        },
                        None => copy_json(tool),
                    }
                },
                _ => copy_json(tool),
            }
        },
        None => copy_json(tool),
    }
}


/// A client-side function tool named `web_search`, which xAI replaces with its own.
pub open spec fn is_client_web_search(c: JsonV) -> bool {
    str_of(field(c, "type"@)) == Some("function"@) && str_of(field(c, "name"@)) == Some("web_search"@)
}

/// The native `web_search` tool.
pub open spec fn is_native_web_search(t: JsonV) -> bool {
    str_of(field(t, "type"@)) == Some("web_search"@)
}

/// The converted tools of `ts` without client-side web search, and whether one was seen.
pub open spec fn collect_tools(ts: Seq<JsonV>) -> (Seq<JsonV>, bool)
    decreases ts.len(),
{
    if ts.len() == 0 {
        (Seq::empty(), false)
    } else {
        let (acc, saw) = collect_tools(ts.drop_last());
        match convert_tool(ts.last()) {
            ToolConversionV::Converted(c) => if is_client_web_search(c) {
                (acc, true)
            } else {
                (acc.push(c), saw)
            },
            ToolConversionV::Flatten(xs) => (acc + xs, saw),
            ToolConversionV::Skip => (acc, saw),
        }
    }
}

/// The tool list xAI receives for `ts`: converted tools, a native `web_search` in place of a
/// client-side one (once, unless already present), every parameter schema stripped.
pub open spec fn sanitize_tools(ts: Seq<JsonV>) -> Seq<JsonV> {
    let (acc, saw) = collect_tools(ts);
    let all = if saw && !(exists|i: int| 0 <= i < acc.len() && is_native_web_search(acc[i])) {
        acc.push(type_object("web_search"@))
    } else {
        acc
    };
    all.map_values(|t: JsonV| sanitize_tool_schema(t))
}

/// Whether `j` has the string `v` at key `k`.
fn field_is(j: &Json, k: &str, v: &str) -> (r: bool)
    ensures
        r == (str_of(field(j@, k@)) == Some(v@)),
{
    let key = String::from_str(k);
    let want = String::from_str(v);
    match get_str(j, &key) {
        Some(s) => *s == want,
        None => false,
    }
}

proof fn lemma_collect_tools_step(ts: Seq<JsonV>, x: JsonV)
    ensures
        collect_tools(ts.push(x)) == ({
            let (acc, saw) = collect_tools(ts);
            match convert_tool(x) {
                ToolConversionV::Converted(c) => if is_client_web_search(c) {
                    (acc, true)
                } else {
                    (acc.push(c), saw)
                },
                ToolConversionV::Flatten(xs) => (acc + xs, saw),
                ToolConversionV::Skip => (acc, saw),
            }
        }),
{
    assert(ts.push(x).drop_last() =~= ts);
}

/// The tool list as xAI takes it (see [`sanitize_tools`]).
pub fn sanitize_tools_for_xai(tools: &[Json]) -> (r: Vec<Json>)
    ensures
        array_view(r@) == sanitize_tools(array_view(tools@)),
{
    let mut acc: Vec<Json> = Vec::new();
    let mut saw = false;
    let mut i: usize = 0;
    while i < tools.len()
        invariant
            i <= tools.len(),
            (array_view(acc@), saw) == collect_tools(array_view(tools@.take(i as int))),
        decreases tools.len() - i,
    {
        let c = convert_tool_for_xai(&tools[i]);
        proof {
            lemma_array_view_push(tools@.take(i as int), tools@[i as int]);
            assert(tools@.take(i as int).push(tools@[i as int]) =~= tools@.take(i + 1));
            lemma_collect_tools_step(array_view(tools@.take(i as int)), json_view(tools@[i as int]));
        }
        match c {
            ToolConversion::Converted(x) => {
                if field_is(&x, "type", "function") && field_is(&x, "name", "web_search") {
                    saw = true;
                } else {
                    proof {
                        lemma_array_view_push(acc@, x);
                    }
                    acc.push(x);
                }
            },
            ToolConversion::Flatten(mut xs) => {
                proof {
                    lemma_array_view_concat(acc@, xs@);
                }
                acc.append(&mut xs);
            },
            ToolConversion::Skip => {},
        }
        i = i + 1;
    }
    assert(tools@.take(tools.len() as int) =~= tools@);
    if saw {
        let mut found = false;
        let mut j: usize = 0;
        proof {
            lemma_array_view(acc@);
        }
        while j < acc.len() && !found
            invariant
                j <= acc.len(),
                array_view(acc@).len() == acc.len(),
                forall|t: int| 0 <= t < acc.len() ==> #[trigger] array_view(acc@)[t] == json_view(acc@[t]),
                found ==> exists|t: int| 0 <= t < acc.len() && is_native_web_search(array_view(acc@)[t]),
                !found ==> forall|t: int| 0 <= t < j ==> !is_native_web_search(array_view(acc@)[t]),
            decreases acc.len() - j,
        {
            if field_is(&acc[j], "type", "web_search") {
                assert(is_native_web_search(array_view(acc@)[j as int]));
                found = true;
            }
            j = j + 1;
        }
        if !found {
            let w = type_object_json("web_search");
            proof {
                lemma_array_view_push(acc@, w);
            }
            acc.push(w);
        }
    }
    let ghost all = array_view(acc@);
    let mut out: Vec<Json> = Vec::new();
    let mut k: usize = 0;
    proof {
        lemma_array_view(acc@);
    }
    while k < acc.len()
        invariant
            k <= acc.len(),
            all == array_view(acc@),
            all.len() == acc.len(),
            forall|t: int| 0 <= t < acc.len() ==> #[trigger] all[t] == json_view(acc@[t]),
            array_view(out@) =~= all.take(k as int).map_values(|t: JsonV| sanitize_tool_schema(t)),
        decreases acc.len() - k,
    {
        let y = sanitize_tool_schema_for_xai(&acc[k]);
        proof {
            lemma_array_view_push(out@, y);
            assert(all.take(k + 1).map_values(|t: JsonV| sanitize_tool_schema(t)) =~= all.take(
                k as int,
            ).map_values(|t: JsonV| sanitize_tool_schema(t)).push(sanitize_tool_schema(all[k as int])));
        }
        out.push(y);
        k = k + 1;
    }
    assert(all.take(acc.len() as int) =~= all);
    out
}

} // verus!
