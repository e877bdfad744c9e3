//! A JSON value whose objects keep their members in order, the data model of tool schemas
//! and request bodies.

use vstd::prelude::*;

use crate::text::str_to_chars;

verus! {

/// A JSON document. A number keeps its source text; an object keeps its members in order.
#[derive(Debug, PartialEq)]
pub enum Json {
    Null,
    Bool(bool),
    Number(String),
    Str(String),
    Array(Vec<Json>),
    Object(Vec<(String, Json)>),
}

/// The mathematical value of a [`Json`].
pub enum JsonV {
    Null,
    Bool(bool),
    Number(Seq<char>),
    Str(Seq<char>),
    Array(Seq<JsonV>),
    Object(Seq<(Seq<char>, JsonV)>),
}

pub open spec fn json_view(j: Json) -> JsonV
    decreases j,
{
    match j {
        Json::Null => JsonV::Null,
        Json::Bool(b) => JsonV::Bool(b),
        Json::Number(n) => JsonV::Number(n@),
        Json::Str(s) => JsonV::Str(s@),
        Json::Array(v) => JsonV::Array(array_view(v@)),
        Json::Object(v) => JsonV::Object(members_view(v@)),
    }
}

pub open spec fn array_view(s: Seq<Json>) -> Seq<JsonV>
    decreases s,
{
    if s.len() == 0 {
        Seq::empty()
    } else {
        array_view(s.drop_last()).push(json_view(s.last()))
    }
}

pub open spec fn members_view(s: Seq<(String, Json)>) -> Seq<(Seq<char>, JsonV)>
    decreases s,
{
    if s.len() == 0 {
        Seq::empty()
    } else {
        members_view(s.drop_last()).push((s.last().0@, json_view(s.last().1)))
    }
}

impl View for Json {
    type V = JsonV;

    open spec fn view(&self) -> JsonV {
        json_view(*self)
    }
}

pub proof fn lemma_array_view(s: Seq<Json>)
    ensures
        array_view(s).len() == s.len(),
        forall|i: int| 0 <= i < s.len() ==> #[trigger] array_view(s)[i] == json_view(s[i]),
    decreases s.len(),
{
    if s.len() > 0 {
        lemma_array_view(s.drop_last());
    }
}

pub proof fn lemma_members_view(s: Seq<(String, Json)>)
    ensures
        members_view(s).len() == s.len(),
        forall|i: int|
            0 <= i < s.len() ==> #[trigger] members_view(s)[i] == (s[i].0@, json_view(s[i].1)),
    decreases s.len(),
{
    if s.len() > 0 {
        lemma_members_view(s.drop_last());
    }
}

pub proof fn lemma_array_view_push(s: Seq<Json>, x: Json)
    ensures
        array_view(s.push(x)) == array_view(s).push(json_view(x)),
{
    assert(s.push(x).drop_last() =~= s);
}

pub proof fn lemma_members_view_push(s: Seq<(String, Json)>, x: (String, Json))
    ensures
        members_view(s.push(x)) == members_view(s).push((x.0@, json_view(x.1))),
{
    assert(s.push(x).drop_last() =~= s);
}

/// A deep copy of `j`.
pub fn copy_json(j: &Json) -> (r: Json)
    ensures
        r@ == j@,
    decreases j,
{
    match j {
        Json::Null => Json::Null,
        Json::Bool(b) => Json::Bool(*b),
        Json::Number(n) => Json::Number(n.clone()),
        Json::Str(s) => Json::Str(s.clone()),
        Json::Array(v) => {
            let mut out: Vec<Json> = Vec::new();
            let mut i: usize = 0;
            while i < v.len()
                invariant
                    i <= v.len(),
                    *j == Json::Array(*v),
                    array_view(out@) == array_view(v@.take(i as int)),
                decreases v.len() - i,
            {
                proof {
                    assert(decreases_to!(*j => (*j)->Array_0));
                    assert(decreases_to!(*v => v@));
                    assert(decreases_to!(v@ => v@[i as int]));
                }
                let c = copy_json(&v[i]);
                proof {
                    lemma_array_view_push(out@, c);
                    lemma_array_view_push(v@.take(i as int), v@[i as int]);
                    assert(v@.take(i as int).push(v@[i as int]) =~= v@.take(i + 1));
                }
                out.push(c);
                i = i + 1;
            }
            assert(v@.take(v.len() as int) =~= v@);
            Json::Array(out)
        },
        Json::Object(v) => {
            let mut out: Vec<(String, Json)> = Vec::new();
            let mut i: usize = 0;
            while i < v.len()
                invariant
                    i <= v.len(),
                    *j == Json::Object(*v),
                    members_view(out@) == members_view(v@.take(i as int)),
                decreases v.len() - i,
            {
                proof {
                    assert(decreases_to!(*j => (*j)->Object_0));
                    assert(decreases_to!(*v => v@));
                    assert(decreases_to!(v@ => v@[i as int]));
                    assert(decreases_to!(v@[i as int] => v@[i as int].1));
                }
                let m = (v[i].0.clone(), copy_json(&v[i].1));
                proof {
                    lemma_members_view_push(out@, m);
                    lemma_members_view_push(v@.take(i as int), v@[i as int]);
                    assert(v@.take(i as int).push(v@[i as int]) =~= v@.take(i + 1));
                }
                out.push(m);
                i = i + 1;
            }
            assert(v@.take(v.len() as int) =~= v@);
            Json::Object(out)
        },
    }
}


/// `i` is the position of the first member of `ms` named `k`.
pub open spec fn key_at(ms: Seq<(Seq<char>, JsonV)>, k: Seq<char>, i: int) -> bool {
    &&& 0 <= i < ms.len()
    &&& ms[i].0 == k
    &&& forall|j: int| 0 <= j < i ==> ms[j].0 != k
}

pub open spec fn has_member(ms: Seq<(Seq<char>, JsonV)>, k: Seq<char>) -> bool {
    exists|i: int| 0 <= i < ms.len() && ms[i].0 == k
}

/// The value of the first member of `ms` named `k`.
pub open spec fn member(ms: Seq<(Seq<char>, JsonV)>, k: Seq<char>) -> Option<JsonV> {
    if exists|i: int| key_at(ms, k, i) {
        Some(ms[choose|i: int| key_at(ms, k, i)].1)
    } else {
        None
    }
}

/// What `Value::get(k)` returns: the member `k` of an object, nothing for other values.
pub open spec fn field(j: JsonV, k: Seq<char>) -> Option<JsonV> {
    match j {
        JsonV::Object(ms) => member(ms, k),
        _ => None,
    }
}

/// `Value::as_str` applied to an optional value.
pub open spec fn str_of(v: Option<JsonV>) -> Option<Seq<char>> {
    match v {
        Some(JsonV::Str(s)) => Some(s),
        _ => None,
    }
}

/// `ms` without the members named `k`, the others in order.
pub open spec fn without(ms: Seq<(Seq<char>, JsonV)>, k: Seq<char>) -> Seq<(Seq<char>, JsonV)>
    decreases ms.len(),
{
    if ms.len() == 0 {
        ms
    } else if ms.last().0 == k {
        without(ms.drop_last(), k)
    } else {
        without(ms.drop_last(), k).push(ms.last())
    }
}

/// `ms` with the value of its first member named `k` replaced by `v`.
pub open spec fn with_member(ms: Seq<(Seq<char>, JsonV)>, k: Seq<char>, v: JsonV) -> Seq<(Seq<char>, JsonV)> {
    if exists|i: int| key_at(ms, k, i) {
        ms.update(choose|i: int| key_at(ms, k, i), (k, v))
    } else {
        ms
    }
}

pub proof fn lemma_key_at_unique(ms: Seq<(Seq<char>, JsonV)>, k: Seq<char>, i: int, j: int)
    requires
        key_at(ms, k, i),
        key_at(ms, k, j),
    ensures
        i == j,
{
    if i < j {
        assert(ms[i].0 != k);
    } else if j < i {
        assert(ms[j].0 != k);
    }
}

/// The position of the first member of `ms` named `k`.
pub fn find_member(ms: &Vec<(String, Json)>, k: &String) -> (r: Option<usize>)
    ensures
        match r {
            Some(i) => key_at(members_view(ms@), k@, i as int),
            None => !has_member(members_view(ms@), k@),
        },
        r is None <==> !(exists|i: int| key_at(members_view(ms@), k@, i)),
{
    proof {
        lemma_members_view(ms@);
    }
    let mut i: usize = 0;
    while i < ms.len()
        invariant
            i <= ms.len(),
            members_view(ms@).len() == ms.len(),
            forall|j: int| 0 <= j < i ==> members_view(ms@)[j].0 != k@,
        decreases ms.len() - i,
    {
        proof {
            lemma_members_view(ms@);
        }
        if ms[i].0 == *k {
            assert(key_at(members_view(ms@), k@, i as int));
            return Some(i);
        }
        i = i + 1;
    }
    proof {
        if exists|j: int| key_at(members_view(ms@), k@, j) {
            let j = choose|j: int| key_at(members_view(ms@), k@, j);
            assert(members_view(ms@)[j].0 != k@);
        }
    }
    None
}

pub proof fn lemma_member_at(ms: Seq<(Seq<char>, JsonV)>, k: Seq<char>, i: int)
    requires
        key_at(ms, k, i),
    ensures
        member(ms, k) == Some(ms[i].1),
        with_member(ms, k, ms[i].1) == ms.update(i, (k, ms[i].1)),
{
    let c = choose|c: int| key_at(ms, k, c);
    lemma_key_at_unique(ms, k, i, c);
}

/// `Value::get(k)`.
pub fn get<'a>(j: &'a Json, k: &String) -> (r: Option<&'a Json>)
    ensures
        match r {
            Some(x) => field(j@, k@) == Some(x@),
            None => field(j@, k@) is None,
        },
{
    match j {
        Json::Object(ms) => {
            match find_member(ms, k) {
                Some(i) => {
                    proof {
                        lemma_members_view(ms@);
                        lemma_member_at(members_view(ms@), k@, i as int);
                    }
                    Some(&ms[i].1)
                },
                None => None,
            }
        },
        _ => None,
    }
}

/// `Value::get(k)` followed by `Value::as_str`.
pub fn get_str<'a>(j: &'a Json, k: &String) -> (r: Option<&'a String>)
    ensures
        match r {
            Some(x) => str_of(field(j@, k@)) == Some(x@),
            None => str_of(field(j@, k@)) is None,
        },
{
    match get(j, k) {
        Some(Json::Str(s)) => Some(s),
        _ => None,
    }
}

/// A copy of `ms` without the members named `k`.
pub fn without_member(ms: &Vec<(String, Json)>, k: &String) -> (r: Vec<(String, Json)>)
    ensures
        members_view(r@) == without(members_view(ms@), k@),
{
    let mut out: Vec<(String, Json)> = Vec::new();
    let mut i: usize = 0;
    while i < ms.len()
        invariant
            i <= ms.len(),
            members_view(out@) == without(members_view(ms@.take(i as int)), k@),
        decreases ms.len() - i,
    {
        proof {
            lemma_members_view_push(ms@.take(i as int), ms@[i as int]);
            assert(ms@.take(i as int).push(ms@[i as int]) =~= ms@.take(i + 1));
            let next = members_view(ms@.take(i + 1));
            assert(next.drop_last() =~= members_view(ms@.take(i as int)));
        }
        if ms[i].0 != *k {
            let m = (ms[i].0.clone(), copy_json(&ms[i].1));
            proof {
                lemma_members_view_push(out@, m);
            }
            out.push(m);
        }
        i = i + 1;
    }
    assert(ms@.take(ms.len() as int) =~= ms@);
    out
}

/// A copy of `ms` whose first member named `k` has the value `v`.
pub fn set_member(ms: &Vec<(String, Json)>, k: &String, v: Json) -> (r: Vec<(String, Json)>)
    ensures
        members_view(r@) == with_member(members_view(ms@), k@, v@),
{
    let mut out: Vec<(String, Json)> = Vec::new();
    let mut i: usize = 0;
    while i < ms.len()
        invariant
            i <= ms.len(),
            members_view(out@) == members_view(ms@.take(i as int)),
        decreases ms.len() - i,
    {
        let m = (ms[i].0.clone(), copy_json(&ms[i].1));
        proof {
            lemma_members_view_push(out@, m);
            lemma_members_view_push(ms@.take(i as int), ms@[i as int]);
            assert(ms@.take(i as int).push(ms@[i as int]) =~= ms@.take(i + 1));
        }
        out.push(m);
        i = i + 1;
    }
    assert(ms@.take(ms.len() as int) =~= ms@);
    proof {
        lemma_members_view(ms@);
    }
    match find_member(ms, k) {
        Some(i) => {
            proof {
                lemma_members_view(out@);
                lemma_member_at(members_view(ms@), k@, i as int);
            }
            let key = out[i].0.clone();
            out.set(i, (key, v));
            proof {
                lemma_members_view(out@);
                assert(members_view(out@) =~= with_member(members_view(ms@), k@, v@));
            }
            out
        },
        None => out,
    }
}


/// The lowercase hexadecimal digit for `n` in `0..16`.
pub open spec fn hex_digit(n: int) -> char {
    if n < 10 {
        (('0' as int) + n) as char
    } else {
        (('a' as int) + n - 10) as char
    }
}

/// How `c` is written inside a JSON string: quote and backslash escaped, control
/// characters as `\b`, `\t`, `\n`, `\f`, `\r` or `\u00XX`, everything else as itself.
pub open spec fn escape_char(c: char) -> Seq<char> {
    if c == '"' {
        seq!['\\', '"']
    } else if c == '\\' {
        seq!['\\', '\\']
    } else if c == '\u{8}' {
        seq!['\\', 'b']
    } else if c == '\t' {
        seq!['\\', 't']
    } else if c == '\n' {
        seq!['\\', 'n']
    } else if c == '\u{c}' {
        seq!['\\', 'f']
    } else if c == '\r' {
        seq!['\\', 'r']
    } else if (c as int) < 0x20 {
        seq!['\\', 'u', '0', '0', hex_digit((c as int) / 16), hex_digit((c as int) % 16)]
    } else {
        seq![c]
    }
}

pub open spec fn escape_str(s: Seq<char>) -> Seq<char>
    decreases s.len(),
{
    if s.len() == 0 {
        Seq::empty()
    } else {
        escape_str(s.drop_last()) + escape_char(s.last())
    }
}

/// `s` as a JSON string literal.
pub open spec fn quoted(s: Seq<char>) -> Seq<char> {
    seq!['"'] + escape_str(s) + seq!['"']
}

/// The compact JSON text of `j`, as `serde_json::to_string` writes it.
pub open spec fn json_text(j: JsonV) -> Seq<char>
    decreases j,
{
    match j {
        JsonV::Null => "null"@,
        JsonV::Bool(b) => if b {
            "true"@
        } else {
            "false"@
        },
        JsonV::Number(n) => n,
        JsonV::Str(s) => quoted(s),
        JsonV::Array(xs) => seq!['['] + items_text(xs) + seq![']'],
        JsonV::Object(ms) => seq!['{'] + members_text(ms) + seq!['}'],
    }
}

/// The values of `xs` as JSON text, separated by commas.
pub open spec fn items_text(xs: Seq<JsonV>) -> Seq<char>
    decreases xs,
{
    if xs.len() == 0 {
        Seq::empty()
    } else {
        proof {
            assert(decreases_to!(xs => xs[xs.len() - 1]));
        }
        let before = items_text(xs.drop_last());
        let sep: Seq<char> = if xs.len() == 1 {
            Seq::empty()
        } else {
            seq![',']
        };
        before + sep + json_text(xs.last())
    }
}

/// The members of `ms` as `"key":value` text, separated by commas.
pub open spec fn members_text(ms: Seq<(Seq<char>, JsonV)>) -> Seq<char>
    decreases ms,
{
    if ms.len() == 0 {
        Seq::empty()
    } else {
        proof {
            assert(decreases_to!(ms => ms[ms.len() - 1]));
            assert(decreases_to!(ms[ms.len() - 1] => ms[ms.len() - 1].1));
        }
        let before = members_text(ms.drop_last());
        let sep: Seq<char> = if ms.len() == 1 {
            Seq::empty()
        } else {
            seq![',']
        };
        before + sep + quoted(ms.last().0) + seq![':'] + json_text(ms.last().1)
    }
}

fn hex_char(n: u32) -> (c: char)
    requires
        n < 16,
    ensures
        c == hex_digit(n as int),
{
    let digits: [char; 16] = [
        '0', '1', '2', '3', '4', '5', '6', '7', '8', '9', 'a', 'b', 'c', 'd', 'e', 'f',
    ];
    assert(digits@ == seq![
        '0', '1', '2', '3', '4', '5', '6', '7', '8', '9', 'a', 'b', 'c', 'd', 'e', 'f',
    ]);
    digits[n as usize]
}

fn push_all(out: &mut Vec<char>, s: &[char])
    ensures
        final(out)@ == old(out)@ + s@,
{
    let mut i: usize = 0;
    while i < s.len()
        invariant
            i <= s.len(),
            out@ == old(out)@ + s@.take(i as int),
        decreases s.len() - i,
    {
        out.push(s[i]);
        assert(s@.take(i + 1) =~= s@.take(i as int).push(s@[i as int]));
        i = i + 1;
    }
    assert(s@.take(s.len() as int) =~= s@);
}

fn push_escaped_char(out: &mut Vec<char>, c: char)
    ensures
        final(out)@ == old(out)@ + escape_char(c),
{
    if c == '"' {
        push_all(out, &['\\', '"']);
    } else if c == '\\' {
        push_all(out, &['\\', '\\']);
    } else if c == '\u{8}' {
        push_all(out, &['\\', 'b']);
    } else if c == '\t' {
        push_all(out, &['\\', 't']);
    } else if c == '\n' {
        push_all(out, &['\\', 'n']);
    } else if c == '\u{c}' {
        push_all(out, &['\\', 'f']);
    } else if c == '\r' {
        push_all(out, &['\\', 'r']);
    } else if (c as u32) < 0x20 {
        let code = c as u32;
        let hi = hex_char(code / 16);
        let lo = hex_char(code % 16);
        push_all(out, &['\\', 'u', '0', '0', hi, lo]);
    } else {
        out.push(c);
        assert(old(out)@ + seq![c] =~= old(out)@.push(c));
    }
}

fn push_quoted(out: &mut Vec<char>, s: &String)
    ensures
        final(out)@ == old(out)@ + quoted(s@),
{
    let cs = str_to_chars(s.as_str());
    let n = cs.len();
    out.push('"');
    let mut i: usize = 0;
    while i < n
        invariant
            i <= n,
            n == s@.len(),
            cs@ == s@,
            out@ == old(out)@ + seq!['"'] + escape_str(s@.take(i as int)),
        decreases n - i,
    {
        let c = cs[i];
        proof {
            assert(s@.take(i + 1).drop_last() =~= s@.take(i as int));
        }
        push_escaped_char(out, c);
        i = i + 1;
    }
    assert(s@.take(n as int) =~= s@);
    out.push('"');
}

/// Appends the compact JSON text of `j` to `out`.
pub fn write_json(out: &mut Vec<char>, j: &Json)
    ensures
        final(out)@ == old(out)@ + json_text(j@),
    decreases j,
{
    match j {
        Json::Null => {
            proof {
                reveal_strlit("null");
            }
            push_all(out, &['n', 'u', 'l', 'l']);
        },
        Json::Bool(b) => {
            proof {
                reveal_strlit("true");
                reveal_strlit("false");
            }
            if *b {
                push_all(out, &['t', 'r', 'u', 'e']);
            } else {
                push_all(out, &['f', 'a', 'l', 's', 'e']);
            }
        },
        Json::Number(n) => {
            let digits = str_to_chars(n.as_str());
            let k = digits.len();
            let mut i: usize = 0;
            while i < k
                invariant
                    i <= k,
                    k == n@.len(),
                    digits@ == n@,
                    out@ == old(out)@ + n@.take(i as int),
                decreases k - i,
            {
                out.push(digits[i]);
                assert(n@.take(i + 1) =~= n@.take(i as int).push(n@[i as int]));
                i = i + 1;
            }
            assert(n@.take(k as int) =~= n@);
        },
        Json::Str(s) => push_quoted(out, s),
        Json::Array(xs) => {
            out.push('[');
            let ghost start = out@;
            let mut i: usize = 0;
            proof {
                lemma_array_view(xs@);
            }
            while i < xs.len()
                invariant
                    i <= xs.len(),
                    *j == Json::Array(*xs),
                    array_view(xs@).len() == xs.len(),
                    forall|t: int| 0 <= t < xs.len() ==> #[trigger] array_view(xs@)[t] == json_view(xs@[t]),
                    out@ == start + items_text(array_view(xs@).take(i as int)),
                decreases xs.len() - i,
            {
                proof {
                    assert(decreases_to!(*j => (*j)->Array_0));
                    assert(decreases_to!(*xs => xs@));
                    assert(decreases_to!(xs@ => xs@[i as int]));
                    assert(array_view(xs@).take(i + 1).drop_last() =~= array_view(xs@).take(i as int));
                }
                if i > 0 {
                    out.push(',');
                }
                write_json(out, &xs[i]);
                i = i + 1;
            }
            assert(array_view(xs@).take(xs.len() as int) =~= array_view(xs@));
            out.push(']');
        },
        Json::Object(ms) => {
            out.push('{');
            let ghost start = out@;
            let mut i: usize = 0;
            proof {
                lemma_members_view(ms@);
            }
            while i < ms.len()
                invariant
                    i <= ms.len(),
                    *j == Json::Object(*ms),
                    members_view(ms@).len() == ms.len(),
                    forall|t: int| 0 <= t < ms.len() ==> #[trigger] members_view(ms@)[t] == (ms@[t].0@, json_view(ms@[t].1)),
                    out@ == start + members_text(members_view(ms@).take(i as int)),
                decreases ms.len() - i,
            {
                proof {
                    assert(decreases_to!(*j => (*j)->Object_0));
                    assert(decreases_to!(*ms => ms@));
                    assert(decreases_to!(ms@ => ms@[i as int]));
                    assert(decreases_to!(ms@[i as int] => ms@[i as int].1));
                    assert(members_view(ms@).take(i + 1).drop_last() =~= members_view(ms@).take(i as int));
                }
                if i > 0 {
                    out.push(',');
                }
                push_quoted(out, &ms[i].0);
                out.push(':');
                write_json(out, &ms[i].1);
                i = i + 1;
            }
            assert(members_view(ms@).take(ms.len() as int) =~= members_view(ms@));
            out.push('}');
        },
    }
}

} // verus!
