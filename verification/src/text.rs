//! Character-sequence helpers shared by the parsers.

use vstd::prelude::*;

verus! {

/// Unicode `White_Space` property, the set that `char::is_whitespace` and `str::trim` use.
pub open spec fn is_white_space(c: char) -> bool {
    ||| ('\t' <= c && c <= '\r')
    ||| c == ' '
    ||| c == '\u{85}'
    ||| c == '\u{a0}'
    ||| c == '\u{1680}'
    ||| ('\u{2000}' <= c && c <= '\u{200a}')
    ||| c == '\u{2028}'
    ||| c == '\u{2029}'
    ||| c == '\u{202f}'
    ||| c == '\u{205f}'
    ||| c == '\u{3000}'
}

/// Whether `c` has the Unicode `White_Space` property.
pub fn is_whitespace(c: char) -> (r: bool)
    ensures
        r == is_white_space(c),
{
    ('\t' <= c && c <= '\r') || c == ' ' || c == '\u{85}' || c == '\u{a0}' || c == '\u{1680}'
        || ('\u{2000}' <= c && c <= '\u{200a}') || c == '\u{2028}' || c == '\u{2029}'
        || c == '\u{202f}' || c == '\u{205f}' || c == '\u{3000}'
}

} // verus!

verus! {

/// `i` is the first position of `s` that holds `c`.
pub open spec fn first_index_of(s: Seq<char>, c: char, i: int) -> bool {
    &&& 0 <= i < s.len()
    &&& s[i] == c
    &&& forall|j: int| 0 <= j < i ==> s[j] != c
}

/// `i` is the first whitespace position of `s`.
pub open spec fn first_ws_at(s: Seq<char>, i: int) -> bool {
    &&& 0 <= i < s.len()
    &&& is_white_space(s[i])
    &&& forall|j: int| 0 <= j < i ==> !is_white_space(s[j])
}

/// `i` is the first non-whitespace position of `s`.
pub open spec fn first_non_ws_at(s: Seq<char>, i: int) -> bool {
    &&& 0 <= i < s.len()
    &&& !is_white_space(s[i])
    &&& forall|j: int| 0 <= j < i ==> is_white_space(s[j])
}

/// `i` is the last non-whitespace position of `s`.
pub open spec fn last_non_ws_at(s: Seq<char>, i: int) -> bool {
    &&& 0 <= i < s.len()
    &&& !is_white_space(s[i])
    &&& forall|j: int| i < j < s.len() ==> is_white_space(s[j])
}

pub open spec fn all_white_space(s: Seq<char>) -> bool {
    forall|j: int| 0 <= j < s.len() ==> is_white_space(s[j])
}

/// `s` without leading and trailing whitespace (what `str::trim` returns).
pub open spec fn trim(s: Seq<char>) -> Seq<char> {
    if all_white_space(s) {
        Seq::empty()
    } else {
        let a = choose|a: int| first_non_ws_at(s, a);
        let b = choose|b: int| last_non_ws_at(s, b);
        s.subrange(a, b + 1)
    }
}

/// `s` without trailing whitespace (what `str::trim_end` returns).
pub open spec fn trim_end(s: Seq<char>) -> Seq<char> {
    if all_white_space(s) {
        Seq::empty()
    } else {
        let b = choose|b: int| last_non_ws_at(s, b);
        s.subrange(0, b + 1)
    }
}

/// The two sides of `s` around its first occurrence of `c` (what `str::split_once(c)` returns).
pub open spec fn split_once_char(s: Seq<char>, c: char) -> Option<(Seq<char>, Seq<char>)> {
    if exists|i: int| first_index_of(s, c, i) {
        let i = choose|i: int| first_index_of(s, c, i);
        Some((s.take(i), s.skip(i + 1)))
    } else {
        None
    }
}

/// The two sides of `s` around its first whitespace character.
pub open spec fn split_once_ws(s: Seq<char>) -> Option<(Seq<char>, Seq<char>)> {
    if exists|i: int| first_ws_at(s, i) {
        let i = choose|i: int| first_ws_at(s, i);
        Some((s.take(i), s.skip(i + 1)))
    } else {
        None
    }
}

/// The pieces of `s` between occurrences of `sep` (what `str::split(sep)` yields).
pub open spec fn split_on(s: Seq<char>, sep: char) -> Seq<Seq<char>>
    decreases s.len(),
{
    if s.len() == 0 {
        seq![Seq::empty()]
    } else {
        let p = split_on(s.drop_last(), sep);
        if s.last() == sep {
            p.push(Seq::empty())
        } else {
            p.update(p.len() - 1, p.last().push(s.last()))
        }
    }
}

pub proof fn lemma_split_on_nonempty(s: Seq<char>, sep: char)
    ensures
        split_on(s, sep).len() >= 1,
    decreases s.len(),
{
    if s.len() > 0 {
        lemma_split_on_nonempty(s.drop_last(), sep);
    }
}

/// The character sequences held by a vector of character vectors.
pub open spec fn views_of(v: Seq<Vec<char>>) -> Seq<Seq<char>> {
    Seq::new(v.len(), |i: int| v[i]@)
}

/// Whether `s` begins with `prefix`.
pub open spec fn starts_with(s: Seq<char>, prefix: Seq<char>) -> bool {
    prefix.len() <= s.len() && s.take(prefix.len() as int) == prefix
}

/// The code of `c` after ASCII lowercasing.
pub open spec fn ascii_lower(c: char) -> int {
    if 'A' <= c && c <= 'Z' {
        (c as u32) + 32
    } else {
        c as int
    }
}

/// ASCII case-insensitive equality (what `str::eq_ignore_ascii_case` computes).
pub open spec fn eq_ignore_ascii_case(a: Seq<char>, b: Seq<char>) -> bool {
    a.len() == b.len() && forall|i: int| 0 <= i < a.len() ==> ascii_lower(a[i]) == ascii_lower(b[i])
}

/// Whether `c` is an ASCII decimal digit.
pub open spec fn is_digit(c: char) -> bool {
    '0' <= c && c <= '9'
}

/// A copy of `s[a..b]`.
pub fn copy_range(s: &[char], a: usize, b: usize) -> (r: Vec<char>)
    requires
        a <= b <= s@.len(),
    ensures
        r@ == s@.subrange(a as int, b as int),
{
    let mut r: Vec<char> = Vec::new();
    let mut i = a;
    while i < b
        invariant
            a <= i <= b <= s@.len(),
            r@ == s@.subrange(a as int, i as int),
        decreases b - i,
    {
        r.push(s[i]);
        i += 1;
        assert(r@ =~= s@.subrange(a as int, i as int));
    }
    r
}

/// Whether `a` and `b` hold the same characters.
pub fn chars_eq(a: &[char], b: &[char]) -> (r: bool)
    ensures
        r == (a@ == b@),
{
    if a.len() != b.len() {
        return false;
    }
    let mut i: usize = 0;
    while i < a.len()
        invariant
            i <= a@.len(),
            a@.len() == b@.len(),
            forall|j: int| 0 <= j < i ==> a@[j] == b@[j],
        decreases a@.len() - i,
    {
        if a[i] != b[i] {
            return false;
        }
        i += 1;
    }
    assert(a@ =~= b@);
    true
}

/// Whether `s` begins with `prefix`.
pub fn has_prefix(s: &[char], prefix: &[char]) -> (r: bool)
    ensures
        r == starts_with(s@, prefix@),
{
    if prefix.len() > s.len() {
        return false;
    }
    let mut i: usize = 0;
    while i < prefix.len()
        invariant
            i <= prefix@.len() <= s@.len(),
            forall|j: int| 0 <= j < i ==> s@[j] == prefix@[j],
        decreases prefix@.len() - i,
    {
        if s[i] != prefix[i] {
            assert(s@.take(prefix@.len() as int)[i as int] != prefix@[i as int]);
            return false;
        }
        i += 1;
    }
    assert(s@.take(prefix@.len() as int) =~= prefix@);
    true
}

fn to_ascii_lower(c: char) -> (r: u32)
    ensures
        r == ascii_lower(c),
{
    if 'A' <= c && c <= 'Z' {
        (c as u32) + 32
    } else {
        c as u32
    }
}

/// ASCII case-insensitive equality.
pub fn chars_eq_ignore_ascii_case(a: &[char], b: &[char]) -> (r: bool)
    ensures
        r == eq_ignore_ascii_case(a@, b@),
{
    if a.len() != b.len() {
        return false;
    }
    let mut i: usize = 0;
    while i < a.len()
        invariant
            i <= a@.len(),
            a@.len() == b@.len(),
            forall|j: int| 0 <= j < i ==> ascii_lower(a@[j]) == ascii_lower(b@[j]),
        decreases a@.len() - i,
    {
        if to_ascii_lower(a[i]) != to_ascii_lower(b[i]) {
            return false;
        }
        i += 1;
    }
    true
}

/// Position of the first `c` in `s`.
pub fn find_char(s: &[char], c: char) -> (r: Option<usize>)
    ensures
        match r {
            Some(i) => first_index_of(s@, c, i as int),
            None => forall|j: int| 0 <= j < s@.len() ==> s@[j] != c,
        },
{
    let mut i: usize = 0;
    while i < s.len()
        invariant
            i <= s@.len(),
            forall|j: int| 0 <= j < i ==> s@[j] != c,
        decreases s@.len() - i,
    {
        if s[i] == c {
            return Some(i);
        }
        i += 1;
    }
    None
}

/// `split_once(c)` on a character sequence.
pub fn split_once(s: &[char], c: char) -> (r: Option<(Vec<char>, Vec<char>)>)
    ensures
        match r {
            Some((a, b)) => split_once_char(s@, c) == Some((a@, b@)),
            None => split_once_char(s@, c) is None,
        },
{
    match find_char(s, c) {
        Some(i) => {
            assert(i < s.len());
            proof {
                let k = choose|k: int| first_index_of(s@, c, k);
                assert(k == i as int) by {
                    if k < i { } else if k > i { }
                }
            }
            let a = copy_range(s, 0, i);
            let b = copy_range(s, i + 1, s.len());
            assert(a@ =~= s@.take(i as int));
            assert(b@ =~= s@.skip(i + 1));
            Some((a, b))
        },
        None => None,
    }
}

/// `split_once(char::is_whitespace)` on a character sequence.
pub fn split_once_whitespace(s: &[char]) -> (r: Option<(Vec<char>, Vec<char>)>)
    ensures
        match r {
            Some((a, b)) => split_once_ws(s@) == Some((a@, b@)),
            None => split_once_ws(s@) is None,
        },
{
    let mut i: usize = 0;
    while i < s.len()
        invariant
            i <= s@.len(),
            forall|j: int| 0 <= j < i ==> !is_white_space(s@[j]),
        decreases s@.len() - i,
    {
        if is_whitespace(s[i]) {
            assert(first_ws_at(s@, i as int));
            proof {
                let k = choose|k: int| first_ws_at(s@, k);
                assert(k == i as int) by {
                    if k < i { } else if k > i { }
                }
            }
            let a = copy_range(s, 0, i);
            let b = copy_range(s, i + 1, s.len());
            assert(a@ =~= s@.take(i as int));
            assert(b@ =~= s@.skip(i + 1));
            return Some((a, b));
        }
        i += 1;
    }
    None
}

/// `str::trim` on a character sequence.
pub fn trim_chars(s: &[char]) -> (r: Vec<char>)
    ensures
        r@ == trim(s@),
        r@.len() > 0 ==> !is_white_space(r@[0]) && !is_white_space(r@.last()),
{
    let mut a: usize = 0;
    while a < s.len() && is_whitespace(s[a])
        invariant
            a <= s@.len(),
            forall|j: int| 0 <= j < a ==> is_white_space(s@[j]),
        decreases s@.len() - a,
    {
        a += 1;
    }
    if a == s.len() {
        assert(all_white_space(s@));
        return Vec::new();
    }
    assert(first_non_ws_at(s@, a as int));
    let mut b: usize = s.len() - 1;
    while b > a && is_whitespace(s[b])
        invariant
            a <= b < s@.len(),
            !is_white_space(s@[a as int]),
            forall|j: int| b < j < s@.len() ==> is_white_space(s@[j]),
        decreases b,
    {
        b -= 1;
    }
    assert(last_non_ws_at(s@, b as int));
    proof {
        let ka = choose|k: int| first_non_ws_at(s@, k);
        assert(ka == a as int) by {
            if ka < a { } else if ka > a { }
        }
        let kb = choose|k: int| last_non_ws_at(s@, k);
        assert(kb == b as int) by {
            if kb < b { } else if kb > b { }
        }
    }
    copy_range(s, a, b + 1)
}

/// `str::trim_end` on a character sequence.
pub fn trim_end_chars(s: &[char]) -> (r: Vec<char>)
    ensures
        r@ == trim_end(s@),
{
    let mut b: usize = s.len();
    while b > 0 && is_whitespace(s[b - 1])
        invariant
            b <= s@.len(),
            forall|j: int| b <= j < s@.len() ==> is_white_space(s@[j]),
        decreases b,
    {
        b -= 1;
    }
    if b == 0 {
        assert(all_white_space(s@));
        return Vec::new();
    }
    assert(last_non_ws_at(s@, b - 1));
    proof {
        let kb = choose|k: int| last_non_ws_at(s@, k);
        assert(kb == b - 1) by {
            if kb < b - 1 { } else if kb > b - 1 { }
        }
    }
    copy_range(s, 0, b)
}

/// `str::split(sep)` on a character sequence.
pub fn split_chars(s: &[char], sep: char) -> (r: Vec<Vec<char>>)
    ensures
        views_of(r@) == split_on(s@, sep),
{
    let mut done: Vec<Vec<char>> = Vec::new();
    let mut cur: Vec<char> = Vec::new();
    let mut i: usize = 0;
    while i < s.len()
        invariant
            i <= s@.len(),
            views_of(done@).push(cur@) == split_on(s@.take(i as int), sep),
        decreases s@.len() - i,
    {
        let ghost prev = s@.take(i as int);
        assert(s@.take(i + 1).drop_last() =~= prev);
        let ghost pieces = split_on(prev, sep);
        proof { lemma_split_on_nonempty(prev, sep); }
        if s[i] == sep {
            let ghost before = views_of(done@);
            let finished = cur;
            let ghost fin = finished@;
            done.push(finished);
            assert(views_of(done@) =~= before.push(fin));
            cur = Vec::new();
            assert(views_of(done@).push(cur@) =~= pieces.push(Seq::empty()));
        } else {
            cur.push(s[i]);
            assert(views_of(done@).push(cur@) =~= pieces.update(pieces.len() - 1, pieces.last().push(s@[i as int])));
        }
        i += 1;
    }
    assert(s@.take(s@.len() as int) =~= s@);
    let ghost before = views_of(done@);
    let ghost last = cur@;
    done.push(cur);
    assert(views_of(done@) =~= before.push(last));
    done
}

} // verus!

verus! {

/// The characters of `s` in order.
pub(crate) fn str_to_chars(s: &str) -> (r: Vec<char>)
    ensures
        r@ == s@,
{
    broadcast use vstd::string::axiom_spec_iter;
    let mut out: Vec<char> = Vec::new();
    for c in it: s.chars()
        invariant
            out@.len() == it.index(),
            forall|i: int| 0 <= i < out@.len() ==> out@[i] == it.seq()[i],
    {
        out.push(c);
    }
    assert(out@ =~= s@);
    out
}

/// A `String` holding the characters of `v` (`Iterator::collect`).
#[verifier::external_body]
pub(crate) fn chars_to_string(v: &[char]) -> (r: String)
    ensures
        r@ == v@,
{
    v.iter().collect()
}

/// `s` with leading and trailing whitespace removed (`str::trim`).
pub fn trim_string(s: &str) -> (r: String)
    ensures
        r@ == trim(s@),
        r@.len() > 0 ==> !is_white_space(r@[0]) && !is_white_space(r@.last()),
{
    let cs = str_to_chars(s);
    let t = trim_chars(&cs);
    chars_to_string(&t)
}


/// The decimal digits of `n`.
pub open spec fn decimal(n: nat) -> Seq<char>
    decreases n,
{
    if n < 10 {
        seq![(('0' as int) + n) as char]
    } else {
        decimal(n / 10) + seq![(('0' as int) + n % 10) as char]
    }
}

fn digit_char(d: u64) -> (c: char)
    requires
        d < 10,
    ensures
        c == (('0' as int) + d) as char,
{
    let digits: [char; 10] = ['0', '1', '2', '3', '4', '5', '6', '7', '8', '9'];
    assert(digits@ == seq!['0', '1', '2', '3', '4', '5', '6', '7', '8', '9']);
    digits[d as usize]
}

/// The decimal digits of `n` as characters.
pub fn decimal_chars(n: u64) -> (r: Vec<char>)
    ensures
        r@ == decimal(n as nat),
    decreases n,
{
    if n < 10 {
        let mut v: Vec<char> = Vec::new();
        v.push(digit_char(n));
        assert(v@ =~= seq![(('0' as int) + n) as char]);
        v
    } else {
        let mut v = decimal_chars(n / 10);
        v.push(digit_char(n % 10));
        v
    }
}

/// `n` written in decimal.
pub fn decimal_string(n: u64) -> (r: String)
    ensures
        r@ == decimal(n as nat),
{
    let v = decimal_chars(n);
    chars_to_string(&v)
}

} // verus!
