//! Bounds on terminal diagrams. A diagram that breaks them keeps its source display.

use vstd::prelude::*;

use vstd::utf8::encode_utf8;

use crate::calendar::display_width;
use crate::calendar::text_width;
use crate::text::all_white_space;
use crate::text::is_white_space;
use crate::text::is_whitespace;
use crate::text::str_to_chars;

verus! {

/// Largest source accepted, in bytes.
pub const MAX_SOURCE_BYTES: usize = 16384;

/// Most source lines accepted.
pub const MAX_SOURCE_LINES: usize = 512;

/// Most lines a drawn diagram may take.
pub const MAX_RENDERED_LINES: usize = 256;

/// Widest a drawn diagram may be, in columns.
pub const MAX_COLUMNS: usize = 240;

/// A control character (`char::is_control`: the Unicode category Cc).
pub open spec fn is_control(c: char) -> bool {
    (c as u32) <= 0x1f || (0x7f <= (c as u32) && (c as u32) <= 0x9f)
}

/// How many lines `str::lines` yields: one for each position that starts a line (the first,
/// and each one after a line feed).
pub open spec fn line_count(s: Seq<char>) -> nat
    decreases s.len(),
{
    if s.len() == 0 {
        0
    } else if s.len() == 1 || s[s.len() - 2] == '\n' {
        line_count(s.drop_last()) + 1
    } else {
        line_count(s.drop_last())
    }
}

/// A source that may be drawn: at most [`MAX_SOURCE_BYTES`] bytes and
/// [`MAX_SOURCE_LINES`] lines, and no control characters but line feed, carriage return
/// and tab.
pub open spec fn source_within_bounds_spec(s: Seq<char>) -> bool {
    &&& encode_utf8(s).len() <= MAX_SOURCE_BYTES
    &&& line_count(s) <= MAX_SOURCE_LINES
    &&& forall|i: int|
        0 <= i < s.len() ==> !(is_control(#[trigger] s[i]) && s[i] != '\n' && s[i] != '\r' && s[i] != '\t')
}

fn is_control_char(c: char) -> (r: bool)
    ensures
        r == is_control(c),
{
    let code = c as u32;
    code <= 0x1f || (0x7f <= code && code <= 0x9f)
}

/// Whether `source` may be drawn (see [`source_within_bounds_spec`]).
pub fn source_within_bounds(source: &str) -> (r: bool)
    requires
        encode_utf8(source@).len() <= usize::MAX,
    ensures
        r == source_within_bounds_spec(source@),
{
    if source.len() > MAX_SOURCE_BYTES {
        return false;
    }
    let cs = str_to_chars(source);
    let mut lines: usize = 0;
    let mut i: usize = 0;
    while i < cs.len()
        invariant
            i <= cs.len(),
            cs@ == source@,
            lines as nat == line_count(cs@.take(i as int)),
            lines <= i,
            forall|j: int| 0 <= j < i ==> !(is_control(#[trigger] cs@[j]) && cs@[j] != '\n' && cs@[j] != '\r' && cs@[j] != '\t'),
        decreases cs.len() - i,
    {
        let c = cs[i];
        if is_control_char(c) && c != '\n' && c != '\r' && c != '\t' {
            return false;
        }
        proof {
            assert(cs@.take(i + 1).drop_last() =~= cs@.take(i as int));
        }
        let starts_line = i == 0 || cs[i - 1] == '\n';
        if starts_line {
            lines = lines + 1;
        }
        i = i + 1;
    }
    assert(cs@.take(cs.len() as int) =~= cs@);
    lines <= MAX_SOURCE_LINES
}

/// The drawing width: the terminal's (120 when unknown), at most [`MAX_COLUMNS`].
pub fn effective_width(width: Option<usize>) -> (r: usize)
    ensures
        r == match width {
            Some(w) => if w < MAX_COLUMNS {
                w
            } else {
                MAX_COLUMNS
            },
            None => 120,
        },
{
    let w = match width {
        Some(w) => w,
        None => 120,
    };
    if w < MAX_COLUMNS {
        w
    } else {
        MAX_COLUMNS
    }
}

/// What a renderer produced: whether it fell back to the source, its lines as text, and how
/// many styled lines it drew.
pub struct DiagramArt {
    pub is_fallback: bool,
    pub plain_lines: Vec<String>,
    pub styled_line_count: usize,
}

pub open spec fn strings_view(v: Seq<String>) -> Seq<Seq<char>> {
    v.map_values(|s: String| s@)
}

/// A drawing that can be shown: not a fallback, at most [`MAX_RENDERED_LINES`] lines, and
/// each line within `width` columns and free of control characters.
pub open spec fn art_fits(is_fallback: bool, styled: nat, lines: Seq<Seq<char>>, width: int) -> bool {
    &&& !is_fallback
    &&& styled <= MAX_RENDERED_LINES
    &&& forall|i: int|
        0 <= i < lines.len() ==> display_width(#[trigger] lines[i]) <= width && forall|j: int|
            0 <= j < lines[i].len() ==> !is_control(lines[i][j])
}

/// The lines shown of a drawing that fits: from its first to its last line that is not
/// blank, both included (`None` when every line is blank).
pub open spec fn shown_range(lines: Seq<Seq<char>>) -> Option<(int, int)> {
    if forall|i: int| 0 <= i < lines.len() ==> all_white_space(#[trigger] lines[i]) {
        None
    } else {
        let a = choose|a: int|
            0 <= a < lines.len() && !all_white_space(lines[a]) && forall|j: int|
                0 <= j < a ==> all_white_space(#[trigger] lines[j]);
        let b = choose|b: int|
            0 <= b < lines.len() && !all_white_space(lines[b]) && forall|j: int|
                b < j < lines.len() ==> all_white_space(#[trigger] lines[j]);
        Some((a, b))
    }
}

fn is_blank(s: &String) -> (r: bool)
    ensures
        r == all_white_space(s@),
{
    let cs = str_to_chars(s.as_str());
    let mut i: usize = 0;
    while i < cs.len()
        invariant
            i <= cs.len(),
            cs@ == s@,
            forall|j: int| 0 <= j < i ==> is_white_space(cs@[j]),
        decreases cs.len() - i,
    {
        if !is_whitespace(cs[i]) {
            return false;
        }
        i = i + 1;
    }
    true
}

fn line_fits(s: &String, width: usize) -> (r: bool)
    ensures
        r == (display_width(s@) <= width && forall|j: int| 0 <= j < s@.len() ==> !is_control(s@[j])),
{
    let cs = str_to_chars(s.as_str());
    if text_width(&cs) > width {
        return false;
    }
    let mut i: usize = 0;
    while i < cs.len()
        invariant
            i <= cs.len(),
            cs@ == s@,
            forall|j: int| 0 <= j < i ==> !is_control(cs@[j]),
        decreases cs.len() - i,
    {
        if is_control_char(cs[i]) {
            return false;
        }
        i = i + 1;
    }
    true
}

/// Which lines of `art` to show at `width`: none when the drawing does not fit (the source
/// is shown instead), else the span from the first to the last non-blank line.
pub fn shown_lines(art: &DiagramArt, width: usize) -> (r: Option<(usize, usize)>)
    ensures
        match r {
            Some((a, b)) => art_fits(art.is_fallback, art.styled_line_count as nat, strings_view(art.plain_lines@), width as int)
                && shown_range(strings_view(art.plain_lines@)) == Some((a as int, b as int)),
            None => !art_fits(art.is_fallback, art.styled_line_count as nat, strings_view(art.plain_lines@), width as int)
                || shown_range(strings_view(art.plain_lines@)) is None,
        },
{
    let ghost lines = strings_view(art.plain_lines@);
    if art.is_fallback || art.styled_line_count > MAX_RENDERED_LINES {
        return None;
    }
    let n = art.plain_lines.len();
    let mut i: usize = 0;
    while i < n
        invariant
            i <= n,
            n == lines.len(),
            lines == strings_view(art.plain_lines@),
            forall|t: int| 0 <= t < i ==> display_width(#[trigger] lines[t]) <= width && forall|j: int|
                0 <= j < lines[t].len() ==> !is_control(lines[t][j]),
        decreases n - i,
    {
        if !line_fits(&art.plain_lines[i], width) {
            assert(!(display_width(lines[i as int]) <= width && forall|j: int|
                0 <= j < lines[i as int].len() ==> !is_control(lines[i as int][j])));
            return None;
        }
        i = i + 1;
    }
    let mut a: usize = 0;
    while a < n && is_blank(&art.plain_lines[a])
        invariant
            a <= n,
            n == lines.len(),
            lines == strings_view(art.plain_lines@),
            forall|t: int| 0 <= t < a ==> all_white_space(#[trigger] lines[t]),
        decreases n - a,
    {
        a = a + 1;
    }
    if a == n {
        return None;
    }
    let mut b: usize = n - 1;
    while b > a && is_blank(&art.plain_lines[b])
        invariant
            a <= b < n,
            n == lines.len(),
            lines == strings_view(art.plain_lines@),
            !all_white_space(lines[a as int]),
            forall|t: int| b < t < n ==> all_white_space(#[trigger] lines[t]),
        decreases b,
    {
        b = b - 1;
    }
    proof {
        assert(!all_white_space(lines[b as int]));
        let ca = choose|x: int|
            0 <= x < lines.len() && !all_white_space(lines[x]) && forall|j: int|
                0 <= j < x ==> all_white_space(#[trigger] lines[j]);
        assert(ca == a as int) by {
            if ca < a {
                assert(all_white_space(lines[ca]));
            } else if ca > a {
                assert(all_white_space(lines[a as int]));
            }
        }
        let cb = choose|x: int|
            0 <= x < lines.len() && !all_white_space(lines[x]) && forall|j: int|
                x < j < lines.len() ==> all_white_space(#[trigger] lines[j]);
        assert(cb == b as int) by {
            if cb < b {
                assert(all_white_space(lines[b as int]));
            } else if cb > b {
                assert(all_white_space(lines[cb]));
            }
        }
    }
    Some((a, b))
}

} // verus!
