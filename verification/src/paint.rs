//! Drawing a routed edge onto the canvas of a grouped diagram: its line through every cell of
//! the route, its heads, and its label beside the route.
//!
//! A line cell is cleared and records the directions it connects in its mask (together with
//! the directions of a frame border it crosses); the glyphs are chosen from the masks once
//! every edge is drawn. A label is never dropped: when it cannot be placed, painting fails and
//! the diagram is shown as source instead.

use vstd::prelude::*;

use crate::calendar::display_width;
use crate::calendar::text_width;
use crate::grouped::canvas_wf;
use crate::grouped::direction;
use crate::grouped::step_direction;
use crate::grouped::Canvas;
use crate::grouped::Cls;
use crate::grouped::LineKind;
use crate::text::str_to_chars;

verus! {

/// The head drawn at an end of an edge.
#[derive(Clone, Copy, Debug, PartialEq, Eq, Structural)]
pub enum Head {
    Absent,
    Arrow,
    Circle,
    Cross,
}

/// An edge between the items at positions `from` and `to`, with its label, heads and line.
pub struct Edge {
    pub from: usize,
    pub to: usize,
    pub label: Option<String>,
    pub head_to: Head,
    pub head_from: Head,
    pub line: LineKind,
}

/// Why a diagram cannot be drawn within its limits.
#[derive(Clone, Copy, Debug, PartialEq, Eq, Structural)]
pub enum Oversize {
    Width,
    Cells,
}

/// The cells of a canvas: characters, contents, claimed cells and line masks.
pub type Cells = (Seq<char>, Seq<Cls>, Seq<bool>, Seq<u8>);

pub open spec fn cells(c: Canvas) -> Cells {
    (c.ch@, c.cls@, c.occupied@, c.mask@)
}

/// The line directions of a frame-border glyph, none for other characters.
pub open spec fn border_bits(c: char) -> u8 {
    if c == '─' {
        3
    } else if c == '│' {
        12
    } else if c == '┌' {
        10
    } else if c == '┐' {
        9
    } else if c == '└' {
        6
    } else if c == '┘' {
        5
    } else {
        0
    }
}

fn border_bits_of(c: char) -> (r: u8)
    ensures
        r == border_bits(c),
{
    if c == '─' {
        3
    } else if c == '│' {
        12
    } else if c == '┌' {
        10
    } else if c == '┐' {
        9
    } else if c == '└' {
        6
    } else if c == '┘' {
        5
    } else {
        0
    }
}

/// The directions the line through the `k`th cell of `path` connects: towards the cells
/// before and after it.
pub open spec fn path_bits(path: Seq<usize>, w: int, k: int) -> u8 {
    let before: u8 = if k > 0 { step_direction(path[k] as int, path[k - 1] as int, w).0 } else { 0 };
    let after: u8 = if k + 1 < path.len() { step_direction(path[k] as int, path[k + 1] as int, w).0 } else { 0 };
    before | after
}

/// Cell `i` made a line cell: cleared, holding an edge, its mask gaining the directions of
/// the border glyph it held and `bits`.
pub open spec fn line_cell(v: Cells, i: int, bits: u8) -> Cells {
    (v.0.update(i, ' '), v.1.update(i, Cls::Edge), v.2, v.3.update(i, (v.3[i] | border_bits(v.0[i])) | bits))
}

/// The first `k` cells of `path` made line cells, in order.
pub open spec fn draw_lines(v: Cells, path: Seq<usize>, w: int, k: nat) -> Cells
    decreases k,
{
    if k == 0 {
        v
    } else {
        let k1 = (k - 1) as nat;
        line_cell(draw_lines(v, path, w, k1), path[k1 as int] as int, path_bits(path, w, k1 as int))
    }
}

/// The glyph of `head` pointing the way of `arrow`.
pub open spec fn head_glyph(head: Head, arrow: char) -> char {
    match head {
        Head::Arrow => arrow,
        Head::Circle => 'o',
        Head::Cross => 'x',
        Head::Absent => ' ',
    }
}

fn head_glyph_of(head: Head, arrow: char) -> (r: char)
    ensures
        r == head_glyph(head, arrow),
{
    match head {
        Head::Arrow => arrow,
        Head::Circle => 'o',
        Head::Cross => 'x',
        Head::Absent => ' ',
    }
}

/// The head at cell `index`, reached from `neighbor`: its glyph, and the cell claimed.
pub open spec fn head_cell(v: Cells, index: int, neighbor: int, head: Head, w: int) -> Cells {
    if head == Head::Absent {
        v
    } else {
        (v.0.update(index, head_glyph(head, step_direction(neighbor, index, w).1)), v.1, v.2.update(index, true), v.3)
    }
}

/// The heads of an edge along `path`: the start's, then the end's.
pub open spec fn draw_heads(v: Cells, path: Seq<usize>, w: int, head_from: Head, head_to: Head) -> Cells {
    let n = path.len() as int;
    head_cell(
        head_cell(v, path[0] as int, path[1] as int, head_from, w),
        path[n - 1] as int,
        path[n - 2] as int,
        head_to,
        w,
    )
}

/// A label `lw` columns wide fits at column `start` of `row`: within the canvas, on blank
/// cells that carry no line and that nothing claims.
pub open spec fn label_fits(v: Cells, w: int, start: int, row: int, lw: int) -> bool {
    &&& start + lw <= w
    &&& forall|col: int| start <= col < start + lw ==> {
        let c = row * w + col;
        v.0[c] == ' ' && v.3[c] == 0 && !v.2[#[trigger] (row * w + col)]
    }
}

/// Where a label goes: trying the cells of `path` from position `k - 1` down to the first,
/// right of the cell, else on the row above it (the same row on the top row).
pub open spec fn label_spot(v: Cells, path: Seq<usize>, w: int, lw: int, k: int) -> Option<(int, int)>
    decreases k,
{
    if k <= 0 {
        None
    } else {
        let index = path[k - 1] as int;
        let x = index % w;
        let y = index / w;
        let above = if y > 0 { y - 1 } else { 0 };
        if label_fits(v, w, x + 1, y, lw) {
            Some((x + 1, y))
        } else if label_fits(v, w, x, above, lw) {
            Some((x, above))
        } else {
            label_spot(v, path, w, lw, k - 1)
        }
    }
}

/// The label `text` written from column `start` of `row`, a character a cell over its `lw`
/// columns, each marked as a label.
pub open spec fn draw_label(v: Cells, text: Seq<char>, w: int, start: int, row: int, lw: int) -> Cells {
    let m = if text.len() < lw { text.len() as int } else { lw };
    (
        Seq::new(v.0.len(), |c: int| if row * w + start <= c < row * w + start + m { text[c - row * w - start] } else { v.0[c] }),
        Seq::new(v.1.len(), |c: int| if row * w + start <= c < row * w + start + m { Cls::EdgeLabel } else { v.1[c] }),
        v.2,
        v.3,
    )
}

/// A path of at least two cells of the canvas.
pub open spec fn path_on(c: Canvas, path: Seq<usize>) -> bool {
    &&& path.len() >= 2
    &&& forall|k: int| 0 <= k < path.len() ==> #[trigger] path[k] < c.w * c.h
}

/// Whether a label `lw` columns wide fits at (`start`, `row`) (see [`label_fits`]).
fn fits(canvas: &Canvas, start: usize, row: usize, lw: usize) -> (r: bool)
    requires
        canvas_wf(*canvas),
        row < canvas.h,
    ensures
        r == label_fits(cells(*canvas), canvas.w as int, start as int, row as int, lw as int),
{
    let w = canvas.w;
    if start > w || lw > w - start {
        return false;
    }
    let mut col = start;
    while col < start + lw
        invariant
            canvas_wf(*canvas),
            w == canvas.w,
            row < canvas.h,
            start <= col <= start + lw,
            start + lw <= w,
            forall|k: int| start <= k < col ==> {
                let c = row * w + k;
                canvas.ch@[c] == ' ' && canvas.mask@[c] == 0 && !canvas.occupied@[#[trigger] (row * w + k)]
            },
        decreases start + lw - col,
    {
        let c = canvas.idx(col, row);
        if canvas.ch[c] != ' ' || canvas.mask[c] != 0 || canvas.occupied[c] {
            return false;
        }
        col = col + 1;
    }
    true
}

/// Draws `edge` along `path` (a route): its line through every cell, its heads, and its
/// label at the first place along the route, from the end, where it fits; the canvas takes
/// the edge's line style. An edge whose label is wider than `max_label` columns or fits
/// nowhere gives `Err(Oversize::Cells)` once line and heads are drawn, so that the diagram
/// is not shown without it.
pub fn paint(canvas: &mut Canvas, path: &[usize], edge: &Edge, max_label: usize) -> (r: Result<(), Oversize>)
    requires
        canvas_wf(*old(canvas)),
        path_on(*old(canvas), path@),
    ensures
        canvas_wf(*final(canvas)),
        final(canvas).w == old(canvas).w,
        final(canvas).h == old(canvas).h,
        final(canvas).line == edge.line,
        ({
            let w = old(canvas).w as int;
            let drawn = draw_heads(
                draw_lines(cells(*old(canvas)), path@, w, path@.len()),
                path@,
                w,
                edge.head_from,
                edge.head_to,
            );
            match edge.label {
                None => r is Ok && cells(*final(canvas)) == drawn,
                Some(text) => {
                    let lw = display_width(text@);
                    if lw > max_label {
                        r == Err::<(), Oversize>(Oversize::Cells) && cells(*final(canvas)) == drawn
                    } else {
                        match label_spot(drawn, path@, w, lw, path@.len() as int) {
                            None => r == Err::<(), Oversize>(Oversize::Cells) && cells(*final(canvas)) == drawn,
                            Some((x, y)) => r is Ok && cells(*final(canvas)) == draw_label(drawn, text@, w, x, y, lw),
                        }
                    }
                },
            }
        }),
{
    let w = canvas.w;
    let ghost n = canvas.w * canvas.h;
    let ghost v0 = cells(*canvas);
    let ghost h0 = canvas.h;
    canvas.line = edge.line;
    let mut k: usize = 0;
    while k < path.len()
        invariant
            canvas_wf(*canvas),
            w == canvas.w,
            canvas.h == h0,
            canvas.line == edge.line,
            n == canvas.w * canvas.h,
            path_on(*canvas, path@),
            k <= path@.len(),
            cells(*canvas) == draw_lines(v0, path@, w as int, k as nat),
        decreases path@.len() - k,
    {
        let index = path[k];
        assert(path@[k as int] < n);
        let border = border_bits_of(canvas.ch[index]);
        let m = canvas.mask[index] | border;
        canvas.mask.set(index, m);
        canvas.ch.set(index, ' ');
        let before: u8 = if k > 0 {
            direction(index, path[k - 1], w).0
        } else {
            0
        };
        let after: u8 = if k + 1 < path.len() {
            direction(index, path[k + 1], w).0
        } else {
            0
        };
        let bits = before | after;
        let m2 = canvas.mask[index] | bits;
        canvas.mask.set(index, m2);
        canvas.cls.set(index, Cls::Edge);
        proof {
            assert(bits == path_bits(path@, w as int, k as int));
            assert(cells(*canvas) =~= draw_lines(v0, path@, w as int, (k + 1) as nat));
        }
        k = k + 1;
    }
    let ghost lined = cells(*canvas);
    let last = path.len() - 1;
    if edge.head_from != Head::Absent {
        let arrow = direction(path[1], path[0], w).1;
        canvas.ch.set(path[0], head_glyph_of(edge.head_from, arrow));
        canvas.occupied.set(path[0], true);
    }
    let ghost first_head = cells(*canvas);
    assert(first_head =~= head_cell(lined, path@[0] as int, path@[1] as int, edge.head_from, w as int));
    if edge.head_to != Head::Absent {
        let arrow = direction(path[last - 1], path[last], w).1;
        canvas.ch.set(path[last], head_glyph_of(edge.head_to, arrow));
        canvas.occupied.set(path[last], true);
    }
    let ghost drawn = cells(*canvas);
    assert(drawn =~= draw_heads(lined, path@, w as int, edge.head_from, edge.head_to));
    let text = match &edge.label {
        None => return Ok(()),
        Some(label) => str_to_chars(label.as_str()),
    };
    let lw = text_width(text.as_slice());
    if lw > max_label {
        return Err(Oversize::Cells);
    }
    let mut k: usize = path.len();
    let mut spot: Option<(usize, usize)> = None;
    while k > 0 && spot.is_none()
        invariant
            canvas_wf(*canvas),
            w == canvas.w,
            canvas.h == h0,
            canvas.line == edge.line,
            n == canvas.w * canvas.h,
            path_on(*canvas, path@),
            cells(*canvas) == drawn,
            k <= path@.len(),
            spot is None ==> label_spot(drawn, path@, w as int, lw as int, path@.len() as int) == label_spot(
                drawn,
                path@,
                w as int,
                lw as int,
                k as int,
            ),
            spot matches Some((a, b)) ==> label_spot(drawn, path@, w as int, lw as int, path@.len() as int)
                == Some((a as int, b as int)) && label_fits(drawn, w as int, a as int, b as int, lw as int)
                && b < canvas.h,
        decreases k + (if spot is None { 1int } else { 0int }),
    {
        let index = path[k - 1];
        assert(path@[k - 1] < n);
        let x = index % w;
        let y = index / w;
        proof {
            assert(y < canvas.h) by (nonlinear_arith)
                requires
                    index < canvas.w * canvas.h,
                    y == index / canvas.w,
                    canvas.w > 0,
            ;
        }
        let above = if y > 0 {
            y - 1
        } else {
            0
        };
        if fits(canvas, x + 1, y, lw) {
            spot = Some((x + 1, y));
        } else if fits(canvas, x, above, lw) {
            spot = Some((x, above));
        } else {
            k = k - 1;
        }
    }
    let (start, row) = match spot {
        None => return Err(Oversize::Cells),
        Some(p) => p,
    };
    let count = if text.len() < lw {
        text.len()
    } else {
        lw
    };
    proof {
        assert(row * w + start + lw <= n) by (nonlinear_arith)
            requires
                start + lw <= w,
                row < canvas.h,
                n == canvas.w * canvas.h,
                w == canvas.w,
        ;
    }
    let base = row * w + start;
    let mut j: usize = 0;
    while j < count
        invariant
            canvas_wf(*canvas),
            canvas.h == h0,
            canvas.line == edge.line,
            canvas.w == w,
            n == canvas.w * canvas.h,
            j <= count,
            count <= text@.len(),
            count <= lw,
            base + lw <= n,
            cells(*canvas) == (
                Seq::new(drawn.0.len(), |c: int| if base <= c < base + j { text@[c - base] } else { drawn.0[c] }),
                Seq::new(drawn.1.len(), |c: int| if base <= c < base + j { Cls::EdgeLabel } else { drawn.1[c] }),
                drawn.2,
                drawn.3,
            ),
        decreases count - j,
    {
        canvas.ch.set(base + j, text[j]);
        canvas.cls.set(base + j, Cls::EdgeLabel);
        proof {
            let t0 = Seq::new(drawn.0.len(), |c: int| if base <= c < base + j + 1 { text@[c - base] } else { drawn.0[c] });
            let t1 = Seq::new(drawn.1.len(), |c: int| if base <= c < base + j + 1 { Cls::EdgeLabel } else { drawn.1[c] });
            assert(canvas.ch@ =~= t0);
            assert(canvas.cls@ =~= t1);
        }
        j = j + 1;
    }
    Ok(())
}

} // verus!
