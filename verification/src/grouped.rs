//! Routing edges between the boxes of a grouped (subgraph) diagram.
//!
//! A scene is a canvas with the rectangle of every node and group frame. An edge leaves its
//! source through one of four ports (right, bottom, left, top) and reaches its target
//! through another; between them it follows free cells, may cross the frame of a group that
//! holds one of its ends only at right angles, and never runs along such a frame.

use vstd::prelude::*;

use vstd::arithmetic::div_mod::lemma_fundamental_div_mod_converse;

verus! {

/// Line direction bits of a cell.
pub const L: u8 = 1;
pub const R: u8 = 2;
pub const U: u8 = 4;
pub const D: u8 = 8;

/// Something drawn as a box: a node or a group frame.
#[derive(Clone, Copy, Debug, PartialEq, Eq, Structural)]
pub enum Item {
    Node(usize),
    Group(usize),
}

/// Where a box was placed: its corner, size, centre cell and layer.
#[derive(Clone, Copy, Debug, PartialEq, Eq, Structural)]
pub struct Placed {
    pub x: usize,
    pub y: usize,
    pub w: usize,
    pub h: usize,
    pub cx: usize,
    pub cy: usize,
    pub rank: usize,
}

/// What a canvas cell holds.
#[derive(Clone, Copy, Debug, PartialEq, Eq, Structural)]
pub enum Cls {
    Space,
    Border,
    Text,
    Edge,
    EdgeLabel,
    Arrow,
}

/// How an edge's line is drawn.
#[derive(Clone, Copy, Debug, PartialEq, Eq, Structural)]
pub enum LineKind {
    Solid,
    Dotted,
    Thick,
}

/// A grid of cells, row by row: the character of each cell, what it holds, whether a node,
/// head or label claims it, and the line directions (`L`, `R`, `U`, `D`) drawn through it.
/// `line` is how the lines drawn next are styled.
pub struct Canvas {
    pub w: usize,
    pub h: usize,
    pub ch: Vec<char>,
    pub cls: Vec<Cls>,
    pub occupied: Vec<bool>,
    pub mask: Vec<u8>,
    pub line: LineKind,
}

/// A canvas whose cell vectors all have `w * h` cells.
pub open spec fn canvas_wf(c: Canvas) -> bool {
    &&& c.w > 0
    &&& c.h > 0
    &&& c.w * c.h <= usize::MAX
    &&& c.ch@.len() == c.w * c.h
    &&& c.cls@.len() == c.w * c.h
    &&& c.occupied@.len() == c.w * c.h
    &&& c.mask@.len() == c.w * c.h
}

impl Canvas {
    /// A blank canvas of `w` by `h` cells.
    pub fn new(w: usize, h: usize) -> (r: Canvas)
        requires
            0 < w,
            0 < h,
            w * h <= usize::MAX,
        ensures
            canvas_wf(r),
            r.w == w,
            r.h == h,
            forall|i: int| 0 <= i < w * h ==> r.ch@[i] == ' ' && r.cls@[i] == Cls::Space
                && !r.occupied@[i] && r.mask@[i] == 0,
    {
        let n = w * h;
        let mut ch: Vec<char> = Vec::new();
        let mut cls: Vec<Cls> = Vec::new();
        let mut occupied: Vec<bool> = Vec::new();
        let mut mask: Vec<u8> = Vec::new();
        let mut i: usize = 0;
        while i < n
            invariant
                i <= n,
                ch@.len() == i,
                cls@.len() == i,
                occupied@.len() == i,
                mask@.len() == i,
                forall|j: int| 0 <= j < i ==> ch@[j] == ' ' && cls@[j] == Cls::Space && !occupied@[j]
                    && mask@[j] == 0,
            decreases n - i,
        {
            ch.push(' ');
            cls.push(Cls::Space);
            occupied.push(false);
            mask.push(0);
            i = i + 1;
        }
        Canvas { w, h, ch, cls, occupied, mask, line: LineKind::Solid }
    }

    /// The index of cell (`x`, `y`).
    pub fn idx(&self, x: usize, y: usize) -> (r: usize)
        requires
            canvas_wf(*self),
            x < self.w,
            y < self.h,
        ensures
            r == y * self.w + x,
            r < self.w * self.h,
    {
        proof {
            assert(y * self.w + x < self.w * self.h) by (nonlinear_arith)
                requires
                    x < self.w,
                    y < self.h,
            ;
        }
        y * self.w + x
    }
}

/// Cell `i` of a canvas `w` cells wide lies in the `cw` by `ch` block whose corner is
/// (`ox`, `oy`).
pub open spec fn in_block(i: int, w: int, ox: int, oy: int, cw: int, ch: int) -> bool {
    ox <= i % w < ox + cw && oy <= i / w < oy + ch
}

/// The index in the block of cell `i`.
pub open spec fn block_index(i: int, w: int, ox: int, oy: int, cw: int) -> int {
    (i / w - oy) * cw + (i % w - ox)
}

proof fn lemma_cell_coords(w: int, x: int, y: int)
    requires
        w > 0,
        0 <= x < w,
        0 <= y,
    ensures
        (y * w + x) % w == x,
        (y * w + x) / w == y,
{
    lemma_fundamental_div_mod_converse(y * w + x, w, y, x);
}

/// Cell `i` has been copied once the rows above row `y` of the block, and the first `x`
/// cells of row `y`, are done.
pub open spec fn copied(i: int, w: int, ox: int, oy: int, cw: int, y: int, x: int) -> bool {
    ||| (ox <= i % w < ox + cw && oy <= i / w < oy + y)
    ||| (i / w == oy + y && ox <= i % w < ox + x)
}

/// `a` holds the block's cell where `done` says so, and `b`'s cell elsewhere.
pub open spec fn overlaid<T>(a: Seq<T>, b: Seq<T>, block: Seq<T>, n: int, w: int, ox: int, oy: int, cw: int, done: spec_fn(int) -> bool) -> bool {
    forall|i: int|
        0 <= i < n ==> #[trigger] a[i] == if done(i) {
            block[block_index(i, w, ox, oy, cw)]
        } else {
            b[i]
        }
}

proof fn lemma_other_cell(i: int, w: int, x: int, y: int)
    requires
        w > 0,
        0 <= x < w,
        0 <= y,
        0 <= i,
        i != y * w + x,
    ensures
        !(i / w == y && i % w == x),
{
    vstd::arithmetic::div_mod::lemma_fundamental_div_mod(i, w);
    if i / w == y && i % w == x {
        assert(i == w * y + x);
        assert(w * y == y * w) by (nonlinear_arith);
    }
}

impl Canvas {
    /// Copies every cell of `child` onto this canvas, its corner at (`ox`, `oy`).
    pub fn blit(&mut self, child: &Canvas, ox: usize, oy: usize)
        requires
            canvas_wf(*old(self)),
            canvas_wf(*child),
            ox + child.w <= old(self).w,
            oy + child.h <= old(self).h,
        ensures
            canvas_wf(*final(self)),
            final(self).w == old(self).w,
            final(self).h == old(self).h,
            ({
                let n = old(self).w * old(self).h;
                let w = old(self).w as int;
                let done = |i: int| in_block(i, w, ox as int, oy as int, child.w as int, child.h as int);
                &&& overlaid(final(self).ch@, old(self).ch@, child.ch@, n, w, ox as int, oy as int, child.w as int, done)
                &&& overlaid(final(self).cls@, old(self).cls@, child.cls@, n, w, ox as int, oy as int, child.w as int, done)
                &&& overlaid(final(self).occupied@, old(self).occupied@, child.occupied@, n, w, ox as int, oy as int, child.w as int, done)
                &&& overlaid(final(self).mask@, old(self).mask@, child.mask@, n, w, ox as int, oy as int, child.w as int, done)
            }),
    {
        let w = self.w;
        let ghost n = self.w * self.h;
        let ghost o = *self;
        let ghost cw = child.w as int;
        let mut y: usize = 0;
        while y < child.h
            invariant
                canvas_wf(o),
                canvas_wf(*child),
                w == o.w,
                n == o.w * o.h,
                cw == child.w,
                ox + child.w <= o.w,
                oy + child.h <= o.h,
                y <= child.h,
                self.w == o.w,
                self.h == o.h,
                self.ch@.len() == n,
                self.cls@.len() == n,
                self.occupied@.len() == n,
                self.mask@.len() == n,
                overlaid(self.ch@, o.ch@, child.ch@, n, w as int, ox as int, oy as int, cw, |i: int| copied(i, w as int, ox as int, oy as int, cw, y as int, 0)),
                overlaid(self.cls@, o.cls@, child.cls@, n, w as int, ox as int, oy as int, cw, |i: int| copied(i, w as int, ox as int, oy as int, cw, y as int, 0)),
                overlaid(self.occupied@, o.occupied@, child.occupied@, n, w as int, ox as int, oy as int, cw, |i: int| copied(i, w as int, ox as int, oy as int, cw, y as int, 0)),
                overlaid(self.mask@, o.mask@, child.mask@, n, w as int, ox as int, oy as int, cw, |i: int| copied(i, w as int, ox as int, oy as int, cw, y as int, 0)),
            decreases child.h - y,
        {
            let mut x: usize = 0;
            while x < child.w
                invariant
                    canvas_wf(o),
                    canvas_wf(*child),
                    w == o.w,
                    n == o.w * o.h,
                    cw == child.w,
                    ox + child.w <= o.w,
                    oy + child.h <= o.h,
                    y < child.h,
                    x <= child.w,
                    self.w == o.w,
                    self.h == o.h,
                    self.ch@.len() == n,
                    self.cls@.len() == n,
                    self.occupied@.len() == n,
                    self.mask@.len() == n,
                    overlaid(self.ch@, o.ch@, child.ch@, n, w as int, ox as int, oy as int, cw, |i: int| copied(i, w as int, ox as int, oy as int, cw, y as int, x as int)),
                    overlaid(self.cls@, o.cls@, child.cls@, n, w as int, ox as int, oy as int, cw, |i: int| copied(i, w as int, ox as int, oy as int, cw, y as int, x as int)),
                    overlaid(self.occupied@, o.occupied@, child.occupied@, n, w as int, ox as int, oy as int, cw, |i: int| copied(i, w as int, ox as int, oy as int, cw, y as int, x as int)),
                    overlaid(self.mask@, o.mask@, child.mask@, n, w as int, ox as int, oy as int, cw, |i: int| copied(i, w as int, ox as int, oy as int, cw, y as int, x as int)),
                decreases child.w - x,
            {
                proof {
                    assert((oy + y) * o.w + (ox + x) < o.w * o.h) by (nonlinear_arith)
                        requires
                            oy + y < o.h,
                            ox + x < o.w,
                    ;
                    assert(y * child.w + x < child.w * child.h) by (nonlinear_arith)
                        requires
                            y < child.h,
                            x < child.w,
                    ;
                }
                let target = (oy + y) * w + (ox + x);
                let source = y * child.w + x;
                let ghost before = *self;
                self.ch.set(target, child.ch[source]);
                self.cls.set(target, child.cls[source]);
                self.occupied.set(target, child.occupied[source]);
                self.mask.set(target, child.mask[source]);
                proof {
                    let wi = w as int;
                    lemma_cell_coords(wi, (ox + x) as int, (oy + y) as int);
                    assert(block_index(target as int, wi, ox as int, oy as int, cw) == source);
                    let d_old = |i: int| copied(i, wi, ox as int, oy as int, cw, y as int, x as int);
                    let d_new = |i: int| copied(i, wi, ox as int, oy as int, cw, y as int, x + 1);
                    assert forall|i: int| 0 <= i < n implies #[trigger] self.ch@[i] == if d_new(i) {
                        child.ch@[block_index(i, wi, ox as int, oy as int, cw)]
                    } else {
                        o.ch@[i]
                    } by {
                        if i != target {
                            lemma_other_cell(i, wi, (ox + x) as int, (oy + y) as int);
                            assert(self.ch@[i] == before.ch@[i]);
                            assert(d_new(i) == d_old(i));
                        }
                    }
                    assert forall|i: int| 0 <= i < n implies #[trigger] self.cls@[i] == if d_new(i) {
                        child.cls@[block_index(i, wi, ox as int, oy as int, cw)]
                    } else {
                        o.cls@[i]
                    } by {
                        if i != target {
                            lemma_other_cell(i, wi, (ox + x) as int, (oy + y) as int);
                            assert(self.cls@[i] == before.cls@[i]);
                            assert(d_new(i) == d_old(i));
                        }
                    }
                    assert forall|i: int| 0 <= i < n implies #[trigger] self.occupied@[i] == if d_new(i) {
                        child.occupied@[block_index(i, wi, ox as int, oy as int, cw)]
                    } else {
                        o.occupied@[i]
                    } by {
                        if i != target {
                            lemma_other_cell(i, wi, (ox + x) as int, (oy + y) as int);
                            assert(self.occupied@[i] == before.occupied@[i]);
                            assert(d_new(i) == d_old(i));
                        }
                    }
                    assert forall|i: int| 0 <= i < n implies #[trigger] self.mask@[i] == if d_new(i) {
                        child.mask@[block_index(i, wi, ox as int, oy as int, cw)]
                    } else {
                        o.mask@[i]
                    } by {
                        if i != target {
                            lemma_other_cell(i, wi, (ox + x) as int, (oy + y) as int);
                            assert(self.mask@[i] == before.mask@[i]);
                            assert(d_new(i) == d_old(i));
                        }
                    }
                }
                x = x + 1;
            }
            proof {
                let wi = w as int;
                assert forall|i: int| copied(i, wi, ox as int, oy as int, cw, y as int, cw) == copied(i, wi, ox as int, oy as int, cw, y + 1, 0) by {}
            }
            y = y + 1;
        }
        proof {
            let wi = w as int;
            assert forall|i: int| copied(i, wi, ox as int, oy as int, cw, child.h as int, 0) == in_block(i, wi, ox as int, oy as int, cw, child.h as int) by {}
        }
    }
}

/// The boxes of a diagram on their canvas.
pub struct Scene {
    pub canvas: Canvas,
    pub bounds: Vec<(Item, Placed)>,
}

/// Moves `rect` right by `x` and down by `y`.
pub fn translate(rect: &mut Placed, x: usize, y: usize)
    requires
        old(rect).x + x <= usize::MAX,
        old(rect).cx + x <= usize::MAX,
        old(rect).y + y <= usize::MAX,
        old(rect).cy + y <= usize::MAX,
    ensures
        *final(rect) == (Placed {
            x: (old(rect).x + x) as usize,
            cx: (old(rect).cx + x) as usize,
            y: (old(rect).y + y) as usize,
            cy: (old(rect).cy + y) as usize,
            ..*old(rect)
        }),
{
    rect.x = rect.x + x;
    rect.cx = rect.cx + x;
    rect.y = rect.y + y;
    rect.cy = rect.cy + y;
}

/// `r` moved right by `dx` and down by `dy`.
pub open spec fn moved(r: Placed, dx: int, dy: int) -> Placed {
    Placed {
        x: (r.x + dx) as usize,
        cx: (r.cx + dx) as usize,
        y: (r.y + dy) as usize,
        cy: (r.cy + dy) as usize,
        ..r
    }
}

/// The box lies on a `w` by `h` canvas, its centre inside it.
pub open spec fn rect_within(r: Placed, w: int, h: int) -> bool {
    &&& r.x + r.w <= w
    &&& r.y + r.h <= h
    &&& r.x <= r.cx < r.x + r.w
    &&& r.y <= r.cy < r.y + r.h
}

/// Puts a blank margin of two cells around the scene: a canvas four cells wider and higher
/// with the old one drawn at (2, 2), and every box moved by the same offset. Boxes that lay
/// on the old canvas are then padded on the new one.
pub fn pad(scene: &mut Scene)
    requires
        canvas_wf(old(scene).canvas),
        (old(scene).canvas.w + 4) * (old(scene).canvas.h + 4) <= usize::MAX,
        forall|i: int| 0 <= i < old(scene).bounds@.len() ==> rect_within(
            #[trigger] old(scene).bounds@[i].1,
            old(scene).canvas.w as int,
            old(scene).canvas.h as int,
        ),
    ensures
        canvas_wf(final(scene).canvas),
        final(scene).canvas.w == old(scene).canvas.w + 4,
        final(scene).canvas.h == old(scene).canvas.h + 4,
        ({
            let c = final(scene).canvas;
            let o = old(scene).canvas;
            let done = |i: int| in_block(i, c.w as int, 2, 2, o.w as int, o.h as int);
            &&& overlaid(c.ch@, Seq::new((c.w * c.h) as nat, |i: int| ' '), o.ch@, c.w * c.h, c.w as int, 2, 2, o.w as int, done)
            &&& overlaid(c.cls@, Seq::new((c.w * c.h) as nat, |i: int| Cls::Space), o.cls@, c.w * c.h, c.w as int, 2, 2, o.w as int, done)
            &&& overlaid(c.occupied@, Seq::new((c.w * c.h) as nat, |i: int| false), o.occupied@, c.w * c.h, c.w as int, 2, 2, o.w as int, done)
            &&& overlaid(c.mask@, Seq::new((c.w * c.h) as nat, |i: int| 0u8), o.mask@, c.w * c.h, c.w as int, 2, 2, o.w as int, done)
        }),
        final(scene).bounds@.len() == old(scene).bounds@.len(),
        forall|i: int| 0 <= i < final(scene).bounds@.len() ==> (#[trigger] final(scene).bounds@[i]).0
            == old(scene).bounds@[i].0 && final(scene).bounds@[i].1 == moved(old(scene).bounds@[i].1, 2, 2),
        forall|i: int| 0 <= i < final(scene).bounds@.len() ==> rect_padded(#[trigger] final(scene).bounds@[i].1, final(scene).canvas),
{
    let ghost o = old(scene).canvas;
    proof {
        assert(o.w + 4 <= (o.w + 4) * (o.h + 4)) by (nonlinear_arith)
            requires
                o.h >= 0,
        ;
        assert(o.h + 4 <= (o.w + 4) * (o.h + 4)) by (nonlinear_arith)
            requires
                o.w >= 0,
        ;
    }
    let mut canvas = Canvas::new(scene.canvas.w + 4, scene.canvas.h + 4);
    let ghost blank = canvas;
    canvas.blit(&scene.canvas, 2, 2);
    proof {
        let n = canvas.w * canvas.h;
        assert(blank.ch@ =~= Seq::new(n as nat, |i: int| ' '));
        assert(blank.cls@ =~= Seq::new(n as nat, |i: int| Cls::Space));
        assert(blank.occupied@ =~= Seq::new(n as nat, |i: int| false));
        assert(blank.mask@ =~= Seq::new(n as nat, |i: int| 0u8));
    }
    let ghost ob = scene.bounds@;
    let mut bounds: Vec<(Item, Placed)> = Vec::new();
    let mut i: usize = 0;
    while i < scene.bounds.len()
        invariant
            i <= scene.bounds@.len(),
            ob == scene.bounds@,
            canvas.w == o.w + 4,
            canvas.h == o.h + 4,
            forall|k: int| 0 <= k < ob.len() ==> rect_within(#[trigger] ob[k].1, o.w as int, o.h as int),
            bounds@.len() == i,
            forall|k: int| 0 <= k < i ==> (#[trigger] bounds@[k]).0 == ob[k].0 && bounds@[k].1 == moved(ob[k].1, 2, 2),
            forall|k: int| 0 <= k < i ==> rect_padded(#[trigger] bounds@[k].1, canvas),
        decreases scene.bounds@.len() - i,
    {
        let (item, rect) = scene.bounds[i];
        let mut r = rect;
        assert(rect_within(ob[i as int].1, o.w as int, o.h as int));
        translate(&mut r, 2, 2);
        bounds.push((item, r));
        i = i + 1;
    }
    scene.canvas = canvas;
    scene.bounds = bounds;
}

/// Cell (`x`, `y`) lies in `rect`.
pub open spec fn in_rect(rect: Placed, x: int, y: int) -> bool {
    rect.x <= x < rect.x + rect.w && rect.y <= y < rect.y + rect.h
}

/// Whether cell (`x`, `y`) lies in `rect`.
pub fn contains(rect: &Placed, x: usize, y: usize) -> (r: bool)
    ensures
        r == in_rect(*rect, x as int, y as int),
{
    x >= rect.x && (x - rect.x) < rect.w && y >= rect.y && (y - rect.y) < rect.h
}

/// The box stands at least two cells inside the canvas on every side, its centre inside it.
pub open spec fn rect_padded(r: Placed, c: Canvas) -> bool {
    &&& r.x >= 2
    &&& r.y >= 2
    &&& r.x + r.w + 2 <= c.w
    &&& r.y + r.h + 2 <= c.h
    &&& r.x <= r.cx < r.x + r.w
    &&& r.y <= r.cy < r.y + r.h
}

/// Each item has at most one box in the scene.
pub open spec fn keys_distinct(bs: Seq<(Item, Placed)>) -> bool {
    forall|i: int, j: int| 0 <= i < j < bs.len() ==> (#[trigger] bs[i]).0 != (#[trigger] bs[j]).0
}

/// A scene whose canvas is well formed and small enough to search (at most 65536 cells),
/// whose boxes are all padded, and which holds one box per item.
pub open spec fn scene_routable(s: Scene) -> bool {
    &&& canvas_wf(s.canvas)
    &&& s.canvas.w * s.canvas.h <= 65536
    &&& forall|i: int| 0 <= i < s.bounds@.len() ==> rect_padded(#[trigger] s.bounds@[i].1, s.canvas)
    &&& keys_distinct(s.bounds@)
}

/// The four ports of `rect` on a canvas `width` cells wide, as (outer, inner) cell pairs:
/// right, bottom, left and top of the centre; the inner cell touches the box.
pub open spec fn port_cells(rect: Placed, width: int) -> Seq<(int, int)> {
    let right = rect.cy * width + rect.x + rect.w;
    let bottom = (rect.y + rect.h) * width + rect.cx;
    let left = rect.cy * width + rect.x - 1;
    let top = (rect.y - 1) * width + rect.cx;
    seq![(right + 1, right), (bottom + width, bottom), (left - 1, left), (top - width, top)]
}

/// The ports of `rect` (see [`port_cells`]).
pub fn ports(rect: &Placed, width: usize, height: usize) -> (r: [(usize, usize); 4])
    requires
        width > 0,
        width * height <= usize::MAX,
        rect.x >= 2,
        rect.y >= 2,
        rect.x + rect.w + 2 <= width,
        rect.y + rect.h + 2 <= height,
        rect.x <= rect.cx < rect.x + rect.w,
        rect.y <= rect.cy < rect.y + rect.h,
    ensures
        r@.len() == 4,
        forall|i: int| 0 <= i < 4 ==> (#[trigger] r@[i]).0 == port_cells(*rect, width as int)[i].0
            && r@[i].1 == port_cells(*rect, width as int)[i].1,
        forall|i: int| 0 <= i < 4 ==> (#[trigger] r@[i]).0 < width * height && r@[i].1 < width * height,
{
    proof {
        assert(rect.cy * width + width <= width * height) by (nonlinear_arith)
            requires
                rect.cy < height,
        ;
        assert((rect.y + rect.h + 1) * width + width <= width * height) by (nonlinear_arith)
            requires
                rect.y + rect.h + 2 <= height,
        ;
        assert((rect.y - 2) * width + width == (rect.y - 1) * width) by (nonlinear_arith);
        assert((rect.y - 1) * width + width <= width * height) by (nonlinear_arith)
            requires
                rect.y - 1 < height,
                rect.y >= 1,
        ;
        assert((rect.y + rect.h) * width + width == (rect.y + rect.h + 1) * width) by (nonlinear_arith);
        assert(rect.cy * width >= 0) by (nonlinear_arith)
            requires
                rect.cy >= 0,
        ;
        assert((rect.y - 2) * width >= 0) by (nonlinear_arith)
            requires
                rect.y >= 2,
        ;
    }
    let right = rect.cy * width + rect.x + rect.w;
    let bottom = (rect.y + rect.h) * width + rect.cx;
    let left = rect.cy * width + rect.x - 1;
    let top = (rect.y - 1) * width + rect.cx;
    [(right + 1, right), (bottom + width, bottom), (left - 1, left), (top - width, top)]
}

/// The direction bit of a step from `from` to `to`, with the arrow that points that way.
pub open spec fn step_direction(from: int, to: int, width: int) -> (u8, char) {
    if from / width == to / width {
        if from < to {
            (R, '▶')
        } else {
            (L, '◄')
        }
    } else if from < to {
        (D, '▼')
    } else {
        (U, '▲')
    }
}

/// The direction of a step between cells (see [`step_direction`]).
pub fn direction(from: usize, to: usize, width: usize) -> (r: (u8, char))
    requires
        width > 0,
    ensures
        r == step_direction(from as int, to as int, width as int),
{
    if from / width == to / width {
        if from < to {
            (R, '▶')
        } else {
            (L, '◄')
        }
    } else if from < to {
        (D, '▼')
    } else {
        (U, '▲')
    }
}


/// `i` is the first entry of `bs` for `item`.
pub open spec fn bound_index(bs: Seq<(Item, Placed)>, item: Item, i: int) -> bool {
    &&& 0 <= i < bs.len()
    &&& bs[i].0 == item
    &&& forall|j: int| 0 <= j < i ==> bs[j].0 != item
}

/// The box of `item`.
pub open spec fn bound_of(bs: Seq<(Item, Placed)>, item: Item) -> Option<Placed> {
    if exists|i: int| bound_index(bs, item, i) {
        Some(bs[choose|i: int| bound_index(bs, item, i)].1)
    } else {
        None
    }
}

/// What a route between two boxes depends on besides the scene.
pub struct RouteEnds {
    pub from: Item,
    pub to: Item,
    pub source: Placed,
    pub target: Placed,
}

/// A group frame that holds the centre of one end (and is neither end): a route may cross
/// its border, but only at right angles, and not at its corners.
pub open spec fn is_ancestor(entry: (Item, Placed), e: RouteEnds) -> bool {
    &&& entry.0 is Group
    &&& entry.0 != e.from
    &&& entry.0 != e.to
    &&& (in_rect(entry.1, e.source.cx as int, e.source.cy as int) || in_rect(
        entry.1,
        e.target.cx as int,
        e.target.cy as int,
    ))
}

/// Cell (`x`, `y`) is on a top or bottom border row of `r`.
pub open spec fn on_border_row(r: Placed, y: int) -> bool {
    y == r.y || y + 1 == r.y + r.h
}

/// Cell (`x`, `y`) is on a left or right border column of `r`.
pub open spec fn on_border_column(r: Placed, x: int) -> bool {
    x == r.x || x + 1 == r.x + r.w
}

/// A box closes its cells to routes; an ancestor frame closes only its corners.
pub open spec fn entry_blocks(entry: (Item, Placed), anc: bool, x: int, y: int) -> bool {
    in_rect(entry.1, x, y) && (!anc || (on_border_row(entry.1, y) && on_border_column(entry.1, x)))
}

/// Some of the first `k` entries close cell (`x`, `y`).
pub open spec fn blocked_by(bs: Seq<(Item, Placed)>, e: RouteEnds, k: int, x: int, y: int) -> bool
    decreases k,
{
    if k <= 0 {
        false
    } else {
        blocked_by(bs, e, k - 1, x, y) || entry_blocks(bs[k - 1], is_ancestor(bs[k - 1], e), x, y)
    }
}

/// Some of the first `k` ancestor frames has a horizontal border at cell (`x`, `y`).
pub open spec fn hborder_by(bs: Seq<(Item, Placed)>, e: RouteEnds, k: int, x: int, y: int) -> bool
    decreases k,
{
    if k <= 0 {
        false
    } else {
        hborder_by(bs, e, k - 1, x, y) || (is_ancestor(bs[k - 1], e) && in_rect(bs[k - 1].1, x, y)
            && on_border_row(bs[k - 1].1, y))
    }
}

/// Some of the first `k` ancestor frames has a vertical border at cell (`x`, `y`).
pub open spec fn vborder_by(bs: Seq<(Item, Placed)>, e: RouteEnds, k: int, x: int, y: int) -> bool
    decreases k,
{
    if k <= 0 {
        false
    } else {
        vborder_by(bs, e, k - 1, x, y) || (is_ancestor(bs[k - 1], e) && in_rect(bs[k - 1].1, x, y)
            && on_border_column(bs[k - 1].1, x))
    }
}

/// Cell `c` is closed to routes: a box or frame corner covers it, or it holds text, an edge
/// label or an occupied cell.
pub open spec fn cell_blocked(s: Scene, e: RouteEnds, c: int) -> bool {
    let w = s.canvas.w as int;
    ||| blocked_by(s.bounds@, e, s.bounds@.len() as int, c % w, c / w)
    ||| s.canvas.cls@[c] == Cls::Text
    ||| s.canvas.cls@[c] == Cls::EdgeLabel
    ||| s.canvas.occupied@[c]
}

pub open spec fn cell_hborder(s: Scene, e: RouteEnds, c: int) -> bool {
    hborder_by(s.bounds@, e, s.bounds@.len() as int, c % (s.canvas.w as int), c / (s.canvas.w as int))
}

pub open spec fn cell_vborder(s: Scene, e: RouteEnds, c: int) -> bool {
    vborder_by(s.bounds@, e, s.bounds@.len() as int, c % (s.canvas.w as int), c / (s.canvas.w as int))
}

/// A step between cells `a` and `b` runs along a frame border it may not follow.
pub open spec fn along_border(s: Scene, e: RouteEnds, a: int, b: int) -> bool {
    if a / (s.canvas.w as int) == b / (s.canvas.w as int) {
        cell_hborder(s, e, a) || cell_hborder(s, e, b)
    } else {
        cell_vborder(s, e, a) || cell_vborder(s, e, b)
    }
}

/// A usable port: both cells open and the step between them not along a frame border.
pub open spec fn port_ok(s: Scene, e: RouteEnds, p: (int, int)) -> bool {
    &&& 0 <= p.0 < s.canvas.w * s.canvas.h
    &&& 0 <= p.1 < s.canvas.w * s.canvas.h
    &&& !cell_blocked(s, e, p.0)
    &&& !cell_blocked(s, e, p.1)
    &&& !along_border(s, e, p.0, p.1)
}

/// The ports a route may leave from: all four, or only the right one for a self-loop.
pub open spec fn start_candidates(s: Scene, e: RouteEnds) -> Seq<(int, int)> {
    let ps = port_cells(e.source, s.canvas.w as int);
    if e.from == e.to {
        ps.take(1)
    } else {
        ps
    }
}

/// The ports a route may arrive at: all four, or only the bottom one for a self-loop.
pub open spec fn end_candidates(s: Scene, e: RouteEnds) -> Seq<(int, int)> {
    let ps = port_cells(e.target, s.canvas.w as int);
    if e.from == e.to {
        seq![ps[1]]
    } else {
        ps
    }
}

pub open spec fn is_start(s: Scene, e: RouteEnds, p: (int, int)) -> bool {
    start_candidates(s, e).contains(p) && port_ok(s, e, p)
}

pub open spec fn is_end(s: Scene, e: RouteEnds, p: (int, int)) -> bool {
    end_candidates(s, e).contains(p) && port_ok(s, e, p)
}

/// Closed to the search: blocked, or the inner cell of a usable port.
pub open spec fn search_blocked(s: Scene, e: RouteEnds, c: int) -> bool {
    cell_blocked(s, e, c) || exists|p: (int, int)| (is_start(s, e, p) || is_end(s, e, p)) && p.1 == c
}

/// `b` is one of the four neighbours of `a` on the grid.
pub open spec fn adjacent(a: int, b: int, w: int, h: int) -> bool {
    ||| (b == a - 1 && a % w > 0)
    ||| (b == a + 1 && a % w + 1 < w)
    ||| (b == a - w && a >= w)
    ||| (b == a + w && a + w < w * h)
}

/// A route may step from `a` to the neighbour `b`.
pub open spec fn step_ok(s: Scene, e: RouteEnds, a: int, b: int) -> bool {
    &&& 0 <= a < s.canvas.w * s.canvas.h
    &&& 0 <= b < s.canvas.w * s.canvas.h
    &&& adjacent(a, b, s.canvas.w as int, s.canvas.h as int)
    &&& !search_blocked(s, e, b)
    &&& !along_border(s, e, a, b)
}

/// `path` connects the ends: either two facing ports touch, or the path leaves through a
/// usable start port, steps through open cells, and enters through a usable end port.
pub open spec fn is_route(s: Scene, e: RouteEnds, path: Seq<usize>) -> bool {
    ||| exists|p: (int, int), q: (int, int)|
        is_start(s, e, p) && is_end(s, e, q) && q.0 == p.1 && q.1 == p.0 && path.len() == 2
            && path[0] == p.1 && path[1] == q.1
    ||| (path.len() >= 3 && exists|p: (int, int), q: (int, int)|
        #![trigger is_start(s, e, p), is_end(s, e, q)]
        is_start(s, e, p) && is_end(s, e, q) && path[0] == p.1 && path[1] == p.0
            && !search_blocked(s, e, p.0) && path[path.len() - 2] == q.0 && path[path.len() - 1] == q.1
            && forall|k: int| 1 <= k < path.len() - 2 ==> step_ok(s, e, #[trigger] path[k] as int, path[k + 1] as int))
}

/// The ends of a route from `from` to `to`, when both have boxes.
pub open spec fn route_ends(s: Scene, from: Item, to: Item) -> Option<RouteEnds> {
    match (bound_of(s.bounds@, from), bound_of(s.bounds@, to)) {
        (Some(source), Some(target)) => Some(RouteEnds { from, to, source, target }),
        _ => None,
    }
}

fn find_bound(bs: &Vec<(Item, Placed)>, item: Item) -> (r: Option<usize>)
    ensures
        match r {
            Some(i) => bound_index(bs@, item, i as int) && bound_of(bs@, item) == Some(bs@[i as int].1),
            None => bound_of(bs@, item) is None,
        },
{
    let mut i: usize = 0;
    while i < bs.len()
        invariant
            i <= bs.len(),
            forall|j: int| 0 <= j < i ==> bs@[j].0 != item,
        decreases bs.len() - i,
    {
        if bs[i].0 == item {
            proof {
                assert(bound_index(bs@, item, i as int));
                let c = choose|c: int| bound_index(bs@, item, c);
                if c < i {
                    assert(bs@[c].0 != item);
                }
                if c > i {
                    assert(bs@[i as int].0 != item);
                }
            }
            return Some(i);
        }
        i = i + 1;
    }
    proof {
        if exists|c: int| bound_index(bs@, item, c) {
            let c = choose|c: int| bound_index(bs@, item, c);
            assert(bs@[c].0 != item);
        }
    }
    None
}

fn ancestor_flags(bs: &Vec<(Item, Placed)>, e: &RouteEndsExec) -> (r: Vec<bool>)
    ensures
        r@.len() == bs@.len(),
        forall|k: int| 0 <= k < bs@.len() ==> r@[k] == is_ancestor(#[trigger] bs@[k], e.spec()),
{
    let mut out: Vec<bool> = Vec::new();
    let mut k: usize = 0;
    while k < bs.len()
        invariant
            k <= bs.len(),
            out@.len() == k,
            forall|j: int| 0 <= j < k ==> out@[j] == is_ancestor(#[trigger] bs@[j], e.spec()),
        decreases bs.len() - k,
    {
        let (item, rect) = bs[k];
        let group = match item {
            Item::Group(_) => true,
            Item::Node(_) => false,
        };
        let anc = group && item != e.from && item != e.to && (contains(&rect, e.source.cx, e.source.cy)
            || contains(&rect, e.target.cx, e.target.cy));
        out.push(anc);
        k = k + 1;
    }
    out
}

/// The ends of a route as run-time values.
pub struct RouteEndsExec {
    pub from: Item,
    pub to: Item,
    pub source: Placed,
    pub target: Placed,
}

impl RouteEndsExec {
    pub open spec fn spec(&self) -> RouteEnds {
        RouteEnds { from: self.from, to: self.to, source: self.source, target: self.target }
    }
}


/// For every cell: blocked, on a horizontal ancestor border, on a vertical one.
fn cell_grids(scene: &Scene, anc: &Vec<bool>, e: &RouteEndsExec) -> (r: (Vec<bool>, Vec<bool>, Vec<bool>))
    requires
        scene_routable(*scene),
        anc@.len() == scene.bounds@.len(),
        forall|k: int| 0 <= k < scene.bounds@.len() ==> anc@[k] == is_ancestor(#[trigger] scene.bounds@[k], e.spec()),
    ensures
        r.0@.len() == scene.canvas.w * scene.canvas.h,
        r.1@.len() == scene.canvas.w * scene.canvas.h,
        r.2@.len() == scene.canvas.w * scene.canvas.h,
        forall|c: int| 0 <= c < scene.canvas.w * scene.canvas.h ==> #[trigger] r.0@[c] == cell_blocked(*scene, e.spec(), c),
        forall|c: int| 0 <= c < scene.canvas.w * scene.canvas.h ==> #[trigger] r.1@[c] == cell_hborder(*scene, e.spec(), c),
        forall|c: int| 0 <= c < scene.canvas.w * scene.canvas.h ==> #[trigger] r.2@[c] == cell_vborder(*scene, e.spec(), c),
{
    let w = scene.canvas.w;
    let n = scene.canvas.w * scene.canvas.h;
    let bs = &scene.bounds;
    let mut blocked: Vec<bool> = Vec::new();
    let mut hb: Vec<bool> = Vec::new();
    let mut vb: Vec<bool> = Vec::new();
    let mut c: usize = 0;
    while c < n
        invariant
            c <= n,
            n == scene.canvas.w * scene.canvas.h,
            w == scene.canvas.w,
            bs == &scene.bounds,
            scene_routable(*scene),
            anc@.len() == bs@.len(),
            forall|k: int| 0 <= k < bs@.len() ==> anc@[k] == is_ancestor(#[trigger] bs@[k], e.spec()),
            blocked@.len() == c,
            hb@.len() == c,
            vb@.len() == c,
            forall|j: int| 0 <= j < c ==> #[trigger] blocked@[j] == cell_blocked(*scene, e.spec(), j),
            forall|j: int| 0 <= j < c ==> #[trigger] hb@[j] == cell_hborder(*scene, e.spec(), j),
            forall|j: int| 0 <= j < c ==> #[trigger] vb@[j] == cell_vborder(*scene, e.spec(), j),
        decreases n - c,
    {
        let x = c % w;
        let y = c / w;
        proof {
            assert(y < scene.canvas.h) by (nonlinear_arith)
                requires
                    c < scene.canvas.w * scene.canvas.h,
                    y == c / scene.canvas.w,
                    scene.canvas.w > 0,
            ;
        }
        let mut b = false;
        let mut hh = false;
        let mut vv = false;
        let mut k: usize = 0;
        while k < bs.len()
            invariant
                k <= bs.len(),
                bs == &scene.bounds,
                scene_routable(*scene),
                x < scene.canvas.w,
                y < scene.canvas.h,
                anc@.len() == bs@.len(),
                forall|j: int| 0 <= j < bs@.len() ==> anc@[j] == is_ancestor(#[trigger] bs@[j], e.spec()),
                b == blocked_by(bs@, e.spec(), k as int, x as int, y as int),
                hh == hborder_by(bs@, e.spec(), k as int, x as int, y as int),
                vv == vborder_by(bs@, e.spec(), k as int, x as int, y as int),
            decreases bs.len() - k,
        {
            let rect = bs[k].1;
            assert(rect_padded(bs@[k as int].1, scene.canvas));
            let inside = contains(&rect, x, y);
            let row = y == rect.y || y + 1 == rect.y + rect.h;
            let column = x == rect.x || x + 1 == rect.x + rect.w;
            let a = anc[k];
            b = b || (inside && (!a || (row && column)));
            hh = hh || (a && inside && row);
            vv = vv || (a && inside && column);
            k = k + 1;
        }
        let label = match scene.canvas.cls[c] {
            Cls::Text => true,
            Cls::EdgeLabel => true,
            _ => false,
        };
        let bc = b || label || scene.canvas.occupied[c];
        proof {
            assert((c as int) % (w as int) == x as int);
            assert((c as int) / (w as int) == y as int);
        }
        blocked.push(bc);
        hb.push(hh);
        vb.push(vv);
        c = c + 1;
    }
    (blocked, hb, vb)
}


pub open spec fn pair_int(p: (usize, usize)) -> (int, int) {
    (p.0 as int, p.1 as int)
}

/// `ports` holds exactly the pairs that satisfy `ok` among `cands`, in order.
pub open spec fn holds_exactly(ports: Seq<(usize, usize)>, cands: Seq<(int, int)>, s: Scene, e: RouteEnds) -> bool {
    &&& forall|i: int| 0 <= i < ports.len() ==> cands.contains(pair_int(#[trigger] ports[i])) && port_ok(s, e, pair_int(ports[i]))
    &&& forall|p: (int, int)| cands.contains(p) && port_ok(s, e, p) ==> exists|i: int| 0 <= i < ports.len() && pair_int(#[trigger] ports[i]) == p
}

/// The usable ones among `cands`, in order.
pub open spec fn usable_ports_of(s: Scene, e: RouteEnds, cands: Seq<(int, int)>) -> Seq<(int, int)>
    decreases cands.len(),
{
    if cands.len() == 0 {
        Seq::empty()
    } else {
        let rest = usable_ports_of(s, e, cands.drop_last());
        if port_ok(s, e, cands.last()) {
            rest.push(cands.last())
        } else {
            rest
        }
    }
}

/// The usable ones among `cands`.
fn usable_ports(
    cands: &Vec<(usize, usize)>,
    blocked: &Vec<bool>,
    hb: &Vec<bool>,
    vb: &Vec<bool>,
    w: usize,
    Ghost(s): Ghost<Scene>,
    Ghost(e): Ghost<RouteEnds>,
) -> (r: Vec<(usize, usize)>)
    requires
        canvas_wf(s.canvas),
        w == s.canvas.w,
        blocked@.len() == s.canvas.w * s.canvas.h,
        hb@.len() == s.canvas.w * s.canvas.h,
        vb@.len() == s.canvas.w * s.canvas.h,
        forall|c: int| 0 <= c < s.canvas.w * s.canvas.h ==> #[trigger] blocked@[c] == cell_blocked(s, e, c),
        forall|c: int| 0 <= c < s.canvas.w * s.canvas.h ==> #[trigger] hb@[c] == cell_hborder(s, e, c),
        forall|c: int| 0 <= c < s.canvas.w * s.canvas.h ==> #[trigger] vb@[c] == cell_vborder(s, e, c),
        forall|i: int| 0 <= i < cands@.len() ==> (#[trigger] cands@[i]).0 < s.canvas.w * s.canvas.h
            && cands@[i].1 < s.canvas.w * s.canvas.h,
    ensures
        holds_exactly(r@, cands@.map_values(|p: (usize, usize)| pair_int(p)), s, e),
        r@.len() <= cands@.len(),
        r@.map_values(|p: (usize, usize)| pair_int(p)) == usable_ports_of(
            s,
            e,
            cands@.map_values(|p: (usize, usize)| pair_int(p)),
        ),
{
    let ghost cs = cands@.map_values(|p: (usize, usize)| pair_int(p));
    let mut out: Vec<(usize, usize)> = Vec::new();
    let mut i: usize = 0;
    while i < cands.len()
        invariant
            i <= cands.len(),
            out@.len() <= i,
            out@.map_values(|p: (usize, usize)| pair_int(p)) == usable_ports_of(s, e, cs.take(i as int)),
            cs == cands@.map_values(|p: (usize, usize)| pair_int(p)),
            canvas_wf(s.canvas),
            w == s.canvas.w,
            blocked@.len() == s.canvas.w * s.canvas.h,
            hb@.len() == s.canvas.w * s.canvas.h,
            vb@.len() == s.canvas.w * s.canvas.h,
            forall|c: int| 0 <= c < s.canvas.w * s.canvas.h ==> #[trigger] blocked@[c] == cell_blocked(s, e, c),
            forall|c: int| 0 <= c < s.canvas.w * s.canvas.h ==> #[trigger] hb@[c] == cell_hborder(s, e, c),
            forall|c: int| 0 <= c < s.canvas.w * s.canvas.h ==> #[trigger] vb@[c] == cell_vborder(s, e, c),
            forall|k: int| 0 <= k < cands@.len() ==> (#[trigger] cands@[k]).0 < s.canvas.w * s.canvas.h
                && cands@[k].1 < s.canvas.w * s.canvas.h,
            forall|k: int| 0 <= k < out@.len() ==> cs.contains(pair_int(#[trigger] out@[k])) && port_ok(s, e, pair_int(out@[k])),
            forall|k: int| 0 <= k < i && port_ok(s, e, #[trigger] cs[k]) ==> exists|t: int| 0 <= t < out@.len() && pair_int(#[trigger] out@[t]) == cs[k],
        decreases cands.len() - i,
    {
        let (far, near) = cands[i];
        let horizontal = far / w == near / w;
        let crosses = if horizontal {
            hb[far] || hb[near]
        } else {
            vb[far] || vb[near]
        };
        let ok = !blocked[far] && !blocked[near] && !crosses;
        assert(cs[i as int] == pair_int(cands@[i as int]));
        assert(ok == port_ok(s, e, cs[i as int]));
        let ghost old_out = out@;
        proof {
            assert(cs.take(i + 1).drop_last() =~= cs.take(i as int));
            assert(cs.take(i + 1).last() == cs[i as int]);
        }
        if ok {
            out.push((far, near));
            assert(out@.map_values(|p: (usize, usize)| pair_int(p)) =~= old_out.map_values(
                |p: (usize, usize)| pair_int(p),
            ).push(cs[i as int]));
            assert(pair_int(out@[out@.len() - 1]) == cs[i as int]);
            assert(cs.contains(cs[i as int]));
        }
        proof {
            assert forall|k: int| 0 <= k < i + 1 && port_ok(s, e, #[trigger] cs[k]) implies exists|t: int|
                0 <= t < out@.len() && pair_int(#[trigger] out@[t]) == cs[k] by {
                if k < i {
                    let t = choose|t: int| 0 <= t < old_out.len() && pair_int(#[trigger] old_out[t]) == cs[k];
                    assert(out@[t] == old_out[t]);
                } else {
                    assert(pair_int(out@[out@.len() - 1]) == cs[k]);
                }
            }
        }
        i = i + 1;
    }
    proof {
        assert(cs.take(cands.len() as int) =~= cs);
        assert forall|p: (int, int)| cs.contains(p) && port_ok(s, e, p) implies exists|t: int| 0 <= t < out@.len() && pair_int(#[trigger] out@[t]) == p by {
            let k = choose|k: int| 0 <= k < cs.len() && cs[k] == p;
            assert(port_ok(s, e, cs[k]));
        }
    }
    out
}

/// The first start whose inner cell is the outer cell of an end facing it back.
fn facing_ports(starts: &Vec<(usize, usize)>, ends: &Vec<(usize, usize)>) -> (r: Option<(usize, usize)>)
    ensures
        match r {
            Some((a, b)) => exists|i: int, j: int| 0 <= i < starts@.len() && 0 <= j < ends@.len()
                && ends@[j].0 == starts@[i].1 && ends@[j].1 == starts@[i].0 && a == i && b == j,
            None => forall|i: int, j: int| 0 <= i < starts@.len() && 0 <= j < ends@.len() ==> !(ends@[j].0
                == starts@[i].1 && ends@[j].1 == starts@[i].0),
        },
{
    let mut i: usize = 0;
    while i < starts.len()
        invariant
            i <= starts.len(),
            forall|a: int, j: int| 0 <= a < i && 0 <= j < ends@.len() ==> !(ends@[j].0 == starts@[a].1
                && ends@[j].1 == starts@[a].0),
        decreases starts.len() - i,
    {
        let mut j: usize = 0;
        while j < ends.len()
            invariant
                i < starts.len(),
                j <= ends.len(),
                forall|a: int, t: int| 0 <= a < i && 0 <= t < ends@.len() ==> !(ends@[t].0 == starts@[a].1
                    && ends@[t].1 == starts@[a].0),
                forall|t: int| 0 <= t < j ==> !(ends@[t].0 == starts@[i as int].1 && ends@[t].1 == starts@[i as int].0),
            decreases ends.len() - j,
        {
            if ends[j].0 == starts[i].1 && ends[j].1 == starts[i].0 {
                return Some((i, j));
            }
            j = j + 1;
        }
        i = i + 1;
    }
    None
}

/// The blocked grid with the inner cells of the usable ports closed as well.
fn close_port_cells(
    blocked: &Vec<bool>,
    starts: &Vec<(usize, usize)>,
    ends: &Vec<(usize, usize)>,
    Ghost(s): Ghost<Scene>,
    Ghost(e): Ghost<RouteEnds>,
) -> (r: Vec<bool>)
    requires
        canvas_wf(s.canvas),
        blocked@.len() == s.canvas.w * s.canvas.h,
        forall|c: int| 0 <= c < s.canvas.w * s.canvas.h ==> #[trigger] blocked@[c] == cell_blocked(s, e, c),
        holds_exactly(starts@, start_candidates(s, e), s, e),
        holds_exactly(ends@, end_candidates(s, e), s, e),
    ensures
        r@.len() == s.canvas.w * s.canvas.h,
        forall|c: int| 0 <= c < s.canvas.w * s.canvas.h ==> #[trigger] r@[c] == search_blocked(s, e, c),
{
    let n = blocked.len();
    let mut out: Vec<bool> = Vec::new();
    let mut c: usize = 0;
    while c < n
        invariant
            c <= n,
            n == blocked@.len(),
            n == s.canvas.w * s.canvas.h,
            canvas_wf(s.canvas),
            forall|x: int| 0 <= x < s.canvas.w * s.canvas.h ==> #[trigger] blocked@[x] == cell_blocked(s, e, x),
            holds_exactly(starts@, start_candidates(s, e), s, e),
            holds_exactly(ends@, end_candidates(s, e), s, e),
            out@.len() == c,
            forall|x: int| 0 <= x < c ==> #[trigger] out@[x] == search_blocked(s, e, x),
        decreases n - c,
    {
        let mut hit = blocked[c];
        let mut k: usize = 0;
        while k < starts.len()
            invariant
                k <= starts.len(),
                c < n,
                hit == (blocked@[c as int] || exists|t: int| 0 <= t < k && starts@[t].1 == c),
            decreases starts.len() - k,
        {
            if starts[k].1 == c {
                hit = true;
            }
            k = k + 1;
        }
        let mut k: usize = 0;
        while k < ends.len()
            invariant
                k <= ends.len(),
                c < n,
                hit == (blocked@[c as int] || (exists|t: int| 0 <= t < starts@.len() && starts@[t].1 == c)
                    || exists|t: int| 0 <= t < k && ends@[t].1 == c),
            decreases ends.len() - k,
        {
            if ends[k].1 == c {
                hit = true;
            }
            k = k + 1;
        }
        proof {
            let ci = c as int;
            if hit && !blocked@[ci] {
                if exists|t: int| 0 <= t < starts@.len() && starts@[t].1 == c {
                    let t = choose|t: int| 0 <= t < starts@.len() && starts@[t].1 == c;
                    assert(is_start(s, e, pair_int(starts@[t])));
                    assert(pair_int(starts@[t]).1 == ci);
                } else {
                    let t = choose|t: int| 0 <= t < ends@.len() && ends@[t].1 == c;
                    assert(is_end(s, e, pair_int(ends@[t])));
                    assert(pair_int(ends@[t]).1 == ci);
                }
            }
            if !hit {
                assert forall|p: (int, int)| (is_start(s, e, p) || is_end(s, e, p)) implies p.1 != ci by {
                    if is_start(s, e, p) {
                        let t = choose|t: int| 0 <= t < starts@.len() && pair_int(#[trigger] starts@[t]) == p;
                        assert(starts@[t].1 != c);
                    } else {
                        let t = choose|t: int| 0 <= t < ends@.len() && pair_int(#[trigger] ends@[t]) == p;
                        assert(ends@[t].1 != c);
                    }
                }
            }
            assert(hit == search_blocked(s, e, ci));
        }
        out.push(hit);
        c = c + 1;
    }
    out
}


/// A search may begin at cell `c`: the outer cell of a usable start port, and open.
pub open spec fn is_seed(s: Scene, e: RouteEnds, c: int) -> bool {
    exists|p: (int, int)| #[trigger] is_start(s, e, p) && p.0 == c && !search_blocked(s, e, c)
}

/// The bookkeeping of the search: every reached cell has a cost within `bound`; a cell
/// reached from another is a permitted step from a cheaper cell; a cell reached from none
/// is a seed; every queued cell is on the grid with a cost within `bound`.
pub open spec fn search_state_ok(
    s: Scene,
    e: RouteEnds,
    dist: Seq<usize>,
    prev: Seq<usize>,
    queue: Seq<(usize, usize)>,
    bound: int,
) -> bool {
    let n = s.canvas.w * s.canvas.h;
    &&& dist.len() == n
    &&& prev.len() == n
    &&& forall|i: int| 0 <= i < queue.len() ==> (#[trigger] queue[i]).1 < n && queue[i].0 <= bound
    &&& forall|c: int| 0 <= c < n && #[trigger] dist[c] != usize::MAX ==> dist[c] <= bound
    &&& forall|c: int|
        0 <= c < n && #[trigger] prev[c] != usize::MAX ==> prev[c] < n && dist[c] != usize::MAX
            && dist[prev[c] as int] < dist[c] && step_ok(s, e, prev[c] as int, c)
    &&& forall|c: int| 0 <= c < n && #[trigger] dist[c] != usize::MAX && prev[c] == usize::MAX ==> is_seed(s, e, c)
}

/// The grids that the search reads, as they relate to the scene.
pub open spec fn search_grids_ok(
    s: Scene,
    e: RouteEnds,
    sb: Seq<bool>,
    hb: Seq<bool>,
    vb: Seq<bool>,
) -> bool {
    let n = s.canvas.w * s.canvas.h;
    &&& canvas_wf(s.canvas)
    &&& sb.len() == n
    &&& hb.len() == n
    &&& vb.len() == n
    &&& forall|c: int| 0 <= c < n ==> #[trigger] sb[c] == search_blocked(s, e, c)
    &&& forall|c: int| 0 <= c < n ==> #[trigger] hb[c] == cell_hborder(s, e, c)
    &&& forall|c: int| 0 <= c < n ==> #[trigger] vb[c] == cell_vborder(s, e, c)
}

/// Cell `c` is the outer cell of a usable end port.
pub open spec fn is_end_far(s: Scene, e: RouteEnds, c: int) -> bool {
    exists|q: (int, int)| #[trigger] is_end(s, e, q) && q.0 == c
}

/// Cell `c` has been expanded: it is no end, and every cell one permitted step away has
/// been reached.
pub open spec fn settled(s: Scene, e: RouteEnds, dist: Seq<usize>, c: int) -> bool {
    &&& !is_end_far(s, e, c)
    &&& forall|b: int| #[trigger] step_ok(s, e, c, b) ==> dist[b] != usize::MAX
}

/// Every reached cell other than `except` is queued at its cost or settled.
pub open spec fn frontier_ok(s: Scene, e: RouteEnds, dist: Seq<usize>, queue: Seq<(usize, usize)>, except: int) -> bool {
    forall|c: int|
        0 <= c < s.canvas.w * s.canvas.h && c != except && #[trigger] dist[c] != usize::MAX ==> queue.contains(
            (dist[c], c as usize),
        ) || settled(s, e, dist, c)
}

/// Reached cells stay reached, and queued entries stay queued.
pub open spec fn grows(old_dist: Seq<usize>, dist: Seq<usize>, old_queue: Seq<(usize, usize)>, queue: Seq<(usize, usize)>) -> bool {
    &&& dist.len() == old_dist.len()
    &&& forall|c: int| 0 <= c < dist.len() && #[trigger] old_dist[c] != usize::MAX ==> dist[c] != usize::MAX
    &&& forall|x: (usize, usize)| #[trigger] old_queue.contains(x) ==> queue.contains(x)
}

proof fn lemma_settled_grows(s: Scene, e: RouteEnds, old_dist: Seq<usize>, dist: Seq<usize>, c: int)
    requires
        settled(s, e, old_dist, c),
        dist.len() == old_dist.len(),
        old_dist.len() == s.canvas.w * s.canvas.h,
        forall|x: int| 0 <= x < dist.len() && #[trigger] old_dist[x] != usize::MAX ==> dist[x] != usize::MAX,
    ensures
        settled(s, e, dist, c),
{
    assert forall|b: int| #[trigger] step_ok(s, e, c, b) implies dist[b] != usize::MAX by {
        assert(old_dist[b] != usize::MAX);
    }
}

/// The distances, predecessors and queue of a search, cell by cell.
pub type SearchState = (Seq<usize>, Seq<usize>, Seq<(usize, usize)>);

/// `a` comes before `b`: lower cost, or equal cost and lower cell.
pub open spec fn pair_lt(a: (usize, usize), b: (usize, usize)) -> bool {
    a.0 < b.0 || (a.0 == b.0 && a.1 < b.1)
}

/// Position `i` holds the least pair of `q`, and no earlier position holds an equal one.
pub open spec fn least_at(q: Seq<(usize, usize)>, i: int) -> bool {
    &&& 0 <= i < q.len()
    &&& forall|j: int| 0 <= j < q.len() ==> !pair_lt(#[trigger] q[j], q[i])
    &&& forall|j: int| 0 <= j < i ==> pair_lt(q[i], #[trigger] q[j])
}

/// The first position of the least pair of `q`.
pub open spec fn least_index(q: Seq<(usize, usize)>) -> int {
    choose|i: int| least_at(q, i)
}

proof fn lemma_least_unique(q: Seq<(usize, usize)>, i: int)
    requires
        least_at(q, i),
    ensures
        least_index(q) == i,
{
    let k = least_index(q);
    assert(least_at(q, k));
    if k < i {
        assert(pair_lt(q[i], q[k]));
        assert(!pair_lt(q[i], q[k]));
    } else if i < k {
        assert(pair_lt(q[k], q[i]));
        assert(!pair_lt(q[k], q[i]));
    }
}

/// The search offering the step from `cur` (reached at `cost`) to `next`: a step onto a closed
/// cell or along a frame is refused; otherwise it costs 1, 3 more when it turns from the way
/// `cur` was reached, and 4 more onto a drawn line, and is taken when cheaper than what
/// `next` has.
#[verifier::opaque]
pub open spec fn relax_step(s: Scene, e: RouteEnds, st: SearchState, cur: int, cost: int, next: int) -> SearchState {
    let w = s.canvas.w as int;
    let horizontal = next / w == cur / w;
    let crosses = if horizontal {
        cell_hborder(s, e, cur) || cell_hborder(s, e, next)
    } else {
        cell_vborder(s, e, cur) || cell_vborder(s, e, next)
    };
    if search_blocked(s, e, next) || crosses {
        st
    } else {
        let p = st.1[cur];
        let turn = p != usize::MAX && ((p as int / w == cur / w) != horizontal);
        let ncost = cost + 1 + (if turn { 3int } else { 0int }) + (if s.canvas.mask@[next] != 0 { 4int } else { 0int });
        if ncost < st.0[next] {
            (st.0.update(next, ncost as usize), st.1.update(next, cur as usize), st.2.push((ncost as usize, next as usize)))
        } else {
            st
        }
    }
}

/// The steps from `cur` to its left, right, upper and lower neighbours, in that order.
#[verifier::opaque]
pub open spec fn expand_step(s: Scene, e: RouteEnds, st: SearchState, cur: int, cost: int) -> SearchState {
    let w = s.canvas.w as int;
    let h = s.canvas.h as int;
    let x = cur % w;
    let y = cur / w;
    let s1 = if x > 0 { relax_step(s, e, st, cur, cost, cur - 1) } else { st };
    let s2 = if x + 1 < w { relax_step(s, e, s1, cur, cost, cur + 1) } else { s1 };
    let s3 = if y > 0 { relax_step(s, e, s2, cur, cost, cur - w) } else { s2 };
    if y + 1 < h { relax_step(s, e, s3, cur, cost, cur + w) } else { s3 }
}

/// Offers the step from `cur` (reached at `cost`) to its neighbour `next`.
#[verifier::rlimit(100)]
#[verifier::spinoff_prover]
fn relax(
    cur: usize,
    cost: usize,
    next: usize,
    w: usize,
    sb: &Vec<bool>,
    hb: &Vec<bool>,
    vb: &Vec<bool>,
    mask: &Vec<u8>,
    dist: &mut Vec<usize>,
    prev: &mut Vec<usize>,
    queue: &mut Vec<(usize, usize)>,
    Ghost(s): Ghost<Scene>,
    Ghost(e): Ghost<RouteEnds>,
    Ghost(bound): Ghost<int>,
)
    requires
        search_grids_ok(s, e, sb@, hb@, vb@),
        w == s.canvas.w,
        mask@.len() == s.canvas.w * s.canvas.h,
        mask@ == s.canvas.mask@,
        search_state_ok(s, e, old(dist)@, old(prev)@, old(queue)@, bound),
        cur < s.canvas.w * s.canvas.h,
        next < s.canvas.w * s.canvas.h,
        adjacent(cur as int, next as int, s.canvas.w as int, s.canvas.h as int),
        old(dist)@[cur as int] == cost,
        cost + 8 <= bound,
        bound < usize::MAX,
    ensures
        search_state_ok(s, e, final(dist)@, final(prev)@, final(queue)@, bound),
        final(dist)@[cur as int] == old(dist)@[cur as int],
        grows(old(dist)@, final(dist)@, old(queue)@, final(queue)@),
        forall|x: int| frontier_ok(s, e, old(dist)@, old(queue)@, x) && x != next ==> frontier_ok(
            s,
            e,
            final(dist)@,
            final(queue)@,
            x,
        ),
        step_ok(s, e, cur as int, next as int) ==> final(dist)@[next as int] != usize::MAX,
        final(queue)@.len() <= old(queue)@.len() + 1,
        (final(dist)@, final(prev)@, final(queue)@) == relax_step(
            s,
            e,
            (old(dist)@, old(prev)@, old(queue)@),
            cur as int,
            cost as int,
            next as int,
        ),
{
    let y = cur / w;
    let horizontal = next / w == y;
    let crosses = if horizontal {
        hb[cur] || hb[next]
    } else {
        vb[cur] || vb[next]
    };
    let ghost st0 = (dist@, prev@, queue@);
    proof {
        reveal(relax_step);
        assert(sb@[next as int] == search_blocked(s, e, next as int));
        assert(hb@[cur as int] == cell_hborder(s, e, cur as int));
        assert(hb@[next as int] == cell_hborder(s, e, next as int));
        assert(vb@[cur as int] == cell_vborder(s, e, cur as int));
        assert(vb@[next as int] == cell_vborder(s, e, next as int));
    }
    if sb[next] || crosses {
        return;
    }
    let p = prev[cur];
    let turn = p != usize::MAX && ((p / w == y) != horizontal);
    let mut step: usize = 1;
    if turn {
        step = step + 3;
    }
    if mask[next] != 0 {
        step = step + 4;
    }
    let ncost = cost + step;
    assert(ncost as int == cost + 1 + (if turn { 3int } else { 0int }) + (if s.canvas.mask@[next as int] != 0 { 4int } else { 0int }));
    if ncost >= dist[next] {
        assert((dist@, prev@, queue@) == relax_step(s, e, st0, cur as int, cost as int, next as int));
    }
    if ncost < dist[next] {
        proof {
            assert(step_ok(s, e, cur as int, next as int));
            assert(cost != usize::MAX);
        }
        let ghost d0 = dist@;
        let ghost p0 = prev@;
        let ghost q0 = queue@;
        dist.set(next, ncost);
        prev.set(next, cur);
        queue.push((ncost, next));
        proof {
            let n = s.canvas.w * s.canvas.h;
            assert forall|x: (usize, usize)| #[trigger] q0.contains(x) implies queue@.contains(x) by {
                let j = choose|j: int| 0 <= j < q0.len() && q0[j] == x;
                assert(queue@[j] == x);
            }
            assert(queue@[queue@.len() - 1] == (ncost, next));
            assert(queue@.contains((ncost, next)));
            assert forall|c: int| 0 <= c < n && #[trigger] d0[c] != usize::MAX implies dist@[c] != usize::MAX by {
                if c == next {
                    assert(dist@[c] == ncost);
                } else {
                    assert(dist@[c] == d0[c]);
                }
            }
            assert forall|x: int| frontier_ok(s, e, d0, q0, x) && x != next implies frontier_ok(s, e, dist@, queue@, x) by {
                assert forall|c: int| 0 <= c < n && c != x && #[trigger] dist@[c] != usize::MAX implies queue@.contains(
                    (dist@[c], c as usize),
                ) || settled(s, e, dist@, c) by {
                    if c == next {
                        assert(queue@.contains((ncost, next)));
                    } else {
                        assert(d0[c] == dist@[c]);
                        if q0.contains((d0[c], c as usize)) {
                        } else {
                            lemma_settled_grows(s, e, d0, dist@, c);
                        }
                    }
                }
            }
            assert forall|c: int| 0 <= c < n && #[trigger] prev@[c] != usize::MAX implies prev@[c] < n
                && dist@[c] != usize::MAX && dist@[prev@[c] as int] < dist@[c] && step_ok(s, e, prev@[c] as int, c) by {
                if c != next {
                    assert(p0[c] == prev@[c]);
                    assert(d0[c] == dist@[c]);
                    assert(d0[p0[c] as int] < d0[c]);
                }
            }
            assert forall|c: int| 0 <= c < n && #[trigger] dist@[c] != usize::MAX && prev@[c] == usize::MAX implies is_seed(s, e, c) by {
                if c != next {
                    assert(d0[c] == dist@[c]);
                    assert(p0[c] == prev@[c]);
                }
            }
            assert forall|c: int| 0 <= c < n && #[trigger] dist@[c] != usize::MAX implies dist@[c] <= bound by {
                if c != next {
                    assert(d0[c] == dist@[c]);
                }
            }
        }
    }
}


/// The position of the least queued (cost, cell) pair, compared cost first.
fn least_entry(queue: &Vec<(usize, usize)>) -> (r: usize)
    requires
        queue@.len() > 0,
    ensures
        r < queue@.len(),
        forall|i: int| 0 <= i < queue@.len() ==> queue@[r as int].0 < (#[trigger] queue@[i]).0 || (
        queue@[r as int].0 == queue@[i].0 && queue@[r as int].1 <= queue@[i].1),
        least_at(queue@, r as int),
{
    let mut best: usize = 0;
    let mut i: usize = 1;
    while i < queue.len()
        invariant
            1 <= i <= queue@.len(),
            best < i,
            forall|j: int| 0 <= j < i ==> queue@[best as int].0 < (#[trigger] queue@[j]).0 || (
            queue@[best as int].0 == queue@[j].0 && queue@[best as int].1 <= queue@[j].1),
            forall|j: int| 0 <= j < best ==> pair_lt(queue@[best as int], #[trigger] queue@[j]),
        decreases queue@.len() - i,
    {
        let (c, x) = queue[i];
        let (bc, bx) = queue[best];
        if c < bc || (c == bc && x < bx) {
            best = i;
        }
        i = i + 1;
    }
    best
}

/// A path found by the search: from the outer cell of a usable start port through permitted
/// steps to the outer cell of a usable end port.
pub open spec fn is_search_path(s: Scene, e: RouteEnds, fwd: Seq<usize>, end_far: int) -> bool {
    &&& fwd.len() >= 1
    &&& is_seed(s, e, fwd[0] as int)
    &&& fwd[fwd.len() - 1] == end_far
    &&& forall|k: int| 0 <= k < fwd.len() - 1 ==> step_ok(s, e, #[trigger] fwd[k] as int, fwd[k + 1] as int)
}

/// Follows the recorded predecessors back from `last` to a seed, and returns the cells from
/// the seed to `last`.
fn trace_back(
    last: usize,
    dist: &Vec<usize>,
    prev: &Vec<usize>,
    Ghost(s): Ghost<Scene>,
    Ghost(e): Ghost<RouteEnds>,
    Ghost(queue): Ghost<Seq<(usize, usize)>>,
    Ghost(bound): Ghost<int>,
) -> (r: Vec<usize>)
    requires
        search_state_ok(s, e, dist@, prev@, queue, bound),
        last < s.canvas.w * s.canvas.h,
        dist@[last as int] != usize::MAX,
    ensures
        is_search_path(s, e, r@, last as int),
{
    let ghost n = s.canvas.w * s.canvas.h;
    let mut rev: Vec<usize> = Vec::new();
    rev.push(last);
    let mut cur = last;
    while prev[cur] != usize::MAX
        invariant
            search_state_ok(s, e, dist@, prev@, queue, bound),
            n == s.canvas.w * s.canvas.h,
            cur < n,
            dist@[cur as int] != usize::MAX,
            rev@.len() >= 1,
            rev@[0] == last,
            rev@[rev@.len() - 1] == cur,
            forall|k: int| 0 <= k < rev@.len() ==> (#[trigger] rev@[k]) < n,
            forall|k: int| 0 <= k < rev@.len() - 1 ==> prev@[(#[trigger] rev@[k]) as int] != usize::MAX
                && rev@[k + 1] == prev@[rev@[k] as int],
        decreases dist@[cur as int],
    {
        let p = prev[cur];
        assert(prev@[cur as int] != usize::MAX);
        let ghost old_rev = rev@;
        rev.push(p);
        proof {
            assert forall|k: int| 0 <= k < rev@.len() - 1 implies prev@[(#[trigger] rev@[k]) as int] != usize::MAX
                && rev@[k + 1] == prev@[rev@[k] as int] by {
                if k < old_rev.len() - 1 {
                    assert(rev@[k] == old_rev[k]);
                    assert(rev@[k + 1] == old_rev[k + 1]);
                }
            }
        }
        cur = p;
    }
    let m = rev.len();
    let mut fwd: Vec<usize> = Vec::new();
    let mut k: usize = m;
    while k > 0
        invariant
            k <= m,
            m == rev@.len(),
            fwd@.len() == m - k,
            forall|j: int| 0 <= j < fwd@.len() ==> #[trigger] fwd@[j] == rev@[m - 1 - j],
        decreases k,
    {
        k = k - 1;
        fwd.push(rev[k]);
    }
    proof {
        assert(fwd@[0] == cur);
        assert(is_seed(s, e, cur as int));
        assert(fwd@[fwd@.len() - 1] == last);
        assert forall|j: int| 0 <= j < fwd@.len() - 1 implies step_ok(s, e, #[trigger] fwd@[j] as int, fwd@[j + 1] as int) by {
            let t = m - 2 - j;
            assert(fwd@[j] == rev@[t + 1]);
            assert(fwd@[j + 1] == rev@[t]);
            assert(rev@[t + 1] == prev@[rev@[t] as int]);
            let c = rev@[t] as int;
            assert(prev@[c] != usize::MAX);
        }
    }
    fwd
}


fn filled(n: usize, v: usize) -> (r: Vec<usize>)
    ensures
        r@.len() == n,
        forall|i: int| 0 <= i < n ==> #[trigger] r@[i] == v,
{
    let mut out: Vec<usize> = Vec::new();
    let mut i: usize = 0;
    while i < n
        invariant
            i <= n,
            out@.len() == i,
            forall|j: int| 0 <= j < i ==> #[trigger] out@[j] == v,
        decreases n - i,
    {
        out.push(v);
        i = i + 1;
    }
    out
}

proof fn lemma_state_weaken(
    s: Scene,
    e: RouteEnds,
    dist: Seq<usize>,
    prev: Seq<usize>,
    queue: Seq<(usize, usize)>,
    smaller: Seq<(usize, usize)>,
    bound: int,
    larger: int,
)
    requires
        search_state_ok(s, e, dist, prev, queue, bound),
        bound <= larger,
        forall|i: int| 0 <= i < smaller.len() ==> exists|j: int| 0 <= j < queue.len() && #[trigger] smaller[i] == #[trigger] queue[j],
    ensures
        search_state_ok(s, e, dist, prev, smaller, larger),
{
    assert forall|i: int| 0 <= i < smaller.len() implies (#[trigger] smaller[i]).1 < s.canvas.w * s.canvas.h
        && smaller[i].0 <= larger by {
        let j = choose|j: int| 0 <= j < queue.len() && smaller[i] == queue[j];
        assert(queue[j].1 < s.canvas.w * s.canvas.h);
    }
}

/// Takes the least queued (cost, cell) pair out of the queue.
fn pop_least(
    queue: &mut Vec<(usize, usize)>,
    Ghost(s): Ghost<Scene>,
    Ghost(e): Ghost<RouteEnds>,
    Ghost(dist): Ghost<Seq<usize>>,
    Ghost(prev): Ghost<Seq<usize>>,
    Ghost(bound): Ghost<int>,
) -> (r: (usize, usize))
    requires
        old(queue)@.len() > 0,
        search_state_ok(s, e, dist, prev, old(queue)@, bound),
    ensures
        search_state_ok(s, e, dist, prev, final(queue)@, bound + 8),
        r.1 < s.canvas.w * s.canvas.h,
        r.0 <= bound,
        final(queue)@.len() == old(queue)@.len() - 1,
        forall|x: (usize, usize)| #[trigger] old(queue)@.contains(x) && x != r ==> final(queue)@.contains(x),
        r == old(queue)@[least_index(old(queue)@)],
        final(queue)@ == old(queue)@.update(least_index(old(queue)@), old(queue)@.last()).drop_last(),
{
    let i = least_entry(queue);
    proof {
        lemma_least_unique(queue@, i as int);
    }
    let ghost q0 = queue@;
    let r = queue.swap_remove(i);
    proof {
        assert(q0[i as int] == r);
        assert forall|t: int| 0 <= t < queue@.len() implies exists|j: int| 0 <= j < q0.len() && #[trigger] queue@[t] == #[trigger] q0[j] by {
            if t == i {
                assert(queue@[t] == q0[q0.len() - 1]);
            } else {
                assert(queue@[t] == q0[t]);
            }
        }
        lemma_state_weaken(s, e, dist, prev, q0, queue@, bound, bound + 8);
        assert forall|x: (usize, usize)| #[trigger] q0.contains(x) && x != r implies queue@.contains(x) by {
            let j = choose|j: int| 0 <= j < q0.len() && q0[j] == x;
            if j == i {
                assert(false);
            } else if j == q0.len() - 1 {
                assert(queue@[i as int] == x);
            } else {
                assert(queue@[j] == x);
            }
        }
    }
    r
}

/// Offers the steps from `cur` (reached at `cost`) to each of its neighbours.
#[verifier::rlimit(100)]
#[verifier::spinoff_prover]
fn expand(
    cur: usize,
    cost: usize,
    w: usize,
    h: usize,
    sb: &Vec<bool>,
    hb: &Vec<bool>,
    vb: &Vec<bool>,
    mask: &Vec<u8>,
    dist: &mut Vec<usize>,
    prev: &mut Vec<usize>,
    queue: &mut Vec<(usize, usize)>,
    Ghost(s): Ghost<Scene>,
    Ghost(e): Ghost<RouteEnds>,
    Ghost(bound): Ghost<int>,
)
    requires
        search_grids_ok(s, e, sb@, hb@, vb@),
        w == s.canvas.w,
        h == s.canvas.h,
        mask@.len() == s.canvas.w * s.canvas.h,
        mask@ == s.canvas.mask@,
        search_state_ok(s, e, old(dist)@, old(prev)@, old(queue)@, bound),
        cur < s.canvas.w * s.canvas.h,
        old(dist)@[cur as int] == cost,
        cost + 8 <= bound,
        bound < usize::MAX,
    ensures
        search_state_ok(s, e, final(dist)@, final(prev)@, final(queue)@, bound),
        final(dist)@[cur as int] == cost,
        grows(old(dist)@, final(dist)@, old(queue)@, final(queue)@),
        frontier_ok(s, e, old(dist)@, old(queue)@, cur as int) ==> frontier_ok(
            s,
            e,
            final(dist)@,
            final(queue)@,
            cur as int,
        ),
        forall|b: int| #[trigger] step_ok(s, e, cur as int, b) ==> final(dist)@[b] != usize::MAX,
        final(queue)@.len() <= old(queue)@.len() + 4,
        (final(dist)@, final(prev)@, final(queue)@) == expand_step(
            s,
            e,
            (old(dist)@, old(prev)@, old(queue)@),
            cur as int,
            cost as int,
        ),
{
    let x = cur % w;
    let y = cur / w;
    proof {
        assert(cur as int == y * w + x) by (nonlinear_arith)
            requires
                x == cur % w,
                y == cur / w,
                w > 0,
        ;
        assert(y < h) by (nonlinear_arith)
            requires
                cur < w * h,
                y == cur / w,
                w > 0,
        ;
        assert(cur + w < w * h <==> y + 1 < h) by (nonlinear_arith)
            requires
                cur as int == y * w + x,
                x < w,
                y < h,
                w > 0,
        ;
        assert(cur >= w <==> y > 0) by (nonlinear_arith)
            requires
                cur as int == y * w + x,
                x < w,
                w > 0,
        ;
        assert(x + 1 < w ==> cur + 1 < w * h) by (nonlinear_arith)
            requires
                cur as int == y * w + x,
                y < h,
                w > 0,
        ;
    }
    let ghost d0 = dist@;
    let ghost q0 = queue@;
    let ghost f0 = frontier_ok(s, e, d0, q0, cur as int);
    proof {
        reveal(expand_step);
    }
    if x > 0 {
        relax(cur, cost, cur - 1, w, sb, hb, vb, mask, dist, prev, queue, Ghost(s), Ghost(e), Ghost(bound));
    }
    let ghost d1 = dist@;
    let ghost q1 = queue@;
    if x + 1 < w {
        relax(cur, cost, cur + 1, w, sb, hb, vb, mask, dist, prev, queue, Ghost(s), Ghost(e), Ghost(bound));
    }
    let ghost d2 = dist@;
    let ghost q2 = queue@;
    if y > 0 {
        relax(cur, cost, cur - w, w, sb, hb, vb, mask, dist, prev, queue, Ghost(s), Ghost(e), Ghost(bound));
    }
    let ghost d3 = dist@;
    let ghost q3 = queue@;
    if y + 1 < h {
        relax(cur, cost, cur + w, w, sb, hb, vb, mask, dist, prev, queue, Ghost(s), Ghost(e), Ghost(bound));
    }
    proof {
        let n = s.canvas.w * s.canvas.h;
        assert(grows(d0, d1, q0, q1));
        assert(grows(d1, d2, q1, q2));
        assert(grows(d2, d3, q2, q3));
        assert(grows(d3, dist@, q3, queue@));
        assert forall|c: int| 0 <= c < n && #[trigger] d0[c] != usize::MAX implies dist@[c] != usize::MAX by {
            assert(d1[c] != usize::MAX);
            assert(d2[c] != usize::MAX);
            assert(d3[c] != usize::MAX);
        }
        assert forall|z: (usize, usize)| #[trigger] q0.contains(z) implies queue@.contains(z) by {
            assert(q1.contains(z));
            assert(q2.contains(z));
            assert(q3.contains(z));
        }
        assert forall|b: int| #[trigger] step_ok(s, e, cur as int, b) implies dist@[b] != usize::MAX by {
            let ci = cur as int;
            if b == ci - 1 && ci % (w as int) > 0 {
                assert(d1[b] != usize::MAX);
                assert(d2[b] != usize::MAX);
                assert(d3[b] != usize::MAX);
            } else if b == ci + 1 && ci % (w as int) + 1 < w {
                assert(d2[b] != usize::MAX);
                assert(d3[b] != usize::MAX);
            } else if b == ci - w && ci >= w {
                assert(d3[b] != usize::MAX);
            } else {
                assert(b == ci + w && ci + w < w * h);
            }
        }
    }
}

/// The first end whose outer cell is `cell`.
fn end_at(ends: &Vec<(usize, usize)>, cell: usize) -> (r: Option<usize>)
    ensures
        match r {
            Some(j) => j < ends@.len() && ends@[j as int].0 == cell,
            None => forall|j: int| 0 <= j < ends@.len() ==> ends@[j].0 != cell,
        },
{
    let mut j: usize = 0;
    while j < ends.len()
        invariant
            j <= ends@.len(),
            forall|t: int| 0 <= t < j ==> ends@[t].0 != cell,
        decreases ends@.len() - j,
    {
        if ends[j].0 == cell {
            return Some(j);
        }
        j = j + 1;
    }
    None
}

/// The queue a search starts with: cost zero at the open outer cell of each of `ports`, in order.
pub open spec fn seed_queue(s: Scene, e: RouteEnds, ports: Seq<(int, int)>) -> Seq<(usize, usize)>
    decreases ports.len(),
{
    if ports.len() == 0 {
        Seq::empty()
    } else {
        let rest = seed_queue(s, e, ports.drop_last());
        if !search_blocked(s, e, ports.last().0) {
            rest.push((0usize, ports.last().0 as usize))
        } else {
            rest
        }
    }
}

/// Seeds the search with the open outer cells of the start ports, at cost zero.
fn seed(
    starts: &Vec<(usize, usize)>,
    sb: &Vec<bool>,
    dist: &mut Vec<usize>,
    queue: &mut Vec<(usize, usize)>,
    Ghost(s): Ghost<Scene>,
    Ghost(e): Ghost<RouteEnds>,
    Ghost(prev): Ghost<Seq<usize>>,
)
    requires
        canvas_wf(s.canvas),
        sb@.len() == s.canvas.w * s.canvas.h,
        forall|c: int| 0 <= c < s.canvas.w * s.canvas.h ==> #[trigger] sb@[c] == search_blocked(s, e, c),
        holds_exactly(starts@, start_candidates(s, e), s, e),
        search_state_ok(s, e, old(dist)@, prev, old(queue)@, 0),
        old(queue)@.len() == 0,
        forall|c: int| 0 <= c < s.canvas.w * s.canvas.h ==> #[trigger] prev[c] == usize::MAX,
        forall|c: int| 0 <= c < s.canvas.w * s.canvas.h ==> #[trigger] old(dist)@[c] == usize::MAX,
    ensures
        search_state_ok(s, e, final(dist)@, prev, final(queue)@, 0),
        frontier_ok(s, e, final(dist)@, final(queue)@, -1),
        forall|p: (int, int)| #[trigger] is_start(s, e, p) && !search_blocked(s, e, p.0) ==> final(dist)@[p.0] != usize::MAX,
        final(queue)@.len() <= starts@.len(),
        final(queue)@ == seed_queue(s, e, starts@.map_values(|p: (usize, usize)| pair_int(p))),
        forall|c: int| 0 <= c < s.canvas.w * s.canvas.h ==> #[trigger] final(dist)@[c] == if final(queue)@.contains(
            (0usize, c as usize),
        ) {
            0usize
        } else {
            usize::MAX
        },
{
    let ghost sm = starts@.map_values(|p: (usize, usize)| pair_int(p));
    let ghost n = s.canvas.w * s.canvas.h;
    let mut k: usize = 0;
    while k < starts.len()
        invariant
            canvas_wf(s.canvas),
            k <= starts.len(),
            n == s.canvas.w * s.canvas.h,
            sb@.len() == n,
            forall|c: int| 0 <= c < n ==> #[trigger] sb@[c] == search_blocked(s, e, c),
            holds_exactly(starts@, start_candidates(s, e), s, e),
            search_state_ok(s, e, dist@, prev, queue@, 0),
            forall|c: int| 0 <= c < n ==> #[trigger] prev[c] == usize::MAX,
            forall|c: int| 0 <= c < n && #[trigger] dist@[c] != usize::MAX ==> dist@[c] == 0 && queue@.contains((0usize, c as usize)),
            forall|t: int| 0 <= t < k && !search_blocked(s, e, (#[trigger] starts@[t]).0 as int) ==> dist@[starts@[t].0 as int] != usize::MAX,
            queue@.len() <= k,
            sm == starts@.map_values(|p: (usize, usize)| pair_int(p)),
            queue@ == seed_queue(s, e, sm.take(k as int)),
            forall|c: int| 0 <= c < n ==> #[trigger] dist@[c] == if queue@.contains((0usize, c as usize)) {
                0usize
            } else {
                usize::MAX
            },
        decreases starts.len() - k,
    {
        let (far, near) = starts[k];
        assert(is_start(s, e, pair_int(starts@[k as int])));
        proof {
            assert(sm.take(k + 1).drop_last() =~= sm.take(k as int));
            assert(sm.take(k + 1).last() == sm[k as int]);
            assert(sm[k as int].0 == far as int);
        }
        if !sb[far] {
            let ghost d0 = dist@;
            let ghost q0 = queue@;
            dist.set(far, 0);
            queue.push((0, far));
            proof {
                assert(is_seed(s, e, far as int));
                assert(queue@[queue@.len() - 1] == (0usize, far));
                assert forall|c: int| 0 <= c < n && #[trigger] dist@[c] != usize::MAX && prev[c] == usize::MAX implies is_seed(s, e, c) by {
                    if c != far {
                        assert(d0[c] == dist@[c]);
                    }
                }
                assert forall|c: int| 0 <= c < n && #[trigger] dist@[c] != usize::MAX implies dist@[c] <= 0 by {
                    if c != far {
                        assert(d0[c] == dist@[c]);
                    }
                }
                assert forall|c: int| 0 <= c < n && #[trigger] dist@[c] != usize::MAX implies dist@[c] == 0
                    && queue@.contains((0usize, c as usize)) by {
                    if c != far {
                        assert(d0[c] == dist@[c]);
                        let j = choose|j: int| 0 <= j < q0.len() && q0[j] == (0usize, c as usize);
                        assert(queue@[j] == q0[j]);
                    }
                }
                assert forall|t: int| 0 <= t < k + 1 && !search_blocked(s, e, (#[trigger] starts@[t]).0 as int) implies dist@[starts@[t].0 as int] != usize::MAX by {
                    if t < k {
                        let c = starts@[t].0 as int;
                        assert(is_start(s, e, pair_int(starts@[t])));
                        assert(d0[c] != usize::MAX);
                    }
                }
                assert forall|c: int| 0 <= c < n implies #[trigger] dist@[c] == if queue@.contains((0usize, c as usize)) {
                    0usize
                } else {
                    usize::MAX
                } by {
                    if c != far as int {
                        assert(d0[c] == dist@[c]);
                        if queue@.contains((0usize, c as usize)) {
                            let j = choose|j: int| 0 <= j < queue@.len() && queue@[j] == (0usize, c as usize);
                            if j == q0.len() {
                                assert(queue@[j] == (0usize, far));
                                assert(c as usize == far);
                            }
                            assert(j < q0.len());
                            assert(q0[j] == queue@[j]);
                        }
                        if q0.contains((0usize, c as usize)) {
                            let j = choose|j: int| 0 <= j < q0.len() && q0[j] == (0usize, c as usize);
                            assert(queue@[j] == q0[j]);
                        }
                    }
                }
            }
        }
        k = k + 1;
    }
    proof {
        assert(sm.take(starts@.len() as int) =~= sm);
        assert forall|p: (int, int)| #[trigger] is_start(s, e, p) && !search_blocked(s, e, p.0) implies dist@[p.0] != usize::MAX by {
            let t = choose|t: int| 0 <= t < starts@.len() && pair_int(#[trigger] starts@[t]) == p;
            assert(starts@[t].0 as int == p.0);
        }
    }
}

/// No search path leads from a seed to the outer cell of a usable end port.
pub open spec fn no_search_path(s: Scene, e: RouteEnds) -> bool {
    forall|fwd: Seq<usize>, q: (int, int)| is_end(s, e, q) ==> !#[trigger] is_search_path(s, e, fwd, q.0)
}

proof fn lemma_path_reached(s: Scene, e: RouteEnds, dist: Seq<usize>, fwd: Seq<usize>, end_far: int, k: int)
    requires
        dist.len() == s.canvas.w * s.canvas.h,
        forall|c: int| 0 <= c < s.canvas.w * s.canvas.h && #[trigger] dist[c] != usize::MAX ==> settled(s, e, dist, c),
        forall|p: (int, int)| #[trigger] is_start(s, e, p) && !search_blocked(s, e, p.0) ==> dist[p.0] != usize::MAX,
        is_search_path(s, e, fwd, end_far),
        0 <= k < fwd.len(),
    ensures
        dist[fwd[k] as int] != usize::MAX,
    decreases k,
{
    if k == 0 {
        let c = fwd[0] as int;
        let p = choose|p: (int, int)| #[trigger] is_start(s, e, p) && p.0 == c && !search_blocked(s, e, c);
        assert(dist[p.0] != usize::MAX);
    } else {
        lemma_path_reached(s, e, dist, fwd, end_far, k - 1);
        assert(step_ok(s, e, fwd[k - 1] as int, fwd[k] as int));
        assert(settled(s, e, dist, fwd[k - 1] as int));
    }
}

proof fn lemma_closed_no_path(s: Scene, e: RouteEnds, dist: Seq<usize>)
    requires
        dist.len() == s.canvas.w * s.canvas.h,
        forall|c: int| 0 <= c < s.canvas.w * s.canvas.h && #[trigger] dist[c] != usize::MAX ==> settled(s, e, dist, c),
        forall|p: (int, int)| #[trigger] is_start(s, e, p) && !search_blocked(s, e, p.0) ==> dist[p.0] != usize::MAX,
    ensures
        no_search_path(s, e),
{
    assert forall|fwd: Seq<usize>, q: (int, int)| is_end(s, e, q) implies !#[trigger] is_search_path(s, e, fwd, q.0) by {
        if is_search_path(s, e, fwd, q.0) {
            let last = fwd.len() - 1;
            lemma_path_reached(s, e, dist, fwd, q.0, last);
            if last == 0 {
                let c = fwd[0] as int;
                let p = choose|p: (int, int)| #[trigger] is_start(s, e, p) && p.0 == c && !search_blocked(s, e, c);
                assert(0 <= c < s.canvas.w * s.canvas.h);
            } else {
                assert(step_ok(s, e, fwd[last - 1] as int, fwd[last] as int));
            }
            assert(settled(s, e, dist, fwd[last] as int));
            assert(is_end_far(s, e, fwd[last] as int));
        }
    }
}

/// The most queued cells a search can take: each cell is expanded at most once and queues at
/// most four neighbours, besides the four seeds.
pub open spec fn search_bound(s: Scene) -> int {
    4 * (s.canvas.w * s.canvas.h) + 4
}

/// The state a search starts in: cost zero at each seed, nothing else reached.
#[verifier::opaque]
pub open spec fn initial_search(s: Scene, e: RouteEnds) -> SearchState {
    let n = (s.canvas.w * s.canvas.h) as nat;
    let q = seed_queue(s, e, usable_ports_of(s, e, start_candidates(s, e)));
    (
        Seq::new(n, |c: int| if q.contains((0usize, c as usize)) { 0usize } else { usize::MAX }),
        Seq::new(n, |c: int| usize::MAX),
        q,
    )
}

/// One turn of the search on a non-empty queue: the least pair is taken off; when its cost
/// is current, an end's outer cell stops the search (`true`), and a cell not yet expanded
/// is expanded. Gives whether it stopped, the new state and the expanded cells.
#[verifier::opaque]
pub open spec fn after_pop(s: Scene, e: RouteEnds, st: SearchState, done: Seq<bool>) -> (bool, SearchState, Seq<bool>) {
    let q = st.2;
    let i = least_index(q);
    let cost = q[i].0;
    let cur = q[i].1;
    let rest = (st.0, st.1, q.update(i, q.last()).drop_last());
    if cost == st.0[cur as int] {
        if is_end_far(s, e, cur as int) {
            (true, rest, done)
        } else if !done[cur as int] {
            (false, expand_step(s, e, rest, cur as int, cost as int), done.update(cur as int, true))
        } else {
            (false, rest, done)
        }
    } else {
        (false, rest, done)
    }
}

/// How many queued pairs the search takes from `st` until it stops (an end reached or the
/// queue empty), if that is within `fuel` turns.
#[verifier::opaque]
pub open spec fn pops_needed(s: Scene, e: RouteEnds, st: SearchState, done: Seq<bool>, fuel: nat) -> Option<nat>
    decreases fuel,
{
    if st.2.len() == 0 {
        Some(0)
    } else if fuel == 0 {
        None
    } else {
        let (stopped, next, d) = after_pop(s, e, st, done);
        if stopped {
            Some(1)
        } else {
            match pops_needed(s, e, next, d, (fuel - 1) as nat) {
                Some(k) => Some(k + 1),
                None => None,
            }
        }
    }
}

/// How many queued pairs a whole search for the ends `e` takes (one unit of budget each).
pub open spec fn search_pops(s: Scene, e: RouteEnds) -> Option<nat> {
    pops_needed(
        s,
        e,
        initial_search(s, e),
        Seq::new((s.canvas.w * s.canvas.h) as nat, |c: int| false),
        (search_bound(s) + 1) as nat,
    )
}

pub open spec fn shift(o: Option<nat>, k: nat) -> Option<nat> {
    match o {
        Some(m) => Some(m + k),
        None => None,
    }
}

proof fn lemma_expanded_bound(dset: Set<int>, n: int)
    requires
        0 <= n,
        forall|c: int| #[trigger] dset.contains(c) ==> 0 <= c < n,
    ensures
        dset.finite(),
        dset.len() <= n,
{
    vstd::set_lib::lemma_int_range(0, n);
    assert(dset.subset_of(vstd::set_lib::set_int_range(0, n)));
    vstd::set_lib::lemma_len_subset(dset, vstd::set_lib::set_int_range(0, n));
}

/// One turn of the search (see [`after_pop`]): takes the least queued pair off and, when its
/// cost is current, stops at an end's outer cell (giving the end's position in `ends`) or
/// expands the cell once. Gives the cell taken.
#[verifier::rlimit(100)]
#[verifier::spinoff_prover]
fn search_turn(
    w: usize,
    h: usize,
    sb: &Vec<bool>,
    hb: &Vec<bool>,
    vb: &Vec<bool>,
    mask: &Vec<u8>,
    ends: &Vec<(usize, usize)>,
    dist: &mut Vec<usize>,
    prev: &mut Vec<usize>,
    queue: &mut Vec<(usize, usize)>,
    done: &mut Vec<bool>,
    Ghost(s): Ghost<Scene>,
    Ghost(e): Ghost<RouteEnds>,
    Ghost(pops): Ghost<int>,
) -> (r: (usize, Option<usize>))
    requires
        search_grids_ok(s, e, sb@, hb@, vb@),
        w == s.canvas.w,
        h == s.canvas.h,
        s.canvas.w * s.canvas.h <= 65536,
        mask@.len() == s.canvas.w * s.canvas.h,
        mask@ == s.canvas.mask@,
        holds_exactly(ends@, end_candidates(s, e), s, e),
        0 <= pops <= 4 * 65536 + 4,
        search_state_ok(s, e, old(dist)@, old(prev)@, old(queue)@, 8 * pops),
        frontier_ok(s, e, old(dist)@, old(queue)@, -1),
        old(queue)@.len() > 0,
        old(done)@.len() == s.canvas.w * s.canvas.h,
        forall|c: int| 0 <= c < s.canvas.w * s.canvas.h && #[trigger] old(done)@[c] ==> settled(s, e, old(dist)@, c),
        forall|p: (int, int)| #[trigger] is_start(s, e, p) && !search_blocked(s, e, p.0) ==> old(dist)@[p.0] != usize::MAX,
    ensures
        ({
            let st = after_pop(s, e, (old(dist)@, old(prev)@, old(queue)@), old(done)@);
            &&& (final(dist)@, final(prev)@, final(queue)@) == st.1
            &&& final(done)@ == st.2
            &&& (r.1 is Some <==> st.0)
        }),
        r.0 < s.canvas.w * s.canvas.h,
        r.1 matches Some(j) ==> j < ends@.len() && ends@[j as int].0 == r.0 && final(dist)@[r.0 as int] != usize::MAX,
        search_state_ok(s, e, final(dist)@, final(prev)@, final(queue)@, 8 * (pops + 1)),
        r.1 is None ==> frontier_ok(s, e, final(dist)@, final(queue)@, -1),
        final(done)@.len() == s.canvas.w * s.canvas.h,
        forall|c: int| 0 <= c < s.canvas.w * s.canvas.h && #[trigger] final(done)@[c] ==> settled(s, e, final(dist)@, c),
        forall|p: (int, int)| #[trigger] is_start(s, e, p) && !search_blocked(s, e, p.0) ==> final(dist)@[p.0] != usize::MAX,
        (final(done)@ == old(done)@ && final(queue)@.len() + 1 == old(queue)@.len()) || (!old(done)@[r.0 as int]
            && final(done)@ == old(done)@.update(r.0 as int, true) && final(queue)@.len() + 1 <= old(queue)@.len() + 4),
{
    let ghost n = s.canvas.w * s.canvas.h;
    let ghost q0 = queue@;
    let ghost before: SearchState = (dist@, prev@, queue@);
    let ghost dn0 = done@;
    let ghost step = after_pop(s, e, before, dn0);
    proof {
        reveal(after_pop);
    }
    let (cost, cur) = pop_least(queue, Ghost(s), Ghost(e), Ghost(dist@), Ghost(prev@), Ghost(8 * pops));
    proof {
        assert forall|c: int| 0 <= c < n && c != cur && #[trigger] dist@[c] != usize::MAX implies queue@.contains(
            (dist@[c], c as usize),
        ) || settled(s, e, dist@, c) by {
            if q0.contains((dist@[c], c as usize)) {
                assert((dist@[c], c as usize) != (cost, cur));
            }
        }
        let i = least_index(q0);
        assert(q0[i] == (cost, cur));
        assert(queue@ == q0.update(i, q0.last()).drop_last());
    }
    if cost != dist[cur] {
        proof {
            assert forall|c: int| 0 <= c < n && c != -1 && #[trigger] dist@[c] != usize::MAX implies queue@.contains(
                (dist@[c], c as usize),
            ) || settled(s, e, dist@, c) by {
                if c == cur {
                    if q0.contains((dist@[c], c as usize)) {
                        assert((dist@[c], c as usize) != (cost, cur));
                    }
                }
            }
        }
        return (cur, None);
    }
    match end_at(ends, cur) {
        Some(j) => {
            proof {
                let q = pair_int(ends@[j as int]);
                assert(is_end(s, e, q));
                assert(is_end_far(s, e, cur as int));
            }
            return (cur, Some(j));
        },
        None => {},
    }
    proof {
        if is_end_far(s, e, cur as int) {
            let q = choose|q: (int, int)| #[trigger] is_end(s, e, q) && q.0 == cur as int;
            let t = choose|t: int| 0 <= t < ends@.len() && pair_int(#[trigger] ends@[t]) == q;
            assert(ends@[t].0 != cur);
        }
    }
    // A cell is expanded once: a later entry at the same cost would offer its neighbours the
    // same costs again and change nothing.
    if done[cur] {
        proof {
            assert(settled(s, e, dist@, cur as int));
        }
        return (cur, None);
    }
    let ghost d1 = dist@;
    expand(cur, cost, w, h, sb, hb, vb, mask, dist, prev, queue, Ghost(s), Ghost(e), Ghost(8 * (pops + 1)));
    done.set(cur, true);
    proof {
        assert(settled(s, e, dist@, cur as int));
        assert forall|c: int| 0 <= c < n && #[trigger] done@[c] implies settled(s, e, dist@, c) by {
            if c != cur {
                assert(dn0[c]);
                lemma_settled_grows(s, e, d1, dist@, c);
            }
        }
        assert forall|c: int| 0 <= c < n && c != -1 && #[trigger] dist@[c] != usize::MAX implies queue@.contains(
            (dist@[c], c as usize),
        ) || settled(s, e, dist@, c) by {
            if c != cur {
            }
        }
        assert forall|p: (int, int)| #[trigger] is_start(s, e, p) && !search_blocked(s, e, p.0) implies dist@[p.0] != usize::MAX by {
            assert(d1[p.0] != usize::MAX);
        }
    }
    (cur, None)
}

/// The count `o` is known and at most `b`.
pub open spec fn within_budget(o: Option<nat>, b: int) -> bool {
    o matches Some(k) && k <= b
}

proof fn lemma_pops_step(s: Scene, e: RouteEnds, st: SearchState, done: Seq<bool>, fuel: nat)
    requires
        st.2.len() > 0,
        fuel >= 1,
    ensures
        ({
            let (stopped, next, d) = after_pop(s, e, st, done);
            &&& stopped ==> pops_needed(s, e, st, done, fuel) == Some(1nat)
            &&& !stopped ==> pops_needed(s, e, st, done, fuel) == shift(pops_needed(s, e, next, d, (fuel - 1) as nat), 1)
        }),
        pops_needed(s, e, st, done, fuel) is None || pops_needed(s, e, st, done, fuel)->0 >= 1,
{
    reveal(pops_needed);
}

/// Cheapest-first search over open cells from the seeds to an end port, spending one unit of
/// `budget` per queued cell taken. Gives the cells from a seed to the outer cell of end
/// `j`, and `j`. A whole search takes [`search_pops`] queued cells, at most [`search_bound`];
/// when the budget is smaller it stops with `None` and no budget left.
#[verifier::rlimit(100)]
#[verifier::spinoff_prover]
fn search(
    w: usize,
    h: usize,
    sb: &Vec<bool>,
    hb: &Vec<bool>,
    vb: &Vec<bool>,
    mask: &Vec<u8>,
    starts: &Vec<(usize, usize)>,
    ends: &Vec<(usize, usize)>,
    budget: &mut usize,
    Ghost(s): Ghost<Scene>,
    Ghost(e): Ghost<RouteEnds>,
) -> (r: Option<(Vec<usize>, usize)>)
    requires
        search_grids_ok(s, e, sb@, hb@, vb@),
        w == s.canvas.w,
        h == s.canvas.h,
        s.canvas.w * s.canvas.h <= 65536,
        mask@.len() == s.canvas.w * s.canvas.h,
        mask@ == s.canvas.mask@,
        holds_exactly(starts@, start_candidates(s, e), s, e),
        holds_exactly(ends@, end_candidates(s, e), s, e),
        starts@.map_values(|p: (usize, usize)| pair_int(p)) == usable_ports_of(s, e, start_candidates(s, e)),
        starts@.len() <= 4,
    ensures
        *final(budget) <= *old(budget),
        *old(budget) - *final(budget) <= search_bound(s),
        within_budget(search_pops(s, e), *old(budget) as int) ==> *final(budget) == *old(budget) - search_pops(s, e)->0,
        !within_budget(search_pops(s, e), *old(budget) as int) ==> r is None && *final(budget) == 0,
        *old(budget) >= search_bound(s) ==> within_budget(search_pops(s, e), *old(budget) as int),
        match r {
            Some((fwd, j)) => j < ends@.len() && is_search_path(s, e, fwd@, ends@[j as int].0 as int),
            None => no_search_path(s, e) || (*final(budget) == 0 && *old(budget) < search_bound(s)),
        },
{
    let n = w * h;
    let bound = 4 * n + 4;
    let mut dist = filled(n, usize::MAX);
    let prev0 = filled(n, usize::MAX);
    let mut prev = prev0;
    let mut done: Vec<bool> = vec![false; n];
    let ghost mut dset: Set<int> = Set::empty();
    let mut queue: Vec<(usize, usize)> = Vec::new();
    seed(starts, sb, &mut dist, &mut queue, Ghost(s), Ghost(e), Ghost(prev@));
    let ghost fuel: nat = (search_bound(s) + 1) as nat;
    proof {
        reveal(initial_search);
        let init = initial_search(s, e);
        assert(queue@ == init.2);
        assert(dist@ =~= init.0);
        assert(prev@ =~= init.1);
        assert(done@ =~= Seq::new(n as nat, |c: int| false));
    }
    let initial = *budget;
    let cap = if initial < bound {
        initial
    } else {
        bound
    };
    let mut remaining: usize = cap;
    let ghost mut pops: int = 0;
    while queue.len() > 0
        invariant
            n == s.canvas.w * s.canvas.h,
            n <= 65536,
            bound == search_bound(s),
            w == s.canvas.w,
            h == s.canvas.h,
            mask@.len() == s.canvas.w * s.canvas.h,
            mask@ == s.canvas.mask@,
            search_grids_ok(s, e, sb@, hb@, vb@),
            holds_exactly(ends@, end_candidates(s, e), s, e),
            search_state_ok(s, e, dist@, prev@, queue@, 8 * pops),
            initial == *old(budget),
            cap == (if initial < bound { initial } else { bound }),
            remaining + pops == cap,
            0 <= pops,
            *budget == initial,
            fuel == search_bound(s) + 1,
            shift(pops_needed(s, e, (dist@, prev@, queue@), done@, (fuel - pops) as nat), pops as nat) == search_pops(s, e),
            frontier_ok(s, e, dist@, queue@, -1),
            forall|p: (int, int)| #[trigger] is_start(s, e, p) && !search_blocked(s, e, p.0) ==> dist@[p.0] != usize::MAX,
            done@.len() == n,
            forall|c: int| 0 <= c < n && #[trigger] done@[c] ==> settled(s, e, dist@, c),
            forall|c: int| #[trigger] dset.contains(c) <==> (0 <= c < n && done@[c]),
            starts@.len() <= 4,
            queue@.len() + pops <= starts@.len() + 4 * dset.len(),
        decreases remaining,
    {
        proof {
            lemma_expanded_bound(dset, n as int);
        }
        let ghost before: SearchState = (dist@, prev@, queue@);
        let ghost dn0 = done@;
        let ghost f0: nat = (fuel - pops) as nat;
        proof {
            lemma_pops_step(s, e, before, dn0, f0);
        }
        if remaining == 0 {
            *budget = 0;
            return None;
        }
        let (cur, found) = search_turn(w, h, sb, hb, vb, mask, ends, &mut dist, &mut prev, &mut queue, &mut done, Ghost(s), Ghost(e), Ghost(pops));
        remaining = remaining - 1;
        proof {
            pops = pops + 1;
            if done@ != dn0 {
                assert(!dset.contains(cur as int));
                dset = dset.insert(cur as int);
            }
            assert((fuel - pops) as nat == (f0 - 1) as nat);
        }
        match found {
            Some(j) => {
                let fwd = trace_back(cur, &dist, &prev, Ghost(s), Ghost(e), Ghost(queue@), Ghost(8 * pops));
                *budget = initial - (cap - remaining);
                return Some((fwd, j));
            },
            None => {},
        }
    }
    proof {
        assert forall|c: int| 0 <= c < n && #[trigger] dist@[c] != usize::MAX implies settled(s, e, dist@, c) by {
            if queue@.contains((dist@[c], c as usize)) {
                let t = choose|t: int| 0 <= t < queue@.len() && queue@[t] == (dist@[c], c as usize);
            }
        }
        lemma_closed_no_path(s, e, dist@);
        lemma_expanded_bound(dset, n as int);
        reveal(pops_needed);
        assert(pops_needed(s, e, (dist@, prev@, queue@), done@, (fuel - pops) as nat) == Some(0nat));
        assert(search_pops(s, e) == Some(pops as nat));
    }
    *budget = initial - (cap - remaining);
    None
}


/// A usable start port and a usable end port face each other: each one's outer cell is the
/// other's inner cell.
pub open spec fn has_facing_ports(s: Scene, e: RouteEnds) -> bool {
    exists|p: (int, int), q: (int, int)| is_start(s, e, p) && is_end(s, e, q) && q.0 == p.1 && q.1 == p.0
}

/// A route for an edge from `from` to `to` through `scene`, as the cells it passes in order:
/// two facing ports when they touch, else a cheapest-first search through open cells (turns
/// and crossings of drawn lines cost more). Each cell the search takes off its queue spends
/// one unit of `budget`; facing ports and missing boxes spend none. A whole search takes
/// [`search_pops`] cells, at most [`search_bound`]: when the budget covers it, exactly that
/// much is spent; when it does not, the search stops with `None` and no budget left. A route
/// that is found connects the ends (see [`is_route`]); when one exists and the budget covers
/// a whole search, one is found.
pub fn route(scene: &Scene, from: Item, to: Item, budget: &mut usize) -> (r: Option<Vec<usize>>)
    requires
        scene_routable(*scene),
    ensures
        match route_ends(*scene, from, to) {
            Some(e) => {
                &&& has_facing_ports(*scene, e) ==> r is Some && *final(budget) == *old(budget)
                &&& !has_facing_ports(*scene, e) && within_budget(search_pops(*scene, e), *old(budget) as int)
                    ==> *final(budget) == *old(budget) - search_pops(*scene, e)->0
                &&& !has_facing_ports(*scene, e) && !within_budget(search_pops(*scene, e), *old(budget) as int)
                    ==> r is None && *final(budget) == 0
            },
            None => true,
        },
        *final(budget) <= *old(budget),
        *old(budget) - *final(budget) <= search_bound(*scene),
        route_ends(*scene, from, to) is None ==> r is None && *final(budget) == *old(budget),
        r matches Some(path) && path.len() == 2 ==> *final(budget) == *old(budget),
        (route_ends(*scene, from, to) matches Some(e) && exists|path: Seq<usize>| is_route(*scene, e, path))
            && *old(budget) >= search_bound(*scene) ==> r is Some,
        match r {
            Some(path) => route_ends(*scene, from, to) matches Some(e) && is_route(*scene, e, path@),
            None => match route_ends(*scene, from, to) {
                Some(e) => (forall|path: Seq<usize>| !#[trigger] is_route(*scene, e, path)) || (
                *final(budget) == 0 && *old(budget) < search_bound(*scene)),
                None => true,
            },
        },
{
    let w = scene.canvas.w;
    let h = scene.canvas.h;
    let si = match find_bound(&scene.bounds, from) {
        Some(i) => i,
        None => return None,
    };
    let ti = match find_bound(&scene.bounds, to) {
        Some(i) => i,
        None => return None,
    };
    let source = scene.bounds[si].1;
    let target = scene.bounds[ti].1;
    let ends_exec = RouteEndsExec { from, to, source, target };
    let ghost e = ends_exec.spec();
    assert(route_ends(*scene, from, to) == Some(e));
    assert(rect_padded(scene.bounds@[si as int].1, scene.canvas));
    assert(rect_padded(scene.bounds@[ti as int].1, scene.canvas));
    let anc = ancestor_flags(&scene.bounds, &ends_exec);
    let (blocked, hb, vb) = cell_grids(scene, &anc, &ends_exec);
    let sp = ports(&source, w, h);
    let tp = ports(&target, w, h);
    let mut scands: Vec<(usize, usize)> = Vec::new();
    let mut ecands: Vec<(usize, usize)> = Vec::new();
    if from == to {
        scands.push(sp[0]);
        ecands.push(tp[1]);
    } else {
        scands.push(sp[0]);
        scands.push(sp[1]);
        scands.push(sp[2]);
        scands.push(sp[3]);
        ecands.push(tp[0]);
        ecands.push(tp[1]);
        ecands.push(tp[2]);
        ecands.push(tp[3]);
    }
    proof {
        let ps = port_cells(source, w as int);
        let qs = port_cells(target, w as int);
        assert(sp@[0].0 == ps[0].0 && sp@[0].1 == ps[0].1);
        assert(tp@[1].0 == qs[1].0 && tp@[1].1 == qs[1].1);
        assert(sp@[1].0 == ps[1].0 && sp@[2].0 == ps[2].0 && sp@[3].0 == ps[3].0);
        assert(tp@[0].0 == qs[0].0 && tp@[2].0 == qs[2].0 && tp@[3].0 == qs[3].0);
        assert(scands@.map_values(|p: (usize, usize)| pair_int(p)) =~= start_candidates(*scene, e));
        assert(ecands@.map_values(|p: (usize, usize)| pair_int(p)) =~= end_candidates(*scene, e));
    }
    let starts = usable_ports(&scands, &blocked, &hb, &vb, w, Ghost(*scene), Ghost(e));
    let ends = usable_ports(&ecands, &blocked, &hb, &vb, w, Ghost(*scene), Ghost(e));
    let facing = facing_ports(&starts, &ends);
    match facing {
        Some((i, j)) => {
            let mut path: Vec<usize> = Vec::new();
            path.push(starts[i].1);
            path.push(ends[j].1);
            proof {
                let p = pair_int(starts@[i as int]);
                let q = pair_int(ends@[j as int]);
                assert(is_start(*scene, e, p));
                assert(is_end(*scene, e, q));
                assert(has_facing_ports(*scene, e));
            }
            return Some(path);
        },
        None => {
            proof {
                if has_facing_ports(*scene, e) {
                    let (p, q) = choose|p: (int, int), q: (int, int)|
                        is_start(*scene, e, p) && is_end(*scene, e, q) && q.0 == p.1 && q.1 == p.0;
                    let a = choose|a: int| 0 <= a < starts@.len() && pair_int(#[trigger] starts@[a]) == p;
                    let b = choose|b: int| 0 <= b < ends@.len() && pair_int(#[trigger] ends@[b]) == q;
                    assert(!(ends@[b].0 == starts@[a].1 && ends@[b].1 == starts@[a].0));
                }
            }
        },
    }
    let sb = close_port_cells(&blocked, &starts, &ends, Ghost(*scene), Ghost(e));
    let (fwd, j) = match search(w, h, &sb, &hb, &vb, &scene.canvas.mask, &starts, &ends, budget, Ghost(*scene), Ghost(e)) {
        Some(found) => found,
        None => {
            proof {
                if no_search_path(*scene, e) {
                    assert forall|path: Seq<usize>| !#[trigger] is_route(*scene, e, path) by {
                        if is_route(*scene, e, path) {
                            if exists|p: (int, int), q: (int, int)|
                                is_start(*scene, e, p) && is_end(*scene, e, q) && q.0 == p.1 && q.1 == p.0 && path.len() == 2
                                    && path[0] == p.1 && path[1] == q.1 {
                                let (p, q) = choose|p: (int, int), q: (int, int)|
                                    is_start(*scene, e, p) && is_end(*scene, e, q) && q.0 == p.1 && q.1 == p.0 && path.len() == 2
                                        && path[0] == p.1 && path[1] == q.1;
                                let a = choose|a: int| 0 <= a < starts@.len() && pair_int(#[trigger] starts@[a]) == p;
                                let b = choose|b: int| 0 <= b < ends@.len() && pair_int(#[trigger] ends@[b]) == q;
                                assert(!(ends@[b].0 == starts@[a].1 && ends@[b].1 == starts@[a].0));
                            } else {
                                let (p, q) = choose|p: (int, int), q: (int, int)|
                                    #![trigger is_start(*scene, e, p), is_end(*scene, e, q)]
                                    is_start(*scene, e, p) && is_end(*scene, e, q) && path[0] == p.1 && path[1] == p.0
                                        && !search_blocked(*scene, e, p.0) && path[path.len() - 2] == q.0 && path[path.len() - 1] == q.1
                                        && forall|k: int| 1 <= k < path.len() - 2 ==> step_ok(*scene, e, #[trigger] path[k] as int, path[k + 1] as int);
                                let fwd = path.subrange(1, path.len() - 1);
                                assert(is_seed(*scene, e, fwd[0] as int));
                                assert forall|k: int| 0 <= k < fwd.len() - 1 implies step_ok(*scene, e, #[trigger] fwd[k] as int, fwd[k + 1] as int) by {
                                    assert(fwd[k] == path[k + 1]);
                                    assert(fwd[k + 1] == path[k + 2]);
                                }
                                assert(is_search_path(*scene, e, fwd, q.0));
                            }
                        }
                    }
                }
            }
            return None;
        },
    };
    let first = fwd[0];
    let mut i: usize = 0;
    while i < starts.len() && starts[i].0 != first
        invariant
            i <= starts@.len(),
            forall|t: int| 0 <= t < i ==> starts@[t].0 != first,
        decreases starts@.len() - i,
    {
        i = i + 1;
    }
    if i == starts.len() {
        proof {
            let p = choose|p: (int, int)| #[trigger] is_start(*scene, e, p) && p.0 == first as int && !search_blocked(*scene, e, first as int);
            let t = choose|t: int| 0 <= t < starts@.len() && pair_int(#[trigger] starts@[t]) == p;
            assert(starts@[t].0 != first);
        }
        return None;
    }
    let mut path: Vec<usize> = Vec::new();
    path.push(starts[i].1);
    let mut k: usize = 0;
    while k < fwd.len()
        invariant
            k <= fwd@.len(),
            path@.len() == k + 1,
            path@[0] == starts@[i as int].1,
            forall|t: int| 0 <= t < k ==> #[trigger] path@[t + 1] == fwd@[t],
        decreases fwd@.len() - k,
    {
        path.push(fwd[k]);
        k = k + 1;
    }
    let ghost mid = path@;
    path.push(ends[j].1);
    proof {
        assert(forall|t: int| 0 <= t < mid.len() ==> path@[t] == mid[t]);
        let p = pair_int(starts@[i as int]);
        let q = pair_int(ends@[j as int]);
        let m = fwd@.len() as int;
        assert(is_start(*scene, e, p));
        assert(is_end(*scene, e, q));
        assert(mid[0int + 1] == fwd@[0]);
        assert(mid[(m - 1) + 1] == fwd@[m - 1]);
        assert(path@[1] == fwd@[0]);
        assert(path@[m] == fwd@[m - 1]);
        assert(is_seed(*scene, e, fwd@[0] as int));
        assert forall|t: int| 1 <= t < path@.len() - 2 implies step_ok(*scene, e, #[trigger] path@[t] as int, path@[t + 1] as int) by {
            assert(path@[t] == mid[t]);
            assert(path@[t + 1] == mid[t + 1]);
            assert(mid[(t - 1) + 1] == fwd@[t - 1]);
            assert(mid[t + 1] == fwd@[t]);
            assert(path@[t] == fwd@[t - 1]);
            assert(path@[t + 1] == fwd@[t]);
        }
    }
    Some(path)
}

} // verus!
