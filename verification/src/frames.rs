//! Building the scene of a grouped diagram: every scope (the whole diagram, or one kept
//! group) is laid out from its own nodes and kept child groups, each child group drawn as a
//! frame around its own scene, and the boxes of the children's scenes are moved into the
//! frames. The layout of one scope is the host's layout engine, handed in as `layout`.

use vstd::prelude::*;

use crate::grouped::canvas_wf;
use crate::grouped::pad;
use crate::grouped::rect_within;
use crate::grouped::translate;
use crate::grouped::Canvas;
use crate::grouped::Item;
use crate::grouped::Placed;
use crate::grouped::Scene;
use crate::paint::Oversize;

verus! {

/// What the layout engine is asked to place: the scope's items in order, its edges as
/// (from position, to position, index of the diagram edge), and for each item the scene
/// drawn inside it when it is a group frame.
pub struct LayoutRequest {
    pub items: Vec<Item>,
    pub edges: Vec<(usize, usize, usize)>,
    pub frames: Vec<Option<Canvas>>,
}

/// What a build relies on from the layout engine: a well-formed canvas of at most 60000 by
/// 60000 cells with one box per item, each on the canvas, and each frame big enough for its
/// scene and a one-cell border.
pub open spec fn layout_ok(req: LayoutRequest, out: Result<(Canvas, Vec<Placed>), Oversize>) -> bool {
    match out {
        Err(_) => true,
        Ok((c, ps)) => {
            &&& canvas_wf(c)
            &&& c.w <= 60000
            &&& c.h <= 60000
            &&& ps@.len() == req.items@.len()
            &&& req.frames@.len() == req.items@.len()
            &&& forall|i: int| 0 <= i < ps@.len() ==> rect_within(#[trigger] ps@[i], c.w as int, c.h as int)
            &&& forall|i: int| 0 <= i < ps@.len() && req.frames@[i] is Some ==> (#[trigger] ps@[i]).w >= req.frames@[i]->0.w + 2
                && ps@[i].h >= req.frames@[i]->0.h + 2
        },
    }
}

/// The node list of `scope` in `direct_nodes` (its first entry), none when it has no entry.
pub open spec fn scope_nodes(direct_nodes: Seq<(Option<usize>, Vec<usize>)>, scope: Option<usize>) -> Seq<usize>
    decreases direct_nodes.len(),
{
    if direct_nodes.len() == 0 {
        Seq::empty()
    } else if direct_nodes[0].0 == scope {
        direct_nodes[0].1@
    } else {
        scope_nodes(direct_nodes.drop_first(), scope)
    }
}

/// The kept groups among the first `k` whose parent is `scope`, in order.
pub open spec fn child_groups(parents: Seq<Option<usize>>, keep: Seq<bool>, scope: Option<usize>, k: int) -> Seq<Item>
    decreases k,
{
    if k <= 0 {
        Seq::empty()
    } else {
        let rest = child_groups(parents, keep, scope, k - 1);
        if parents[k - 1] == scope && keep[k - 1] {
            rest.push(Item::Group((k - 1) as usize))
        } else {
            rest
        }
    }
}

/// The items of `scope`: its own nodes, then its kept child groups.
pub open spec fn scope_items(
    parents: Seq<Option<usize>>,
    direct_nodes: Seq<(Option<usize>, Vec<usize>)>,
    keep: Seq<bool>,
    scope: Option<usize>,
) -> Seq<Item> {
    scope_nodes(direct_nodes, scope).map_values(|n: usize| Item::Node(n)) + child_groups(
        parents,
        keep,
        scope,
        parents.len() as int,
    )
}

/// The items that have boxes in the scene of `scope`, in the order they are placed: for each
/// item of the scope, those of its own scene when it is a group, then the item.
pub open spec fn scene_items(
    parents: Seq<Option<usize>>,
    direct_nodes: Seq<(Option<usize>, Vec<usize>)>,
    keep: Seq<bool>,
    scope: Option<usize>,
    fuel: nat,
) -> Seq<Item>
    decreases fuel, 1int, 0int,
{
    items_scenes(parents, direct_nodes, keep, scope_items(parents, direct_nodes, keep, scope), fuel)
}

/// The boxes placed for `items` in turn (see [`scene_items`]).
pub open spec fn items_scenes(
    parents: Seq<Option<usize>>,
    direct_nodes: Seq<(Option<usize>, Vec<usize>)>,
    keep: Seq<bool>,
    items: Seq<Item>,
    fuel: nat,
) -> Seq<Item>
    decreases fuel, 0int, items.len(),
{
    if items.len() == 0 {
        Seq::empty()
    } else {
        let before = items_scenes(parents, direct_nodes, keep, items.drop_last(), fuel);
        let last = items.last();
        match last {
            Item::Group(g) => if fuel == 0 {
                before.push(last)
            } else {
                before + scene_items(parents, direct_nodes, keep, Some(g), (fuel - 1) as nat) + seq![last]
            },
            Item::Node(_) => before.push(last),
        }
    }
}

/// Every group's parent comes before it.
pub open spec fn groups_nested(parents: Seq<Option<usize>>) -> bool {
    forall|g: int| 0 <= g < parents.len() ==> (#[trigger] parents[g] matches Some(p) ==> p < g)
}

/// How many nesting levels can still lie below `scope`.
pub open spec fn depth_room(parents: Seq<Option<usize>>, scope: Option<usize>) -> nat {
    match scope {
        None => (parents.len() + 1) as nat,
        Some(g) => (parents.len() - g) as nat,
    }
}

pub open spec fn keys_of(bs: Seq<(Item, Placed)>) -> Seq<Item> {
    bs.map_values(|e: (Item, Placed)| e.0)
}

/// Every edge of `scope` joins two of its items.
pub open spec fn edges_within(
    scope_edges: Seq<(Option<usize>, Vec<(Item, Item, usize)>)>,
    items: Seq<Item>,
    scope: Option<usize>,
) -> bool {
    forall|j: int| 0 <= j < scope_edges_of(scope_edges, scope).len() ==> items.contains(
        (#[trigger] scope_edges_of(scope_edges, scope)[j]).0,
    ) && items.contains(scope_edges_of(scope_edges, scope)[j].1)
}

/// The edge list of `scope` in `scope_edges` (its first entry), none when it has no entry.
pub open spec fn scope_edges_of(scope_edges: Seq<(Option<usize>, Vec<(Item, Item, usize)>)>, scope: Option<usize>) -> Seq<(Item, Item, usize)>
    decreases scope_edges.len(),
{
    if scope_edges.len() == 0 {
        Seq::empty()
    } else if scope_edges[0].0 == scope {
        scope_edges[0].1@
    } else {
        scope_edges_of(scope_edges.drop_first(), scope)
    }
}

fn find_scope_nodes(direct_nodes: &Vec<(Option<usize>, Vec<usize>)>, scope: Option<usize>) -> (r: Vec<usize>)
    ensures
        r@ == scope_nodes(direct_nodes@, scope),
{
    let mut i: usize = 0;
    assert(direct_nodes@.skip(0) =~= direct_nodes@);
    while i < direct_nodes.len()
        invariant
            i <= direct_nodes@.len(),
            scope_nodes(direct_nodes@, scope) == scope_nodes(direct_nodes@.skip(i as int), scope),
        decreases direct_nodes@.len() - i,
    {
        assert(direct_nodes@.skip(i as int).drop_first() =~= direct_nodes@.skip(i + 1));
        if direct_nodes[i].0 == scope {
            let list = &direct_nodes[i].1;
            let mut out: Vec<usize> = Vec::new();
            let mut j: usize = 0;
            while j < list.len()
                invariant
                    j <= list@.len(),
                    out@ == list@.take(j as int),
                decreases list@.len() - j,
            {
                out.push(list[j]);
                assert(list@.take(j + 1) =~= list@.take(j as int).push(list@[j as int]));
                j = j + 1;
            }
            assert(list@.take(list@.len() as int) =~= list@);
            return out;
        }
        i = i + 1;
    }
    Vec::new()
}

fn find_scope_edges(scope_edges: &Vec<(Option<usize>, Vec<(Item, Item, usize)>)>, scope: Option<usize>) -> (r: Vec<(Item, Item, usize)>)
    ensures
        r@ == scope_edges_of(scope_edges@, scope),
{
    let mut i: usize = 0;
    assert(scope_edges@.skip(0) =~= scope_edges@);
    while i < scope_edges.len()
        invariant
            i <= scope_edges@.len(),
            scope_edges_of(scope_edges@, scope) == scope_edges_of(scope_edges@.skip(i as int), scope),
        decreases scope_edges@.len() - i,
    {
        assert(scope_edges@.skip(i as int).drop_first() =~= scope_edges@.skip(i + 1));
        if scope_edges[i].0 == scope {
            let list = &scope_edges[i].1;
            let mut out: Vec<(Item, Item, usize)> = Vec::new();
            let mut j: usize = 0;
            while j < list.len()
                invariant
                    j <= list@.len(),
                    out@ == list@.take(j as int),
                decreases list@.len() - j,
            {
                out.push(list[j]);
                assert(list@.take(j + 1) =~= list@.take(j as int).push(list@[j as int]));
                j = j + 1;
            }
            assert(list@.take(list@.len() as int) =~= list@);
            return out;
        }
        i = i + 1;
    }
    Vec::new()
}

fn position_of(items: &Vec<Item>, item: Item) -> (r: Option<usize>)
    ensures
        match r {
            Some(k) => k < items@.len() && items@[k as int] == item,
            None => !items@.contains(item),
        },
{
    let mut k: usize = 0;
    while k < items.len()
        invariant
            k <= items@.len(),
            forall|t: int| 0 <= t < k ==> items@[t] != item,
        decreases items@.len() - k,
    {
        if items[k] == item {
            return Some(k);
        }
        k = k + 1;
    }
    None
}

/// What a built scene guarantees: a well-formed canvas of at most 60000 by 60000 cells with
/// every box on it.
pub open spec fn scene_ok(sc: Scene) -> bool {
    &&& canvas_wf(sc.canvas)
    &&& sc.canvas.w <= 60000
    &&& sc.canvas.h <= 60000
    &&& forall|i: int| 0 <= i < sc.bounds@.len() ==> rect_within(#[trigger] sc.bounds@[i].1, sc.canvas.w as int, sc.canvas.h as int)
}

/// The layout engine accepts every request, and its answers are as [`layout_ok`] says.
pub open spec fn layout_engine<F: Fn(&LayoutRequest) -> Result<(Canvas, Vec<Placed>), Oversize>>(layout: F) -> bool {
    &&& forall|req: &LayoutRequest| #[trigger] layout.requires((req,))
    &&& forall|req: &LayoutRequest, out: Result<(Canvas, Vec<Placed>), Oversize>| #[trigger] layout.ensures((req,), out)
        ==> layout_ok(*req, out)
}

fn collect_items(
    parents: &Vec<Option<usize>>,
    scope: Option<usize>,
    direct_nodes: &Vec<(Option<usize>, Vec<usize>)>,
    keep: &[bool],
) -> (r: Vec<Item>)
    requires
        keep@.len() == parents@.len(),
    ensures
        r@ == scope_items(parents@, direct_nodes@, keep@, scope),
{
    let nodes = find_scope_nodes(direct_nodes, scope);
    let mut items: Vec<Item> = Vec::new();
    let mut i: usize = 0;
    while i < nodes.len()
        invariant
            i <= nodes@.len(),
            items@ == nodes@.take(i as int).map_values(|n: usize| Item::Node(n)),
        decreases nodes@.len() - i,
    {
        items.push(Item::Node(nodes[i]));
        assert(nodes@.take(i + 1).map_values(|n: usize| Item::Node(n)) =~= nodes@.take(i as int).map_values(
            |n: usize| Item::Node(n),
        ).push(Item::Node(nodes@[i as int])));
        i = i + 1;
    }
    assert(nodes@.take(nodes@.len() as int) =~= nodes@);
    let ghost base = items@;
    let mut g: usize = 0;
    assert(base + child_groups(parents@, keep@, scope, 0) =~= base);
    while g < parents.len()
        invariant
            g <= parents@.len(),
            keep@.len() == parents@.len(),
            items@ == base + child_groups(parents@, keep@, scope, g as int),
        decreases parents@.len() - g,
    {
        if parents[g] == scope && keep[g] {
            items.push(Item::Group(g));
            assert(base + child_groups(parents@, keep@, scope, g + 1) =~= (base + child_groups(parents@, keep@, scope, g as int)).push(Item::Group(g)));
        } else {
            assert(child_groups(parents@, keep@, scope, g + 1) == child_groups(parents@, keep@, scope, g as int));
        }
        g = g + 1;
    }
    items
}

/// The scene of `scope` (see [`build`]), with `fuel` nesting levels.
#[verifier::rlimit(100)]
#[verifier::spinoff_prover]
fn build_scope<F: Fn(&LayoutRequest) -> Result<(Canvas, Vec<Placed>), Oversize>>(
    parents: &Vec<Option<usize>>,
    scope: Option<usize>,
    scope_edges: &Vec<(Option<usize>, Vec<(Item, Item, usize)>)>,
    direct_nodes: &Vec<(Option<usize>, Vec<usize>)>,
    keep: &[bool],
    layout: &F,
    Ghost(fuel): Ghost<nat>,
) -> (r: Result<Scene, Oversize>)
    requires
        keep@.len() == parents@.len(),
        groups_nested(parents@),
        scope matches Some(g) ==> g < parents@.len(),
        fuel >= depth_room(parents@, scope),
        layout_engine(*layout),
    ensures
        r matches Ok(sc) ==> scene_ok(sc) && keys_of(sc.bounds@) == scene_items(parents@, direct_nodes@, keep@, scope, fuel)
            && (scope_items(parents@, direct_nodes@, keep@, scope).len() > 0 ==> edges_within(
            scope_edges@,
            scope_items(parents@, direct_nodes@, keep@, scope),
            scope,
        )),
        scope_items(parents@, direct_nodes@, keep@, scope).len() == 0 ==> (r matches Ok(sc) && sc.canvas.w == 1
            && sc.canvas.h == 1 && sc.bounds@.len() == 0),
        scope_items(parents@, direct_nodes@, keep@, scope).len() > 0 && !edges_within(
            scope_edges@,
            scope_items(parents@, direct_nodes@, keep@, scope),
            scope,
        ) ==> r is Err,
    decreases fuel,
{
    let ghost items_s = scope_items(parents@, direct_nodes@, keep@, scope);
    let plen = parents.len();
    assert(parents@.len() == plen);
    let items = collect_items(parents, scope, direct_nodes, keep);
    if items.len() == 0 {
        let canvas = Canvas::new(1, 1);
        proof {
            assert(scene_items(parents@, direct_nodes@, keep@, scope, fuel) =~= Seq::<Item>::empty());
            assert(keys_of(Seq::<(Item, Placed)>::empty()) =~= Seq::<Item>::empty());
        }
        return Ok(Scene { canvas, bounds: Vec::new() });
    }
    let mut frames: Vec<Option<Canvas>> = Vec::new();
    let mut sizes: Vec<(usize, usize)> = Vec::new();
    let mut children: Vec<Vec<(Item, Placed)>> = Vec::new();
    let mut k: usize = 0;
    while k < items.len()
        invariant
            keep@.len() == parents@.len(),
            parents@.len() <= usize::MAX,
            groups_nested(parents@),
            scope matches Some(g) ==> g < parents@.len(),
            fuel >= depth_room(parents@, scope),
            layout_engine(*layout),
            items@ == items_s,
            items_s == scope_items(parents@, direct_nodes@, keep@, scope),
            k <= items@.len(),
            frames@.len() == k,
            sizes@.len() == k,
            children@.len() == k,
            forall|t: int| 0 <= t < k ==> match #[trigger] items@[t] {
                Item::Node(_) => frames@[t] is None && children@[t]@.len() == 0,
                Item::Group(g) => {
                    &&& fuel >= 1
                    &&& frames@[t] matches Some(c) && c.w == sizes@[t].0 && c.h == sizes@[t].1
                    &&& sizes@[t].0 <= 60004 && sizes@[t].1 <= 60004
                    &&& keys_of(children@[t]@) == scene_items(parents@, direct_nodes@, keep@, Some(g), (fuel - 1) as nat)
                    &&& forall|i: int| 0 <= i < children@[t]@.len() ==> {
                        let rr = (#[trigger] children@[t]@[i]).1;
                        &&& rr.x + rr.w <= sizes@[t].0
                        &&& rr.y + rr.h <= sizes@[t].1
                        &&& rr.x <= rr.cx < rr.x + rr.w
                        &&& rr.y <= rr.cy < rr.y + rr.h
                    }
                },
            },
        decreases items@.len() - k,
    {
        match items[k] {
            Item::Node(_) => {
                frames.push(None);
                sizes.push((0, 0));
                children.push(Vec::new());
            },
            Item::Group(g) => {
                proof {
                    assert(items_s[k as int] == Item::Group(g));
                    let ns = scope_nodes(direct_nodes@, scope).map_values(|n: usize| Item::Node(n));
                    assert(items_s == ns + child_groups(parents@, keep@, scope, parents@.len() as int));
                    lemma_child_group(parents@, keep@, scope, parents@.len() as int, k - ns.len());
                    assert(parents@[g as int] == scope);
                    assert(fuel >= 1);
                }
                let built = build_scope(parents, Some(g), scope_edges, direct_nodes, keep, layout, Ghost((fuel - 1) as nat));
                let mut child = match built {
                    Ok(sc) => sc,
                    Err(e) => return Err(e),
                };
                proof {
                    assert((child.canvas.w + 4) * (child.canvas.h + 4) <= 0xffff_ffff) by (nonlinear_arith)
                        requires
                            child.canvas.w <= 60000,
                            child.canvas.h <= 60000,
                    ;
                }
                let ghost before_pad = child.bounds@;
                pad(&mut child);
                proof {
                    assert(keys_of(child.bounds@) =~= keys_of(before_pad));
                }
                let Scene { canvas, bounds } = child;
                sizes.push((canvas.w, canvas.h));
                children.push(bounds);
                frames.push(Some(canvas));
            },
        }
        k = k + 1;
    }
    let sedges = find_scope_edges(scope_edges, scope);
    let mut edges: Vec<(usize, usize, usize)> = Vec::new();
    let mut j: usize = 0;
    while j < sedges.len()
        invariant
            j <= sedges@.len(),
            items@ == items_s,
            items_s.len() > 0,
            items_s == scope_items(parents@, direct_nodes@, keep@, scope),
            sedges@ == scope_edges_of(scope_edges@, scope),
            forall|t: int| 0 <= t < j ==> items_s.contains((#[trigger] sedges@[t]).0) && items_s.contains(sedges@[t].1),
        decreases sedges@.len() - j,
    {
        let (from, to, index) = sedges[j];
        let f = match position_of(&items, from) {
            Some(p) => p,
            None => return Err(Oversize::Cells),
        };
        let t = match position_of(&items, to) {
            Some(p) => p,
            None => return Err(Oversize::Cells),
        };
        edges.push((f, t, index));
        j = j + 1;
    }
    let req = LayoutRequest { items, edges, frames };
    let laid = layout(&req);
    let (canvas, placed) = match laid {
        Ok(out) => out,
        Err(e) => return Err(e),
    };
    let mut bounds: Vec<(Item, Placed)> = Vec::new();
    let mut k: usize = 0;
    assert(items_s.take(0) =~= Seq::<Item>::empty());
    while k < req.items.len()
        invariant
            layout_ok(req, Ok((canvas, placed))),
            req.items@ == items_s,
            sizes@.len() == items_s.len(),
            children@.len() == items_s.len(),
            req.frames@.len() == items_s.len(),
            k <= items_s.len(),
            forall|t: int| 0 <= t < items_s.len() ==> match #[trigger] items_s[t] {
                Item::Node(_) => req.frames@[t] is None && children@[t]@.len() == 0,
                Item::Group(g) => {
                    &&& fuel >= 1
                    &&& req.frames@[t] matches Some(c) && c.w == sizes@[t].0 && c.h == sizes@[t].1
                    &&& keys_of(children@[t]@) == scene_items(parents@, direct_nodes@, keep@, Some(g), (fuel - 1) as nat)
                    &&& forall|i: int| 0 <= i < children@[t]@.len() ==> {
                        let rr = (#[trigger] children@[t]@[i]).1;
                        &&& rr.x + rr.w <= sizes@[t].0
                        &&& rr.y + rr.h <= sizes@[t].1
                        &&& rr.x <= rr.cx < rr.x + rr.w
                        &&& rr.y <= rr.cy < rr.y + rr.h
                    }
                },
            },
            keys_of(bounds@) == items_scenes(parents@, direct_nodes@, keep@, items_s.take(k as int), fuel),
            forall|i: int| 0 <= i < bounds@.len() ==> rect_within(#[trigger] bounds@[i].1, canvas.w as int, canvas.h as int),
        decreases items_s.len() - k,
    {
        let position = placed[k];
        let item = req.items[k];
        let ghost base = keys_of(bounds@);
        proof {
            assert(items_s.take(k + 1).drop_last() =~= items_s.take(k as int));
            assert(items_s.take(k + 1).last() == item);
            assert(rect_within(placed@[k as int], canvas.w as int, canvas.h as int));
        }
        match item {
            Item::Group(g) => {
                let (cw, chh) = sizes[k];
                let ox = position.x + 1 + (position.w - 2 - cw) / 2;
                let oy = position.y + 1 + (position.h - 2 - chh) / 2;
                let kids = &children[k];
                let mut t: usize = 0;
                while t < kids.len()
                    invariant
                        t <= kids@.len(),
                        kids@ == children@[k as int]@,
                        canvas_wf(canvas),
                        ox + cw <= canvas.w,
                        oy + chh <= canvas.h,
                        forall|i: int| 0 <= i < kids@.len() ==> {
                            let rr = (#[trigger] kids@[i]).1;
                            &&& rr.x + rr.w <= cw
                            &&& rr.y + rr.h <= chh
                            &&& rr.x <= rr.cx < rr.x + rr.w
                            &&& rr.y <= rr.cy < rr.y + rr.h
                        },
                        keys_of(bounds@) == base + keys_of(kids@.take(t as int)),
                        forall|i: int| 0 <= i < bounds@.len() ==> rect_within(#[trigger] bounds@[i].1, canvas.w as int, canvas.h as int),
                    decreases kids@.len() - t,
                {
                    let (d, rect) = kids[t];
                    let mut rr = rect;
                    translate(&mut rr, ox, oy);
                    let ghost b0 = bounds@;
                    bounds.push((d, rr));
                    proof {
                        assert(keys_of(kids@.take(t + 1)) =~= keys_of(kids@.take(t as int)).push(d));
                        assert(keys_of(bounds@) =~= keys_of(b0).push(d));
                    }
                    t = t + 1;
                }
                proof {
                    assert(kids@.take(kids@.len() as int) =~= kids@);
                }
            },
            Item::Node(_) => {},
        }
        let ghost b1 = bounds@;
        bounds.push((item, position));
        proof {
            assert(keys_of(bounds@) =~= keys_of(b1).push(item));
        }
        k = k + 1;
    }
    proof {
        assert(items_s.take(items_s.len() as int) =~= items_s);
    }
    Ok(Scene { canvas, bounds })
}

proof fn lemma_child_group(parents: Seq<Option<usize>>, keep: Seq<bool>, scope: Option<usize>, k: int, i: int)
    requires
        0 <= i < child_groups(parents, keep, scope, k).len(),
        0 <= k <= parents.len(),
        parents.len() <= usize::MAX,
        keep.len() == parents.len(),
    ensures
        child_groups(parents, keep, scope, k)[i] matches Item::Group(g) && 0 <= g < k && parents[g as int] == scope,
    decreases k,
{
    if k > 0 {
        let rest = child_groups(parents, keep, scope, k - 1);
        if i < rest.len() {
            lemma_child_group(parents, keep, scope, k - 1, i);
        } else {
            assert(parents[k - 1] == scope && keep[k - 1]);
            assert(child_groups(parents, keep, scope, k)[i] == Item::Group((k - 1) as usize));
        }
    }
}

/// The scene of `scope` (`None` for the whole diagram): its items are its own nodes
/// (`direct_nodes`) and its kept child groups (`keep`, with each group's parent in
/// `parents`); none gives an empty one-cell scene. Each child group's scene is built and
/// padded, the scope's edges (`scope_edges`, by diagram-edge index) are joined to item
/// positions, and `layout` places the items, a group as a frame holding its scene; the boxes
/// of each child scene are then moved into the middle of its frame. An edge whose end is no
/// item of its scope gives an error, as does a failing layout.
pub fn build<F: Fn(&LayoutRequest) -> Result<(Canvas, Vec<Placed>), Oversize>>(
    parents: &Vec<Option<usize>>,
    scope: Option<usize>,
    scope_edges: &Vec<(Option<usize>, Vec<(Item, Item, usize)>)>,
    direct_nodes: &Vec<(Option<usize>, Vec<usize>)>,
    keep: &[bool],
    layout: &F,
) -> (r: Result<Scene, Oversize>)
    requires
        keep@.len() == parents@.len(),
        groups_nested(parents@),
        scope matches Some(g) ==> g < parents@.len(),
        layout_engine(*layout),
    ensures
        r matches Ok(sc) ==> scene_ok(sc) && keys_of(sc.bounds@) == scene_items(
            parents@,
            direct_nodes@,
            keep@,
            scope,
            depth_room(parents@, scope),
        ) && (scope_items(parents@, direct_nodes@, keep@, scope).len() > 0 ==> edges_within(
            scope_edges@,
            scope_items(parents@, direct_nodes@, keep@, scope),
            scope,
        )),
        scope_items(parents@, direct_nodes@, keep@, scope).len() == 0 ==> (r matches Ok(sc) && sc.canvas.w == 1
            && sc.canvas.h == 1 && sc.bounds@.len() == 0),
        scope_items(parents@, direct_nodes@, keep@, scope).len() > 0 && !edges_within(
            scope_edges@,
            scope_items(parents@, direct_nodes@, keep@, scope),
            scope,
        ) ==> r is Err,
{
    build_scope(parents, scope, scope_edges, direct_nodes, keep, layout, Ghost(depth_room(parents@, scope)))
}

} // verus!
