use codex_grok::frames::build;
use codex_grok::frames::LayoutRequest;
use codex_grok::grouped::Canvas;
use codex_grok::grouped::Item;
use codex_grok::grouped::Placed;
use codex_grok::paint::Oversize;

/// Places the items left to right on one row: a node as a 3 by 3 box, a frame one cell wider
/// than its scene on every side.
fn row_layout(req: &LayoutRequest) -> Result<(Canvas, Vec<Placed>), Oversize> {
    let mut x = 0;
    let mut height = 1;
    let mut placed = Vec::new();
    for frame in &req.frames {
        let (w, h) = match frame {
            Some(child) => (child.w + 2, child.h + 2),
            None => (3, 3),
        };
        placed.push(Placed { x, y: 0, w, h, cx: x + w / 2, cy: h / 2, rank: 0 });
        x += w;
        height = height.max(h);
    }
    Ok((Canvas::new(x.max(1), height), placed))
}

#[test]
fn a_group_scene_is_moved_into_its_frame() {
    let parents = vec![None];
    let direct_nodes = vec![(None, vec![0]), (Some(0), vec![1])];
    let scope_edges = vec![(None, vec![(Item::Node(0), Item::Group(0), 0)])];
    let scene = build(&parents, None, &scope_edges, &direct_nodes, &[true], &row_layout).unwrap();
    let keys: Vec<Item> = scene.bounds.iter().map(|(item, _)| *item).collect();
    assert_eq!(keys, vec![Item::Node(0), Item::Node(1), Item::Group(0)]);
    let inner = scene.bounds[1].1;
    let frame = scene.bounds[2].1;
    assert!(inner.x > frame.x && inner.x + inner.w < frame.x + frame.w);
    assert!(inner.y > frame.y && inner.y + inner.h < frame.y + frame.h);
    // The child scene is the 3 by 3 node padded by two cells: 7 by 7, in a 9 by 9 frame.
    assert_eq!((frame.w, frame.h), (9, 9));
    assert_eq!((inner.x, inner.y), (3 + 1 + 2, 1 + 2));
}

#[test]
fn an_empty_scope_is_a_blank_cell() {
    let parents = vec![None];
    let scene = build(&parents, Some(0), &Vec::new(), &Vec::new(), &[true], &row_layout).unwrap();
    assert_eq!((scene.canvas.w, scene.canvas.h), (1, 1));
    assert!(scene.bounds.is_empty());
}

#[test]
fn dropped_groups_have_no_frame_and_edges_must_stay_in_scope() {
    let parents = vec![None];
    let direct_nodes = vec![(None, vec![0]), (Some(0), vec![1])];
    let scene = build(&parents, None, &Vec::new(), &direct_nodes, &[false], &row_layout).unwrap();
    assert_eq!(scene.bounds.len(), 1);
    let scope_edges = vec![(None, vec![(Item::Node(0), Item::Node(5), 0)])];
    assert!(matches!(
        build(&parents, None, &scope_edges, &direct_nodes, &[true], &row_layout),
        Err(Oversize::Cells)
    ));
}
