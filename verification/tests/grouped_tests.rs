use codex_grok::grouped::contains;
use codex_grok::grouped::direction;
use codex_grok::grouped::ports;
use codex_grok::grouped::route;
use codex_grok::grouped::translate;
use codex_grok::grouped::Canvas;
use codex_grok::grouped::Cls;
use codex_grok::grouped::Item;
use codex_grok::grouped::Placed;
use codex_grok::grouped::Scene;
use codex_grok::grouped::D;
use codex_grok::grouped::L;
use codex_grok::grouped::R;
use codex_grok::grouped::U;

fn placed(x: usize, y: usize, w: usize, h: usize, cx: usize, cy: usize, rank: usize) -> Placed {
    Placed { x, y, w, h, cx, cy, rank }
}

fn framed_scene() -> Scene {
    Scene {
        canvas: Canvas::new(24, 20),
        bounds: vec![
            (Item::Node(0), placed(2, 4, 3, 3, 3, 5, 0)),
            (Item::Group(0), placed(5, 5, 16, 12, 13, 11, 1)),
            (Item::Node(1), placed(12, 7, 3, 3, 13, 8, 0)),
        ],
    }
}

#[test]
fn grouped_routes_cross_frame_borders_perpendicularly() {
    let scene = framed_scene();
    let path = route(&scene, Item::Node(0), Item::Node(1), &mut 100_000).unwrap();
    for step in path.windows(2) {
        let (x0, y0) = (step[0] % 24, step[0] / 24);
        let (x1, y1) = (step[1] % 24, step[1] / 24);
        assert!(
            !(y0 == y1 && [5, 16].contains(&y0) && (5..21).contains(&x0) && (5..21).contains(&x1)),
            "horizontal path follows frame border: {path:?}"
        );
        assert!(
            !(x0 == x1 && [5, 20].contains(&x0) && (5..17).contains(&y0) && (5..17).contains(&y1)),
            "vertical path follows frame border: {path:?}"
        );
    }
}

#[test]
fn routes_step_between_neighbouring_free_cells() {
    let scene = framed_scene();
    let path = route(&scene, Item::Node(0), Item::Node(1), &mut 100_000).unwrap();
    assert!(path.len() >= 3);
    for step in path.windows(2) {
        let (a, b) = (step[0] as i64, step[1] as i64);
        assert!(matches!(b - a, 1 | -1 | 24 | -24), "not a neighbour step: {path:?}");
    }
    for &cell in &path {
        let (x, y) = (cell % 24, cell / 24);
        assert!(!(2..5).contains(&x) || !(4..7).contains(&y), "enters the source box");
        assert!(!(12..15).contains(&x) || !(7..10).contains(&y), "enters the target box");
    }
}

#[test]
fn facing_ports_give_a_two_cell_route() {
    let scene = Scene {
        canvas: Canvas::new(20, 9),
        bounds: vec![
            (Item::Node(0), placed(2, 3, 3, 3, 3, 4, 0)),
            (Item::Node(1), placed(7, 3, 3, 3, 8, 4, 0)),
        ],
    };
    let right_of_a = 4 * 20 + 5;
    let left_of_b = 4 * 20 + 6;
    assert_eq!(route(&scene, Item::Node(0), Item::Node(1), &mut 1000), Some(vec![right_of_a, left_of_b]));
}

#[test]
fn missing_boxes_and_exhausted_budget_give_no_route() {
    let scene = framed_scene();
    assert_eq!(route(&scene, Item::Node(0), Item::Node(7), &mut 1000), None);
    let mut budget = 3;
    assert_eq!(route(&scene, Item::Node(0), Item::Node(1), &mut budget), None);
    assert_eq!(budget, 0);
}

#[test]
fn walled_in_target_cannot_be_reached() {
    let mut scene = Scene {
        canvas: Canvas::new(12, 12),
        bounds: vec![
            (Item::Node(0), placed(2, 2, 2, 2, 2, 2, 0)),
            (Item::Node(1), placed(7, 7, 2, 2, 8, 8, 0)),
        ],
    };
    for y in 5..12 {
        for x in 5..12 {
            let inside = (6..10).contains(&x) && (6..10).contains(&y);
            if !inside {
                scene.canvas.cls[y * 12 + x] = Cls::Text;
            }
        }
    }
    assert_eq!(route(&scene, Item::Node(0), Item::Node(1), &mut 100_000), None);
}

#[test]
fn geometry_helpers() {
    let mut rect = placed(1, 2, 3, 4, 2, 3, 0);
    translate(&mut rect, 2, 2);
    assert_eq!(rect, placed(3, 4, 3, 4, 4, 5, 0));
    assert!(contains(&rect, 3, 4) && contains(&rect, 5, 7));
    assert!(!contains(&rect, 6, 4) && !contains(&rect, 3, 8));
    let p = ports(&rect, 10, 12);
    assert_eq!(p[0], (5 * 10 + 7, 5 * 10 + 6));
    assert_eq!(p[1], (9 * 10 + 4, 8 * 10 + 4));
    assert_eq!(p[2], (5 * 10 + 1, 5 * 10 + 2));
    assert_eq!(p[3], (2 * 10 + 4, 3 * 10 + 4));
    assert_eq!(direction(11, 12, 10), (R, '▶'));
    assert_eq!(direction(12, 11, 10), (L, '◄'));
    assert_eq!(direction(5, 15, 10), (D, '▼'));
    assert_eq!(direction(15, 5, 10), (U, '▲'));
}

#[test]
fn pad_adds_a_blank_margin_and_moves_every_box() {
    let mut inner = Canvas::new(3, 2);
    inner.ch[0] = '┌';
    inner.cls[0] = Cls::Border;
    inner.occupied[4] = true;
    inner.mask[5] = 3;
    let mut scene = Scene {
        canvas: inner,
        bounds: vec![(Item::Node(4), placed(0, 0, 3, 2, 1, 1, 0))],
    };
    codex_grok::grouped::pad(&mut scene);
    assert_eq!((scene.canvas.w, scene.canvas.h), (7, 6));
    assert_eq!(scene.bounds, vec![(Item::Node(4), placed(2, 2, 3, 2, 3, 3, 0))]);
    let at = |x: usize, y: usize| y * 7 + x;
    assert_eq!(scene.canvas.ch[at(2, 2)], '┌');
    assert_eq!(scene.canvas.cls[at(2, 2)], Cls::Border);
    assert!(scene.canvas.occupied[at(3, 3)]);
    assert_eq!(scene.canvas.mask[at(4, 3)], 3);
    assert_eq!(scene.canvas.ch[at(0, 0)], ' ');
    assert_eq!(scene.canvas.cls[at(6, 5)], Cls::Space);
    assert_eq!(scene.canvas.ch.iter().filter(|&&c| c != ' ').count(), 1);
}

#[test]
fn a_budget_covering_the_whole_search_always_finds_the_route() {
    let scene = framed_scene();
    let bound = 4 * 24 * 20 + 4;
    let mut budget = bound;
    assert!(route(&scene, Item::Node(0), Item::Node(1), &mut budget).is_some());
    assert!(budget < bound);
}

#[test]
fn facing_ports_and_missing_boxes_spend_no_budget() {
    let scene = Scene {
        canvas: Canvas::new(20, 9),
        bounds: vec![
            (Item::Node(0), placed(2, 3, 3, 3, 3, 4, 0)),
            (Item::Node(1), placed(7, 3, 3, 3, 8, 4, 0)),
        ],
    };
    let mut budget = 7;
    assert!(route(&scene, Item::Node(0), Item::Node(1), &mut budget).is_some());
    assert_eq!(budget, 7);
    assert_eq!(route(&scene, Item::Node(0), Item::Node(9), &mut budget), None);
    assert_eq!(budget, 7);
}

#[test]
fn a_search_spends_the_same_count_whatever_the_budget_and_fails_just_below_it() {
    let scene = framed_scene();
    let mut budget = usize::MAX;
    let path = route(&scene, Item::Node(0), Item::Node(1), &mut budget).unwrap();
    let spent = usize::MAX - budget;
    assert!(spent > 0);
    let mut exact = spent;
    assert_eq!(route(&scene, Item::Node(0), Item::Node(1), &mut exact), Some(path));
    assert_eq!(exact, 0);
    let mut short = spent - 1;
    assert_eq!(route(&scene, Item::Node(0), Item::Node(1), &mut short), None);
    assert_eq!(short, 0);
}
