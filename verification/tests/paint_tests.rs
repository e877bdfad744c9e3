use codex_grok::grouped::Canvas;
use codex_grok::grouped::Cls;
use codex_grok::grouped::LineKind;
use codex_grok::paint::paint;
use codex_grok::paint::Edge;
use codex_grok::paint::Head;
use codex_grok::paint::Oversize;

fn edge(label: Option<&str>, head_to: Head) -> Edge {
    Edge {
        from: 0,
        to: 1,
        label: label.map(str::to_string),
        head_to,
        head_from: Head::Absent,
        line: LineKind::Dotted,
    }
}

#[test]
fn lines_clear_their_cells_and_record_directions_and_heads_claim_theirs() {
    let mut canvas = Canvas::new(20, 5);
    canvas.ch[42] = '│';
    let result = paint(&mut canvas, &[41, 42, 43], &edge(None, Head::Arrow), 10);
    assert_eq!(result, Ok(()));
    assert_eq!(canvas.mask[41], 2);
    assert_eq!(canvas.mask[42], 12 | 3);
    assert_eq!(canvas.ch[42], ' ');
    assert_eq!(canvas.cls[42], Cls::Edge);
    assert_eq!(canvas.ch[43], '▶');
    assert!(canvas.occupied[43]);
    assert!(!canvas.occupied[41]);
    assert_eq!(canvas.line, LineKind::Dotted);
}

#[test]
fn a_label_goes_right_of_the_last_cell_where_it_fits() {
    let mut canvas = Canvas::new(20, 5);
    let result = paint(&mut canvas, &[41, 42, 43], &edge(Some("ab"), Head::Arrow), 10);
    assert_eq!(result, Ok(()));
    assert_eq!(canvas.ch[44], 'a');
    assert_eq!(canvas.ch[45], 'b');
    assert_eq!(canvas.cls[44], Cls::EdgeLabel);
    assert_eq!(canvas.cls[45], Cls::EdgeLabel);
}

#[test]
fn a_label_goes_above_a_cell_when_the_right_is_taken() {
    let mut canvas = Canvas::new(6, 5);
    // The route runs down column 5, so nothing fits to its right.
    let result = paint(&mut canvas, &[11, 17, 23], &edge(Some("ab"), Head::Absent), 10);
    assert_eq!(result, Err(Oversize::Cells));
    let mut canvas = Canvas::new(8, 5);
    canvas.occupied[12] = true;
    let result = paint(&mut canvas, &[9, 10, 11], &edge(Some("ab"), Head::Absent), 10);
    assert_eq!(result, Ok(()));
    assert_eq!(canvas.ch[3], 'a');
    assert_eq!(canvas.ch[4], 'b');
}

#[test]
fn edge_labels_are_never_silently_dropped() {
    let mut canvas = Canvas::new(20, 5);
    let long = "a label that cannot fit within the supported width";
    let result = paint(&mut canvas, &[41, 42, 43], &edge(Some(long), Head::Arrow), 100);
    assert_eq!(result, Err(Oversize::Cells));
    let mut canvas = Canvas::new(120, 5);
    let result = paint(&mut canvas, &[121, 122, 123], &edge(Some(long), Head::Arrow), 40);
    assert_eq!(result, Err(Oversize::Cells));
    assert_eq!(canvas.ch[123], '▶');
}
