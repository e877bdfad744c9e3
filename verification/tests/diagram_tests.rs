use codex_grok::diagram::effective_width;
use codex_grok::diagram::shown_lines;
use codex_grok::diagram::source_within_bounds;
use codex_grok::diagram::DiagramArt;

fn art(lines: &[&str]) -> DiagramArt {
    DiagramArt {
        is_fallback: false,
        plain_lines: lines.iter().map(|l| l.to_string()).collect(),
        styled_line_count: lines.len(),
    }
}

#[test]
fn source_bounds_count_bytes_lines_and_controls() {
    assert!(source_within_bounds("graph TD\n  A --> B\r\n\tC"));
    assert!(!source_within_bounds("graph TD\u{7}"));
    assert!(!source_within_bounds(&"x".repeat(16 * 1024 + 1)));
    assert!(source_within_bounds(&"x".repeat(16 * 1024)));
    assert!(source_within_bounds(&"a\n".repeat(512)));
    assert!(!source_within_bounds(&"a\n".repeat(513)));
    assert!(!source_within_bounds(&"é".repeat(8193)));
}

#[test]
fn width_defaults_and_is_capped() {
    assert_eq!(effective_width(None), 120);
    assert_eq!(effective_width(Some(80)), 80);
    assert_eq!(effective_width(Some(500)), 240);
}

#[test]
fn blank_edges_are_dropped_and_unfit_art_is_refused() {
    assert_eq!(shown_lines(&art(&["", " ", "ab", "", "cd", "  "]), 10), Some((2, 4)));
    assert_eq!(shown_lines(&art(&["", "  "]), 10), None);
    assert_eq!(shown_lines(&art(&["abcdef"]), 5), None);
    assert_eq!(shown_lines(&art(&["a\u{1b}b"]), 5), None);
    let mut fallback = art(&["ab"]);
    fallback.is_fallback = true;
    assert_eq!(shown_lines(&fallback, 10), None);
    let mut tall = art(&["ab"]);
    tall.styled_line_count = 257;
    assert_eq!(shown_lines(&tall, 10), None);
}
