use codex_grok::gantt::Chart;
use codex_grok::timeline::render;

const RELEASE_SCHEDULE: &str = "gantt
    title Example release schedule
    dateFormat YYYY-MM-DD
    axisFormat %b %d
    section Design
    Requirements :a1, 2026-09-09, 2d
    Mockups :a2, after a1, 3d
    section Development
    API :b1, after a1, 5d
    Interface :b2, after a2, 4d
    section Release
    Integration testing :c1, after b1 b2, 2d
    Launch :milestone, after c1, 0d";

fn stamp(t: i64) -> String {
    chrono::DateTime::from_timestamp(t, 0)
        .expect("timestamp in range")
        .naive_utc()
        .to_string()
}

fn dates(source: &str) -> Vec<(String, String)> {
    let chart = Chart::parse(source).expect("valid schedule");
    chart
        .schedule()
        .expect("resolved dates")
        .into_iter()
        .map(|task| (stamp(task.start), stamp(task.end)))
        .collect()
}

fn owned(pairs: &[(&str, &str)]) -> Vec<(String, String)> {
    pairs
        .iter()
        .map(|(start, end)| (start.to_string(), end.to_string()))
        .collect()
}

fn display_width(text: &str) -> usize {
    unicode_width::UnicodeWidthStr::width(text)
}

#[test]
fn gantt_release_schedule_uses_latest_dependency_end() {
    assert_eq!(
        dates(RELEASE_SCHEDULE),
        owned(&[
            ("2026-09-09 00:00:00", "2026-09-11 00:00:00"),
            ("2026-09-11 00:00:00", "2026-09-14 00:00:00"),
            ("2026-09-11 00:00:00", "2026-09-16 00:00:00"),
            ("2026-09-14 00:00:00", "2026-09-18 00:00:00"),
            ("2026-09-18 00:00:00", "2026-09-20 00:00:00"),
            ("2026-09-20 00:00:00", "2026-09-20 00:00:00"),
        ])
    );
}

#[test]
fn gantt_resolves_forward_references_implicit_starts_and_until_across_leap_day() {
    let source = "gantt
        Forward :later, after start, 1w
        Start :start, 2028-02-28, 2d
        Follow :1d
        Until :2028-02-27, until later";
    assert_eq!(
        dates(source),
        owned(&[
            ("2028-03-01 00:00:00", "2028-03-08 00:00:00"),
            ("2028-02-28 00:00:00", "2028-03-01 00:00:00"),
            ("2028-03-01 00:00:00", "2028-03-02 00:00:00"),
            ("2028-02-27 00:00:00", "2028-03-01 00:00:00"),
        ])
    );
}

#[test]
fn gantt_renders_statuses_unicode_and_milestone_midpoints_within_width() {
    let source = "gantt
        axisFormat %m-%d
        section Release
        設計 :done, a, 2026-09-09, 2d
        Build :active, crit, after a, 4d
        Midpoint :milestone, 2026-09-09, 6d";
    let output = render(source, 64).expect("rendered schedule");
    assert!(output.iter().all(|line| display_width(&line.text) <= 64));
    assert!(output.iter().any(|line| line.text.contains("設計")));
    assert!(
        render(source, 24).is_none(),
        "preserve source when labels and axis cannot fit"
    );
}

#[test]
fn gantt_preserves_source_for_unresolvable_or_unsupported_schedules() {
    for source in [
        "gantt\nA :a, after b, 1d\nB :b, after a, 1d",
        "gantt\nA :a, after missing, 1d",
        "gantt\nA :a, 2026-09-09, 1d\nB :a, after a, 1d",
        "gantt\nA :2026-02-30, 1d",
        "gantt\nA :2026-09-09, 2026-09-08",
        "gantt\nA :1d",
        "gantt\nexcludes weekends\nA :2026-09-09, 1d",
        "gantt\ndateFormat DD-MM-YYYY\nA :09-09-2026, 1d",
        "gantt\naxisFormat %Q\nA :2026-09-09, 1d",
        "gantt\naxisFormat %\nA :2026-09-09, 1d",
        "gantt\nA :2026-09-09, 1M",
        "gantt\nA :2026-09-09, 999999999999999999999999d",
        "gantt\nA :2026-09-09, 999999d",
        "gantt\nA :2026-09-09, until missing",
        "gantt\nsection Empty",
    ] {
        assert!(
            render(source, 100).is_none(),
            "unexpected rendering: {source}"
        );
    }
}

#[test]
fn gantt_cycle_has_no_schedule() {
    let chart = Chart::parse("gantt\nA :a, after b, 1d\nB :b, after a, 1d").expect("parses");
    assert!(chart.schedule().is_none());
}

#[test]
fn gantt_tasks_end_no_earlier_than_they_start() {
    for task in Chart::parse(RELEASE_SCHEDULE)
        .expect("valid")
        .schedule()
        .expect("resolved")
    {
        assert!(task.start <= task.end);
    }
}

#[test]
fn gantt_render_draws_every_task_label() {
    let output = render(RELEASE_SCHEDULE, 100).expect("rendered");
    for label in ["Requirements", "Mockups", "API", "Interface", "Integration testing", "Launch"] {
        assert!(output.iter().any(|line| line.text.contains(label)), "missing {label}");
    }
    assert!(output.iter().all(|line| display_width(&line.text) <= 100));
}
