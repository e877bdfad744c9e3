//! Drawing a resolved Gantt chart as terminal lines: a date axis, a rule, section headers and
//! one bar per task scaled to the available columns.

use vstd::prelude::*;

use crate::calendar::chrono_format;
use crate::calendar::display_width;
use crate::calendar::format_timestamp;
use crate::calendar::text_width;
use crate::calendar::textwrap_lines;
use crate::calendar::timestamp_bound;
use crate::calendar::wrap_text;
use crate::gantt::Chart;
use crate::gantt::ChartModel;
use crate::gantt::GanttTask;
use crate::gantt::opt_chars;
use crate::gantt::Schedule;
use crate::gantt::TaskModel;
use crate::gantt::parse_chart;
use crate::gantt::lemma_parsed_axis_ok;
use crate::gantt::axis_format_ok;
use crate::gantt::task_views;
use crate::schedule::chart_schedule;
use crate::schedule::law_dependency_cycle_has_no_schedule;
use crate::schedule::needs;
use crate::schedule::resolve_spec;
use crate::schedule::sched_pair;
use crate::schedule::schedule_bounded;
use crate::text::chars_eq;
use crate::text::chars_to_string;
use crate::text::trim_end;
use crate::text::trim_end_chars;
use crate::text::views_of;

verus! {

/// How a rendered line is styled.
#[derive(Clone, Copy, Debug, PartialEq, Eq, Structural)]
pub enum LineStyle {
    Plain,
    Bold,
    Dim,
}

/// One rendered line.
pub struct GanttLine {
    pub text: String,
    pub style: LineStyle,
}

/// A rendered line as the spec sees it.
pub struct LineModel {
    pub text: Seq<char>,
    pub style: LineStyle,
}

impl View for GanttLine {
    type V = LineModel;

    open spec fn view(&self) -> LineModel {
        LineModel { text: self.text@, style: self.style }
    }
}

pub open spec fn line_views(lines: Seq<GanttLine>) -> Seq<LineModel> {
    Seq::new(lines.len(), |i: int| lines[i]@)
}

// ---------------------------------------------------------------------------
// Layout spec
// ---------------------------------------------------------------------------

/// Earliest start of a non-empty schedule.
pub open spec fn min_start(s: Seq<(int, int)>) -> int
    decreases s.len(),
{
    if s.len() <= 1 {
        s[0].0
    } else {
        let m = min_start(s.drop_last());
        if s.last().0 < m {
            s.last().0
        } else {
            m
        }
    }
}

/// Latest end of a non-empty schedule.
pub open spec fn max_end(s: Seq<(int, int)>) -> int
    decreases s.len(),
{
    if s.len() <= 1 {
        s[0].1
    } else {
        let m = max_end(s.drop_last());
        if s.last().1 > m {
            s.last().1
        } else {
            m
        }
    }
}

/// Widest task label of a non-empty task list.
pub open spec fn max_label_width(tasks: Seq<TaskModel>) -> int
    decreases tasks.len(),
{
    if tasks.len() <= 1 {
        display_width(tasks[0].label)
    } else {
        let m = max_label_width(tasks.drop_last());
        if display_width(tasks.last().label) > m {
            display_width(tasks.last().label)
        } else {
            m
        }
    }
}

pub open spec fn repeat_char(c: char, n: int) -> Seq<char> {
    Seq::new(n as nat, |_i: int| c)
}

/// Column of a timestamp on a bar of `columns` cells spanning `seconds` from `first`.
pub open spec fn bar_position(d: int, first: int, columns: int, seconds: int) -> int {
    ((d - first) * (columns - 1)) / seconds
}

/// The cells of a task bar: a diamond at the midpoint of a milestone, a tick for a task that
/// starts and ends in the same cell, otherwise a run of heavy line from start to end.
pub open spec fn bar_cells(columns: int, first: int, seconds: int, s: (int, int), milestone: bool) -> Seq<char> {
    let a = bar_position(s.0, first, columns, seconds);
    let b = bar_position(s.1, first, columns, seconds);
    let m = bar_position(s.0 + (s.1 - s.0) / 2, first, columns, seconds);
    Seq::new(
        columns as nat,
        |x: int|
            if milestone {
                if x == m { '◆' } else { ' ' }
            } else if a == b {
                if x == a { '│' } else { ' ' }
            } else if a <= x < b {
                '━'
            } else {
                ' '
            },
    )
}

/// Scale of one rendering.
pub struct Layout {
    pub label_width: int,
    pub columns: int,
    pub first: int,
    pub seconds: int,
    pub width: int,
}

/// A task line: label padded to the label column, a separator, and the bar without trailing blanks.
pub open spec fn task_text(t: TaskModel, s: (int, int), lay: Layout) -> Seq<char> {
    t.label + repeat_char(' ', lay.label_width - display_width(t.label)) + seq![' ', '│', ' ']
        + trim_end(bar_cells(lay.columns, lay.first, lay.seconds, s, t.milestone))
}

/// Lines for task `k`: its section header when the section changes, then its bar.
pub open spec fn task_chunk(tasks: Seq<TaskModel>, sched: Seq<(int, int)>, k: int, lay: Layout) -> Option<Seq<LineModel>> {
    let prev = if k == 0 { Seq::<char>::empty() } else { tasks[k - 1].section };
    let line = LineModel { text: task_text(tasks[k], sched[k], lay), style: LineStyle::Plain };
    if tasks[k].section != prev {
        if display_width(tasks[k].section) > lay.width {
            None
        } else {
            Some(seq![LineModel { text: tasks[k].section, style: LineStyle::Bold }, line])
        }
    } else {
        Some(seq![line])
    }
}

/// Lines for the first `k` tasks.
pub open spec fn body_lines(tasks: Seq<TaskModel>, sched: Seq<(int, int)>, k: int, lay: Layout) -> Option<Seq<LineModel>>
    decreases k,
{
    if k <= 0 {
        Some(Seq::empty())
    } else {
        match body_lines(tasks, sched, k - 1, lay) {
            None => None,
            Some(p) => match task_chunk(tasks, sched, k - 1, lay) {
                None => None,
                Some(c) => Some(p + c),
            },
        }
    }
}

pub open spec fn bold_lines(lines: Seq<Seq<char>>) -> Seq<LineModel> {
    lines.map_values(|l: Seq<char>| LineModel { text: l, style: LineStyle::Bold })
}

/// The lines of a resolved chart at `width` columns, or `None` when it cannot fit.
pub open spec fn render_chart(c: ChartModel, sched: Seq<(int, int)>, width: int) -> Option<Seq<LineModel>> {
    let first = min_start(sched);
    let last = max_end(sched);
    let seconds = if last - first >= 1 { last - first } else { 1 };
    let lw = max_label_width(c.tasks);
    let cap = if width < 240 { width } else { 240 };
    if seconds > 86400 * 36525 || cap < lw + 3 {
        None
    } else {
        let columns = if cap - (lw + 3) < 80 { cap - (lw + 3) } else { 80 };
        let left = chrono_format(first, c.axis_format);
        let right = chrono_format(last, c.axis_format);
        let dw = display_width(left) + display_width(right);
        if columns < dw + 2 || columns < 12 {
            None
        } else {
            let title = match c.title {
                Some(t) => bold_lines(textwrap_lines(t, width)),
                None => Seq::empty(),
            };
            let axis = LineModel {
                text: repeat_char(' ', lw + 3) + left + repeat_char(' ', columns - dw) + right,
                style: LineStyle::Dim,
            };
            let rule = LineModel {
                text: repeat_char(' ', lw + 3) + seq!['├'] + repeat_char('─', columns - 2) + seq!['┤'],
                style: LineStyle::Dim,
            };
            let lay = Layout { label_width: lw, columns, first, seconds, width };
            match body_lines(c.tasks, sched, c.tasks.len() as int, lay) {
                None => None,
                Some(body) => {
                    let all = title + seq![axis, rule] + body;
                    if all.len() <= 256 {
                        Some(all)
                    } else {
                        None
                    }
                },
            }
        }
    }
}

/// What `render` draws for `source` at `width` columns.
pub open spec fn render_spec(source: Seq<char>, width: int) -> Option<Seq<LineModel>> {
    match parse_chart(source) {
        None => None,
        Some(c) => match chart_schedule(c.tasks) {
            None => None,
            Some(s) => render_chart(c, s, width),
        },
    }
}


/// A task bar covers exactly its dates: a cell is heavy line just when the task is no
/// milestone and the cell lies from the column of its start up to (not including) the column
/// of its end; every cell left of the start column is blank. A milestone is one diamond at
/// the column of its midpoint, and a task that starts and ends in one column is one tick there.
pub proof fn law_task_bar_spans_its_dates(columns: int, first: int, seconds: int, s: (int, int), milestone: bool, x: int)
    requires
        0 <= x < columns,
    ensures
        bar_cells(columns, first, seconds, s, milestone)[x] == '━' <==> (!milestone && bar_position(
            s.0,
            first,
            columns,
            seconds,
        ) <= x < bar_position(s.1, first, columns, seconds)),
        !milestone && x < bar_position(s.0, first, columns, seconds) ==> bar_cells(
            columns,
            first,
            seconds,
            s,
            milestone,
        )[x] == ' ',
        bar_cells(columns, first, seconds, s, milestone)[x] == '◆' <==> (milestone && x == bar_position(
            s.0 + (s.1 - s.0) / 2,
            first,
            columns,
            seconds,
        )),
        bar_cells(columns, first, seconds, s, milestone)[x] == '│' <==> (!milestone && x == bar_position(
            s.0,
            first,
            columns,
            seconds,
        ) && bar_position(s.0, first, columns, seconds) == bar_position(s.1, first, columns, seconds)),
{
}

/// A chart whose tasks depend on one another in a circle is not drawn (its source is kept),
/// whatever the width.
pub proof fn law_cyclic_chart_is_not_drawn(source: Seq<char>, width: int, c: Seq<int>)
    requires
        parse_chart(source) is Some,
        c.len() >= 2,
        c[0] == c.last(),
        forall|j: int| 0 <= j < c.len() - 1 ==> needs(parse_chart(source)->0.tasks, #[trigger] c[j], c[j + 1]),
    ensures
        render_spec(source, width) is None,
{
    law_dependency_cycle_has_no_schedule(parse_chart(source)->0.tasks, c);
}

// ---------------------------------------------------------------------------
// Facts used by the renderer
// ---------------------------------------------------------------------------

proof fn lemma_min_start_le(s: Seq<(int, int)>, i: int)
    requires
        0 <= i < s.len(),
    ensures
        min_start(s) <= s[i].0,
        exists|j: int| 0 <= j < s.len() && min_start(s) == s[j].0,
    decreases s.len(),
{
    if s.len() > 1 {
        if i < s.len() - 1 {
            lemma_min_start_le(s.drop_last(), i);
        } else {
            lemma_min_start_le(s.drop_last(), 0);
        }
        let j = choose|j: int| 0 <= j < s.len() - 1 && min_start(s.drop_last()) == s.drop_last()[j].0;
        if s.last().0 < min_start(s.drop_last()) {
            assert(min_start(s) == s[s.len() - 1].0);
        } else {
            assert(min_start(s) == s[j].0);
        }
    } else {
        assert(min_start(s) == s[0].0);
    }
}

proof fn lemma_max_end_ge(s: Seq<(int, int)>, i: int)
    requires
        0 <= i < s.len(),
    ensures
        max_end(s) >= s[i].1,
        exists|j: int| 0 <= j < s.len() && max_end(s) == s[j].1,
    decreases s.len(),
{
    if s.len() > 1 {
        if i < s.len() - 1 {
            lemma_max_end_ge(s.drop_last(), i);
        } else {
            lemma_max_end_ge(s.drop_last(), 0);
        }
        let j = choose|j: int| 0 <= j < s.len() - 1 && max_end(s.drop_last()) == s.drop_last()[j].1;
        if s.last().1 > max_end(s.drop_last()) {
            assert(max_end(s) == s[s.len() - 1].1);
        } else {
            assert(max_end(s) == s[j].1);
        }
    } else {
        assert(max_end(s) == s[0].1);
    }
}

proof fn lemma_max_label_width_ge(tasks: Seq<TaskModel>, i: int)
    requires
        0 <= i < tasks.len(),
    ensures
        max_label_width(tasks) >= display_width(tasks[i].label),
    decreases tasks.len(),
{
    if tasks.len() > 1 && i < tasks.len() - 1 {
        lemma_max_label_width_ge(tasks.drop_last(), i);
    }
}

pub open spec fn pair_ordered(p: (int, int)) -> bool {
    p.0 <= p.1
}

proof fn lemma_resolved_ordered(tasks: Seq<TaskModel>, i: int, f: nat)
    requires
        resolve_spec(tasks, i, f) is Some,
    ensures
        pair_ordered(resolve_spec(tasks, i, f)->0),
{
}

proof fn lemma_bar_position(d: int, first: int, columns: int, seconds: int)
    requires
        0 <= d - first <= seconds,
        seconds >= 1,
        columns >= 1,
    ensures
        0 <= bar_position(d, first, columns, seconds) < columns,
{
    let num = (d - first) * (columns - 1);
    assert(0 <= num <= seconds * (columns - 1)) by (nonlinear_arith)
        requires
            0 <= d - first <= seconds,
            columns >= 1,
            num == (d - first) * (columns - 1),
    ;
    assert(0 <= num / seconds <= columns - 1) by (nonlinear_arith)
        requires
            0 <= num <= seconds * (columns - 1),
            seconds >= 1,
    ;
}

// ---------------------------------------------------------------------------
// Rendering: implementation
// ---------------------------------------------------------------------------

fn push_repeat(v: &mut Vec<char>, c: char, n: usize)
    ensures
        final(v)@ == old(v)@ + repeat_char(c, n as int),
{
    let ghost start = v@;
    let mut i: usize = 0;
    while i < n
        invariant
            i <= n,
            v@ == start + repeat_char(c, i as int),
        decreases n - i,
    {
        v.push(c);
        i += 1;
        assert(v@ =~= start + repeat_char(c, i as int));
    }
}

fn position(d: i64, first: i64, columns: usize, seconds: i64) -> (r: usize)
    requires
        0 <= d - first <= seconds,
        1 <= seconds <= 86400 * 36525,
        1 <= columns <= 80,
    ensures
        r as int == bar_position(d as int, first as int, columns as int, seconds as int),
        r < columns,
{
    proof { lemma_bar_position(d as int, first as int, columns as int, seconds as int); }
    let offset = (d - first) as u64;
    assert(offset as int * (columns as int - 1) <= 86400 * 36525 * 79) by (nonlinear_arith)
        requires
            offset <= 86400 * 36525,
            1 <= columns <= 80,
    ;
    let num: u64 = offset * ((columns - 1) as u64);
    (num / (seconds as u64)) as usize
}

fn bar_text(columns: usize, first: i64, seconds: i64, s: Schedule, milestone: bool) -> (r: Vec<char>)
    requires
        12 <= columns <= 80,
        1 <= seconds <= 86400 * 36525,
        first <= s.start <= s.end,
        s.end - first <= seconds,
    ensures
        r@ == bar_cells(columns as int, first as int, seconds as int, sched_pair(s), milestone),
{
    let a = position(s.start, first, columns, seconds);
    let b = position(s.end, first, columns, seconds);
    let mid_time = s.start + (s.end - s.start) / 2;
    assert(mid_time as int == s.start as int + (s.end as int - s.start as int) / 2);
    let m = position(mid_time, first, columns, seconds);
    let mut cells: Vec<char> = Vec::new();
    let mut x: usize = 0;
    while x < columns
        invariant
            x <= columns,
            a as int == bar_position(s.start as int, first as int, columns as int, seconds as int),
            b as int == bar_position(s.end as int, first as int, columns as int, seconds as int),
            m as int == bar_position(s.start as int + (s.end as int - s.start as int) / 2, first as int, columns as int, seconds as int),
            cells@ == bar_cells(columns as int, first as int, seconds as int, sched_pair(s), milestone).take(x as int),
        decreases columns - x,
    {
        let c = if milestone {
            if x == m { '◆' } else { ' ' }
        } else if a == b {
            if x == a { '│' } else { ' ' }
        } else if a <= x && x < b {
            '━'
        } else {
            ' '
        };
        cells.push(c);
        x += 1;
        assert(cells@ =~= bar_cells(columns as int, first as int, seconds as int, sched_pair(s), milestone).take(x as int));
    }
    assert(cells@ =~= bar_cells(columns as int, first as int, seconds as int, sched_pair(s), milestone));
    cells
}


fn styled(text: &[char], style: LineStyle) -> (r: GanttLine)
    ensures
        r@ == (LineModel { text: text@, style }),
{
    GanttLine { text: chars_to_string(text), style }
}

fn schedule_span(sched: &Vec<Schedule>) -> (r: (i64, i64))
    requires
        sched@.len() >= 1,
        forall|i: int| 0 <= i < sched@.len() ==> schedule_bounded(#[trigger] sched@[i]),
    ensures
        r.0 as int == min_start(Seq::new(sched@.len(), |i: int| sched_pair(sched@[i]))),
        r.1 as int == max_end(Seq::new(sched@.len(), |i: int| sched_pair(sched@[i]))),
        -timestamp_bound() <= r.0 <= timestamp_bound(),
        -timestamp_bound() <= r.1 <= timestamp_bound(),
{
    let ghost sp = Seq::new(sched@.len(), |i: int| sched_pair(sched@[i]));
    let n = sched.len();
    let mut first = sched[0].start;
    let mut last = sched[0].end;
    let mut i: usize = 1;
    assert(sp.take(1).len() == 1);
    while i < n
        invariant
            1 <= i <= n,
            n == sched@.len(),
            sp == Seq::new(sched@.len(), |i: int| sched_pair(sched@[i])),
            first as int == min_start(sp.take(i as int)),
            last as int == max_end(sp.take(i as int)),
        decreases n - i,
    {
        assert(sp.take(i + 1).drop_last() =~= sp.take(i as int));
        if sched[i].start < first {
            first = sched[i].start;
        }
        if sched[i].end > last {
            last = sched[i].end;
        }
        i += 1;
    }
    assert(sp.take(n as int) =~= sp);
    proof {
        lemma_min_start_le(sp, 0);
        lemma_max_end_ge(sp, 0);
        let j1 = choose|j: int| 0 <= j < sp.len() && min_start(sp) == sp[j].0;
        let j2 = choose|j: int| 0 <= j < sp.len() && max_end(sp) == sp[j].1;
        assert(schedule_bounded(sched@[j1]));
        assert(schedule_bounded(sched@[j2]));
    }
    (first, last)
}

fn widest_label(tasks: &Vec<GanttTask>) -> (r: usize)
    requires
        tasks@.len() >= 1,
    ensures
        r as int == max_label_width(task_views(tasks@)),
{
    let ghost tv = task_views(tasks@);
    let n = tasks.len();
    let mut lw: usize = text_width(&tasks[0].label);
    let mut k: usize = 1;
    assert(tv.take(1).len() == 1);
    while k < n
        invariant
            1 <= k <= n,
            n == tasks@.len(),
            tv == task_views(tasks@),
            lw as int == max_label_width(tv.take(k as int)),
        decreases n - k,
    {
        assert(tv.take(k + 1).drop_last() =~= tv.take(k as int));
        assert(tv[k as int].label == tasks@[k as int].label@);
        let w = text_width(&tasks[k].label);
        if w > lw {
            lw = w;
        }
        k += 1;
    }
    assert(tv.take(n as int) =~= tv);
    lw
}

fn title_lines(title: &Option<Vec<char>>, width: usize) -> (r: Vec<GanttLine>)
    requires
        width > 0,
    ensures
        line_views(r@) == match opt_chars(*title) {
            Some(t) => bold_lines(textwrap_lines(t, width as int)),
            None => Seq::<LineModel>::empty(),
        },
{
    let mut lines: Vec<GanttLine> = Vec::new();
    match title {
        Some(t) => {
            let wrapped = wrap_text(t, width);
            let ghost wv = views_of(wrapped@);
            let mut q: usize = 0;
            while q < wrapped.len()
                invariant
                    q <= wrapped@.len(),
                    wv == views_of(wrapped@),
                    line_views(lines@) =~= bold_lines(wv).take(q as int),
                decreases wrapped@.len() - q,
            {
                let ghost before = line_views(lines@);
                let line = styled(&wrapped[q], LineStyle::Bold);
                lines.push(line);
                assert(line_views(lines@) =~= before.push(bold_lines(wv)[q as int]));
                q += 1;
                assert(bold_lines(wv).take(q as int) =~= before.push(bold_lines(wv)[q - 1]));
            }
            assert(bold_lines(wv).take(wrapped@.len() as int) =~= bold_lines(wv));
        },
        None => {
            assert(line_views(lines@) =~= Seq::<LineModel>::empty());
        },
    }
    lines
}

/// Appends the section headers and bars of all tasks; `None` when a header is too wide.
fn push_task_lines(
    lines: &mut Vec<GanttLine>,
    tasks: &Vec<GanttTask>,
    sched: &Vec<Schedule>,
    lw: usize,
    columns: usize,
    first: i64,
    last: i64,
    seconds: i64,
    width: usize,
    Ghost(lay): Ghost<Layout>,
) -> (r: bool)
    requires
        tasks@.len() == sched@.len(),
        12 <= columns <= 80,
        1 <= seconds <= 86400 * 36525,
        last - first <= seconds,
        forall|k: int| 0 <= k < sched@.len() ==> first <= #[trigger] sched@[k].start && sched@[k].start <= sched@[k].end && sched@[k].end <= last,
        lw as int == max_label_width(task_views(tasks@)),
        lay == (Layout { label_width: lw as int, columns: columns as int, first: first as int, seconds: seconds as int, width: width as int }),
    ensures
        ({
            let sp = Seq::new(sched@.len(), |i: int| sched_pair(sched@[i]));
            let body = body_lines(task_views(tasks@), sp, tasks@.len() as int, lay);
            &&& r ==> body is Some && line_views(final(lines)@) == line_views(old(lines)@) + body->0
            &&& !r ==> body is None
        }),
{
    let ghost tv = task_views(tasks@);
    let ghost sp = Seq::new(sched@.len(), |i: int| sched_pair(sched@[i]));
    let ghost head = line_views(lines@);
    let n = tasks.len();
    let mut t: usize = 0;
    assert(head + Seq::<LineModel>::empty() =~= head);
    while t < n
        invariant
            t <= n,
            n == tasks@.len(),
            n == sched@.len(),
            tv == task_views(tasks@),
            sp == Seq::new(sched@.len(), |i: int| sched_pair(sched@[i])),
            lay == (Layout { label_width: lw as int, columns: columns as int, first: first as int, seconds: seconds as int, width: width as int }),
            12 <= columns <= 80,
            1 <= seconds <= 86400 * 36525,
            last - first <= seconds,
            forall|k: int| 0 <= k < sched@.len() ==> first <= #[trigger] sched@[k].start && sched@[k].start <= sched@[k].end && sched@[k].end <= last,
            lw as int == max_label_width(tv),
            body_lines(tv, sp, t as int, lay) is Some,
            line_views(lines@) == head + body_lines(tv, sp, t as int, lay)->0,
        decreases n - t,
    {
        let task = &tasks[t];
        assert(tv[t as int] == task@);
        let ghost before = line_views(lines@);
        let changed = if t == 0 {
            task.section.len() != 0
        } else {
            !chars_eq(&task.section, &tasks[t - 1].section)
        };
        let ghost prev = if t == 0 { Seq::<char>::empty() } else { tv[t - 1].section };
        proof {
            if t > 0 {
                assert(tv[t - 1] == tasks@[t - 1]@);
            } else if task.section@.len() == 0 {
                assert(task.section@ =~= Seq::<char>::empty());
            }
        }
        assert(changed == (tv[t as int].section != prev));
        if changed {
            if text_width(&task.section) > width {
                assert(task_chunk(tv, sp, t as int, lay) is None);
                assert(body_lines(tv, sp, t + 1, lay) is None);
                proof { lemma_body_refused(tv, sp, t + 1, n as int, lay); }
                return false;
            }
            lines.push(styled(&task.section, LineStyle::Bold));
        }
        let s = sched[t];
        assert(sp[t as int] == sched_pair(s));
        let bar = bar_text(columns, first, seconds, s, task.milestone);
        let trimmed = trim_end_chars(&bar);
        let mut text: Vec<char> = Vec::new();
        text.extend_from_slice(&task.label);
        proof { lemma_max_label_width_ge(tv, t as int); }
        let own = text_width(&task.label);
        push_repeat(&mut text, ' ', lw - own);
        text.push(' ');
        text.push('│');
        text.push(' ');
        text.extend_from_slice(&trimmed);
        assert(text@ =~= task_text(tv[t as int], sp[t as int], lay));
        lines.push(styled(&text, LineStyle::Plain));
        let ghost chunk = task_chunk(tv, sp, t as int, lay)->0;
        assert(line_views(lines@) =~= before + chunk);
        assert(head + body_lines(tv, sp, t + 1, lay)->0 =~= before + chunk);
        t += 1;
    }
    true
}

/// Draws a Mermaid `gantt` chart within `width` columns; `None` keeps the source display
/// (unsupported syntax, unresolvable schedule, or a layout that cannot fit).
pub fn render(source: &str, width: usize) -> (r: Option<Vec<GanttLine>>)
    ensures
        match r {
            Some(lines) => render_spec(source@, width as int) == Some(line_views(lines@)),
            None => render_spec(source@, width as int) is None,
        },
{
    let chart = match Chart::parse(source) {
        Some(c) => c,
        None => return None,
    };
    let ghost cm = chart@;
    let ghost tv = cm.tasks;
    proof { lemma_parsed_axis_ok(source@); }
    let sched = match chart.schedule() {
        Some(v) => v,
        None => return None,
    };
    let ghost sp = Seq::new(sched@.len(), |i: int| sched_pair(sched@[i]));
    assert(chart_schedule(tv) == Some(sp));
    let n = sched.len();
    let (first, last) = schedule_span(&sched);
    proof {
        assert forall|k: int| 0 <= k < n implies first <= #[trigger] sched@[k].start && sched@[k].start <= sched@[k].end && sched@[k].end <= last by {
            assert(sp[k] == sched_pair(sched@[k]));
            lemma_min_start_le(sp, k);
            lemma_max_end_ge(sp, k);
            lemma_resolved_ordered(tv, k, tv.len());
        }
    }
    let seconds: i64 = if last - first >= 1 { last - first } else { 1 };
    if seconds > 86400 * 36525 {
        return None;
    }
    let lw = widest_label(&chart.tasks);
    let cap: usize = if width < 240 { width } else { 240 };
    if lw > cap || cap - lw < 3 {
        return None;
    }
    let columns: usize = if cap - lw - 3 < 80 { cap - lw - 3 } else { 80 };
    let left = format_timestamp(first, &chart.axis_format);
    let right = format_timestamp(last, &chart.axis_format);
    let lwid = text_width(&left);
    let rwid = text_width(&right);
    if (columns as u128) < (lwid as u128) + (rwid as u128) + 2 || columns < 12 {
        return None;
    }
    let dw: usize = lwid + rwid;
    let mut lines = title_lines(&chart.title, width);
    let ghost title_model = line_views(lines@);
    let mut axis: Vec<char> = Vec::new();
    push_repeat(&mut axis, ' ', lw + 3);
    axis.extend_from_slice(&left);
    push_repeat(&mut axis, ' ', columns - dw);
    axis.extend_from_slice(&right);
    let mut rule: Vec<char> = Vec::new();
    push_repeat(&mut rule, ' ', lw + 3);
    rule.push('├');
    push_repeat(&mut rule, '─', columns - 2);
    rule.push('┤');
    let ghost axis_model = LineModel {
        text: repeat_char(' ', lw + 3) + left@ + repeat_char(' ', columns - dw) + right@,
        style: LineStyle::Dim,
    };
    let ghost rule_model = LineModel {
        text: repeat_char(' ', lw + 3) + seq!['├'] + repeat_char('─', columns - 2) + seq!['┤'],
        style: LineStyle::Dim,
    };
    assert(axis@ =~= axis_model.text);
    assert(rule@ =~= rule_model.text);
    lines.push(styled(&axis, LineStyle::Dim));
    lines.push(styled(&rule, LineStyle::Dim));
    assert(line_views(lines@) =~= title_model + seq![axis_model, rule_model]);
    let ghost lay = Layout {
        label_width: lw as int,
        columns: columns as int,
        first: first as int,
        seconds: seconds as int,
        width: width as int,
    };
    if !push_task_lines(&mut lines, &chart.tasks, &sched, lw, columns, first, last, seconds, width, Ghost(lay)) {
        return None;
    }
    if lines.len() > 256 {
        return None;
    }
    Some(lines)
}

proof fn lemma_body_refused(tasks: Seq<TaskModel>, sched: Seq<(int, int)>, k: int, n: int, lay: Layout)
    requires
        0 <= k <= n,
        body_lines(tasks, sched, k, lay) is None,
    ensures
        body_lines(tasks, sched, n, lay) is None,
    decreases n - k,
{
    if k < n {
        lemma_body_refused(tasks, sched, k + 1, n, lay);
    }
}

} // verus!
