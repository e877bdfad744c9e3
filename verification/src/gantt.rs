//! Mermaid `gantt` charts: parsing, dependency resolution and timeline layout.

use vstd::prelude::*;

use crate::text::eq_ignore_ascii_case;
use crate::text::is_white_space;
use crate::text::split_on;
use crate::text::split_once_char;
use crate::text::split_once_ws;
use crate::text::starts_with;
use crate::text::trim;
use crate::text::views_of;
use crate::text::chars_eq;
use crate::text::chars_eq_ignore_ascii_case;
use crate::text::copy_range;
use crate::text::has_prefix;
use crate::text::is_whitespace;
use crate::text::split_chars;
use crate::text::split_once;
use crate::text::split_once_whitespace;
use crate::text::str_to_chars;
use crate::text::trim_chars;

verus! {

// ---------------------------------------------------------------------------
// Models
// ---------------------------------------------------------------------------

/// A task as the spec sees it.
pub struct TaskModel {
    pub label: Seq<char>,
    pub section: Seq<char>,
    pub id: Option<Seq<char>>,
    pub start: Option<Seq<char>>,
    pub end: Seq<char>,
    pub milestone: bool,
}

/// A chart as the spec sees it.
pub struct ChartModel {
    pub title: Option<Seq<char>>,
    pub axis_format: Seq<char>,
    pub tasks: Seq<TaskModel>,
}

/// The parser's state between two statements: the chart so far and the current section.
pub struct ParseState {
    pub chart: ChartModel,
    pub section: Seq<char>,
}

pub open spec fn opt_chars(o: Option<Vec<char>>) -> Option<Seq<char>> {
    match o {
        Some(v) => Some(v@),
        None => None,
    }
}

/// One task line of a chart.
pub struct GanttTask {
    pub label: Vec<char>,
    pub section: Vec<char>,
    pub id: Option<Vec<char>>,
    pub start: Option<Vec<char>>,
    pub end: Vec<char>,
    pub milestone: bool,
}

impl View for GanttTask {
    type V = TaskModel;

    open spec fn view(&self) -> TaskModel {
        TaskModel {
            label: self.label@,
            section: self.section@,
            id: opt_chars(self.id),
            start: opt_chars(self.start),
            end: self.end@,
            milestone: self.milestone,
        }
    }
}

pub open spec fn task_views(tasks: Seq<GanttTask>) -> Seq<TaskModel> {
    Seq::new(tasks.len(), |i: int| tasks[i]@)
}

/// A parsed `gantt` chart.
pub struct Chart {
    pub title: Option<Vec<char>>,
    pub axis_format: Vec<char>,
    pub tasks: Vec<GanttTask>,
}

impl View for Chart {
    type V = ChartModel;

    open spec fn view(&self) -> ChartModel {
        ChartModel {
            title: opt_chars(self.title),
            axis_format: self.axis_format@,
            tasks: task_views(self.tasks@),
        }
    }
}

/// Start and end timestamp (seconds) of one task.
#[derive(Clone, Copy, Debug, PartialEq, Eq)]
pub struct Schedule {
    pub start: i64,
    pub end: i64,
}

// ---------------------------------------------------------------------------
// Words of the chart syntax
// ---------------------------------------------------------------------------

pub open spec fn w_gantt() -> Seq<char> { seq!['g', 'a', 'n', 't', 't'] }
pub open spec fn w_title() -> Seq<char> { seq!['t', 'i', 't', 'l', 'e'] }
pub open spec fn w_section() -> Seq<char> { seq!['s', 'e', 'c', 't', 'i', 'o', 'n'] }
pub open spec fn w_date_format() -> Seq<char> { seq!['d', 'a', 't', 'e', 'F', 'o', 'r', 'm', 'a', 't'] }
pub open spec fn w_ymd() -> Seq<char> { seq!['Y', 'Y', 'Y', 'Y', '-', 'M', 'M', '-', 'D', 'D'] }
pub open spec fn w_axis_format() -> Seq<char> { seq!['a', 'x', 'i', 's', 'F', 'o', 'r', 'm', 'a', 't'] }
pub open spec fn w_today_marker() -> Seq<char> { seq!['t', 'o', 'd', 'a', 'y', 'M', 'a', 'r', 'k', 'e', 'r'] }
pub open spec fn w_off() -> Seq<char> { seq!['o', 'f', 'f'] }
pub open spec fn w_milestone() -> Seq<char> { seq!['m', 'i', 'l', 'e', 's', 't', 'o', 'n', 'e'] }
pub open spec fn w_active() -> Seq<char> { seq!['a', 'c', 't', 'i', 'v', 'e'] }
pub open spec fn w_done() -> Seq<char> { seq!['d', 'o', 'n', 'e'] }
pub open spec fn w_crit() -> Seq<char> { seq!['c', 'r', 'i', 't'] }
pub open spec fn w_comment() -> Seq<char> { seq!['%', '%'] }
pub open spec fn w_default_axis() -> Seq<char> { seq!['%', 'Y', '-', '%', 'm', '-', '%', 'd'] }
pub open spec fn w_after() -> Seq<char> { seq!['a', 'f', 't', 'e', 'r', ' '] }
pub open spec fn w_until() -> Seq<char> { seq!['u', 'n', 't', 'i', 'l', ' '] }

// ---------------------------------------------------------------------------
// Parsing: the statement format
// ---------------------------------------------------------------------------

/// A strftime specifier letter whose date meaning D3 and chrono agree on.
pub open spec fn axis_specifier_ok(c: char) -> bool {
    c == '%' || c == 'Y' || c == 'y' || c == 'm' || c == 'b' || c == 'B' || c == 'd' || c == 'e'
        || c == 'a' || c == 'A' || c == 'j' || c == 'H' || c == 'M' || c == 'S'
}

/// Every `%` of the axis format is followed by an accepted specifier.
pub open spec fn axis_format_ok(s: Seq<char>) -> bool
    decreases s.len(),
{
    if s.len() == 0 {
        true
    } else if s[0] == '%' {
        s.len() >= 2 && axis_specifier_ok(s[1]) && axis_format_ok(s.skip(2))
    } else {
        axis_format_ok(s.skip(1))
    }
}

pub open spec fn is_status_tag(f: Seq<char>) -> bool {
    f == w_active() || f == w_done() || f == w_crit()
}

/// Leading `milestone`/status fields removed: the remaining fields, the status tags in order,
/// and whether `milestone` was among them.
pub open spec fn strip_tags(fields: Seq<Seq<char>>) -> (Seq<Seq<char>>, Seq<Seq<char>>, bool)
    decreases fields.len(),
{
    if fields.len() > 0 && fields[0] == w_milestone() {
        let (rest, tags, _m) = strip_tags(fields.drop_first());
        (rest, tags, true)
    } else if fields.len() > 0 && is_status_tag(fields[0]) {
        let (rest, tags, m) = strip_tags(fields.drop_first());
        (rest, seq![fields[0]] + tags, m)
    } else {
        (fields, Seq::empty(), false)
    }
}

/// The pieces joined with `sep` between them.
pub open spec fn join(pieces: Seq<Seq<char>>, sep: Seq<char>) -> Seq<char>
    decreases pieces.len(),
{
    if pieces.len() == 0 {
        Seq::empty()
    } else if pieces.len() == 1 {
        pieces[0]
    } else {
        join(pieces.drop_last(), sep) + sep + pieces.last()
    }
}

/// The task label shown: the label, then the status tags in brackets when there are any.
pub open spec fn decorated_label(label: Seq<char>, tags: Seq<Seq<char>>) -> Seq<char> {
    if tags.len() == 0 {
        label
    } else {
        label + seq![' ', '['] + join(tags, seq![',', ' ']) + seq![']']
    }
}

pub open spec fn has_white_space(s: Seq<char>) -> bool {
    exists|i: int| 0 <= i < s.len() && is_white_space(s[i])
}

/// Id, start and end field of a task, by the number of fields that remain after the tags.
pub open spec fn task_fields(rest: Seq<Seq<char>>) -> Option<(Option<Seq<char>>, Option<Seq<char>>, Seq<char>)> {
    if rest.len() == 1 {
        Some((None, None, rest[0]))
    } else if rest.len() == 2 {
        Some((None, Some(rest[0]), rest[1]))
    } else if rest.len() == 3 && rest[0].len() > 0 && !has_white_space(rest[0]) {
        Some((Some(rest[0]), Some(rest[1]), rest[2]))
    } else {
        None
    }
}

pub open spec fn trimmed_fields(meta: Seq<char>) -> Seq<Seq<char>> {
    split_on(meta, ',').map_values(|f: Seq<char>| trim(f))
}

pub open spec fn id_taken(tasks: Seq<TaskModel>, id: Option<Seq<char>>) -> bool {
    id is Some && exists|k: int| 0 <= k < tasks.len() && tasks[k].id == id
}

/// A `label : fields` statement.
pub open spec fn task_step(st: ParseState, line: Seq<char>) -> Option<ParseState> {
    match split_once_char(line, ':') {
        None => None,
        Some((raw_label, meta)) => {
            let label = trim(raw_label);
            if label.len() == 0 || st.chart.tasks.len() >= 128 {
                None
            } else {
                let (rest, tags, milestone) = strip_tags(trimmed_fields(meta));
                match task_fields(rest) {
                    None => None,
                    Some((id, start, end)) => {
                        if id_taken(st.chart.tasks, id) {
                            None
                        } else {
                            let task = TaskModel {
                                label: decorated_label(label, tags),
                                section: st.section,
                                id,
                                start,
                                end,
                                milestone,
                            };
                            Some(
                                ParseState {
                                    chart: ChartModel { tasks: st.chart.tasks.push(task), ..st.chart },
                                    ..st
                                },
                            )
                        }
                    },
                }
            }
        },
    }
}

/// One statement after the `gantt` header (trimmed, non-empty, not a comment).
pub open spec fn line_step(st: ParseState, line: Seq<char>) -> Option<ParseState> {
    match split_once_ws(line) {
        Some((key, raw)) => {
            let value = trim(raw);
            if key == w_title() && value.len() > 0 {
                Some(ParseState { chart: ChartModel { title: Some(value), ..st.chart }, ..st })
            } else if key == w_section() && value.len() > 0 {
                Some(ParseState { section: value, ..st })
            } else if key == w_date_format() && value == w_ymd() {
                Some(st)
            } else if key == w_axis_format() && value.len() > 0 {
                if axis_format_ok(value) {
                    Some(ParseState { chart: ChartModel { axis_format: value, ..st.chart }, ..st })
                } else {
                    None
                }
            } else if key == w_today_marker() && value == w_off() {
                Some(st)
            } else {
                task_step(st, line)
            }
        },
        None => task_step(st, line),
    }
}

/// The statements applied in order; the first refusal refuses the chart.
pub open spec fn fold_lines(st: Option<ParseState>, lines: Seq<Seq<char>>) -> Option<ParseState>
    decreases lines.len(),
{
    if lines.len() == 0 {
        st
    } else {
        match fold_lines(st, lines.drop_last()) {
            None => None,
            Some(s) => line_step(s, lines.last()),
        }
    }
}

/// Trimmed source lines without blank lines and `%%` comments.
pub open spec fn content_lines(raw: Seq<Seq<char>>) -> Seq<Seq<char>>
    decreases raw.len(),
{
    if raw.len() == 0 {
        Seq::empty()
    } else {
        let p = content_lines(raw.drop_last());
        let t = trim(raw.last());
        if t.len() == 0 || starts_with(t, w_comment()) {
            p
        } else {
            p.push(t)
        }
    }
}

pub open spec fn initial_state() -> ParseState {
    ParseState {
        chart: ChartModel { title: None, axis_format: w_default_axis(), tasks: Seq::empty() },
        section: Seq::empty(),
    }
}

/// The chart that `source` describes, if it is a supported `gantt` chart with at least one task.
pub open spec fn parse_chart(source: Seq<char>) -> Option<ChartModel> {
    let content = content_lines(split_on(source, '\n'));
    if content.len() == 0 || !eq_ignore_ascii_case(content[0], w_gantt()) {
        None
    } else {
        match fold_lines(Some(initial_state()), content.skip(1)) {
            None => None,
            Some(st) => if st.chart.tasks.len() == 0 {
                None
            } else {
                Some(st.chart)
            },
        }
    }
}


// ---------------------------------------------------------------------------
// Parsing: implementation
// ---------------------------------------------------------------------------

fn word_is(s: &[char], w: &[char]) -> (r: bool)
    ensures
        r == (s@ == w@),
{
    chars_eq(s, w)
}

fn is_gantt_header(s: &[char]) -> (r: bool)
    ensures
        r == eq_ignore_ascii_case(s@, w_gantt()),
{
    let w: [char; 5] = ['g', 'a', 'n', 't', 't'];
    let l: &[char] = &w;
    assert(l@ =~= w_gantt());
    chars_eq_ignore_ascii_case(s, l)
}

fn is_title(s: &[char]) -> (r: bool)
    ensures
        r == (s@ == w_title()),
{
    let w: [char; 5] = ['t', 'i', 't', 'l', 'e'];
    let l: &[char] = &w;
    assert(l@ =~= w_title());
    word_is(s, l)
}

fn is_section(s: &[char]) -> (r: bool)
    ensures
        r == (s@ == w_section()),
{
    let w: [char; 7] = ['s', 'e', 'c', 't', 'i', 'o', 'n'];
    let l: &[char] = &w;
    assert(l@ =~= w_section());
    word_is(s, l)
}

fn is_date_format(s: &[char]) -> (r: bool)
    ensures
        r == (s@ == w_date_format()),
{
    let w: [char; 10] = ['d', 'a', 't', 'e', 'F', 'o', 'r', 'm', 'a', 't'];
    let l: &[char] = &w;
    assert(l@ =~= w_date_format());
    word_is(s, l)
}

fn is_ymd(s: &[char]) -> (r: bool)
    ensures
        r == (s@ == w_ymd()),
{
    let w: [char; 10] = ['Y', 'Y', 'Y', 'Y', '-', 'M', 'M', '-', 'D', 'D'];
    let l: &[char] = &w;
    assert(l@ =~= w_ymd());
    word_is(s, l)
}

fn is_axis_format(s: &[char]) -> (r: bool)
    ensures
        r == (s@ == w_axis_format()),
{
    let w: [char; 10] = ['a', 'x', 'i', 's', 'F', 'o', 'r', 'm', 'a', 't'];
    let l: &[char] = &w;
    assert(l@ =~= w_axis_format());
    word_is(s, l)
}

fn is_today_marker(s: &[char]) -> (r: bool)
    ensures
        r == (s@ == w_today_marker()),
{
    let w: [char; 11] = ['t', 'o', 'd', 'a', 'y', 'M', 'a', 'r', 'k', 'e', 'r'];
    let l: &[char] = &w;
    assert(l@ =~= w_today_marker());
    word_is(s, l)
}

fn is_off(s: &[char]) -> (r: bool)
    ensures
        r == (s@ == w_off()),
{
    let w: [char; 3] = ['o', 'f', 'f'];
    let l: &[char] = &w;
    assert(l@ =~= w_off());
    word_is(s, l)
}

fn is_milestone(s: &[char]) -> (r: bool)
    ensures
        r == (s@ == w_milestone()),
{
    let w: [char; 9] = ['m', 'i', 'l', 'e', 's', 't', 'o', 'n', 'e'];
    let l: &[char] = &w;
    assert(l@ =~= w_milestone());
    word_is(s, l)
}

fn is_tag(s: &[char]) -> (r: bool)
    ensures
        r == is_status_tag(s@),
{
    let a: [char; 6] = ['a', 'c', 't', 'i', 'v', 'e'];
    let d: [char; 4] = ['d', 'o', 'n', 'e'];
    let c: [char; 4] = ['c', 'r', 'i', 't'];
    let la: &[char] = &a;
    let ld: &[char] = &d;
    let lc: &[char] = &c;
    assert(la@ =~= w_active());
    assert(ld@ =~= w_done());
    assert(lc@ =~= w_crit());
    word_is(s, la) || word_is(s, ld) || word_is(s, lc)
}

fn is_comment(s: &[char]) -> (r: bool)
    ensures
        r == starts_with(s@, w_comment()),
{
    let w: [char; 2] = ['%', '%'];
    let l: &[char] = &w;
    assert(l@ =~= w_comment());
    has_prefix(s, l)
}

/// Whether every `%` of `s` is followed by an accepted specifier.
pub fn check_axis_format(s: &[char]) -> (r: bool)
    ensures
        r == axis_format_ok(s@),
{
    let mut i: usize = 0;
    assert(s@.skip(0) =~= s@);
    while i < s.len()
        invariant
            i <= s@.len(),
            axis_format_ok(s@) == axis_format_ok(s@.skip(i as int)),
        decreases s@.len() - i,
    {
        let ghost t = s@.skip(i as int);
        assert(t[0] == s@[i as int]);
        if s[i] == '%' {
            if i + 1 >= s.len() {
                return false;
            }
            let c = s[i + 1];
            assert(t[1] == c);
            if !(c == '%' || c == 'Y' || c == 'y' || c == 'm' || c == 'b' || c == 'B' || c == 'd'
                || c == 'e' || c == 'a' || c == 'A' || c == 'j' || c == 'H' || c == 'M' || c == 'S') {
                return false;
            }
            assert(t.skip(2) =~= s@.skip(i + 2));
            i += 2;
        } else {
            assert(t.skip(1) =~= s@.skip(i + 1));
            i += 1;
        }
    }
    assert(s@.skip(i as int) =~= Seq::<char>::empty());
    true
}

fn has_whitespace(s: &[char]) -> (r: bool)
    ensures
        r == has_white_space(s@),
{
    let mut i: usize = 0;
    while i < s.len()
        invariant
            i <= s@.len(),
            forall|j: int| 0 <= j < i ==> !is_white_space(s@[j]),
        decreases s@.len() - i,
    {
        if is_whitespace(s[i]) {
            return true;
        }
        i += 1;
    }
    false
}

fn trim_all(pieces: &Vec<Vec<char>>) -> (r: Vec<Vec<char>>)
    ensures
        views_of(r@) == views_of(pieces@).map_values(|f: Seq<char>| trim(f)),
{
    let mut out: Vec<Vec<char>> = Vec::new();
    let mut i: usize = 0;
    while i < pieces.len()
        invariant
            i <= pieces@.len(),
            out@.len() == i,
            forall|j: int| 0 <= j < i ==> out@[j]@ == trim(pieces@[j]@),
        decreases pieces@.len() - i,
    {
        let t = trim_chars(&pieces[i]);
        out.push(t);
        i += 1;
    }
    assert(views_of(out@) =~= views_of(pieces@).map_values(|f: Seq<char>| trim(f)));
    out
}

fn strip_status_tags(fields: &Vec<Vec<char>>) -> (r: (Vec<Vec<char>>, Vec<Vec<char>>, bool))
    ensures
        strip_tags(views_of(fields@)) == (views_of(r.0@), views_of(r.1@), r.2),
{
    let ghost fv = views_of(fields@);
    let mut tags: Vec<Vec<char>> = Vec::new();
    let mut milestone = false;
    let mut i: usize = 0;
    assert(fv.skip(0) =~= fv);
    assert(views_of(tags@) + strip_tags(fv).1 =~= strip_tags(fv).1);
    while i < fields.len() && (is_milestone(&fields[i]) || is_tag(&fields[i]))
        invariant
            i <= fields@.len(),
            fv == views_of(fields@),
            ({
                let r = strip_tags(fv.skip(i as int));
                strip_tags(fv) == (r.0, views_of(tags@) + r.1, milestone || r.2)
            }),
        decreases fields@.len() - i,
    {
        let ghost t = fv.skip(i as int);
        assert(t[0] == fields@[i as int]@);
        assert(t.drop_first() =~= fv.skip(i + 1));
        if is_milestone(&fields[i]) {
            milestone = true;
        } else {
            let ghost before = views_of(tags@);
            let c = copy_range(&fields[i], 0, fields[i].len());
            assert(c@ =~= fields@[i as int]@);
            tags.push(c);
            assert(views_of(tags@) =~= before.push(fv[i as int]));
            let ghost r = strip_tags(fv.skip(i + 1));
            assert(before + (seq![fv[i as int]] + r.1) =~= before.push(fv[i as int]) + r.1);
        }
        i += 1;
    }
    let mut rest: Vec<Vec<char>> = Vec::new();
    let start = i;
    while i < fields.len()
        invariant
            start <= i <= fields@.len(),
            views_of(rest@) =~= fv.subrange(start as int, i as int),
            fv == views_of(fields@),
        decreases fields@.len() - i,
    {
        let c = copy_range(&fields[i], 0, fields[i].len());
        assert(c@ =~= fields@[i as int]@);
        let ghost before = views_of(rest@);
        rest.push(c);
        assert(views_of(rest@) =~= before.push(fv[i as int]));
        i += 1;
    }
    assert(fv.subrange(start as int, fields@.len() as int) =~= fv.skip(start as int));
    assert(views_of(tags@) + Seq::<Seq<char>>::empty() =~= views_of(tags@));
    (rest, tags, milestone)
}

fn join_pieces(pieces: &Vec<Vec<char>>, sep: &[char]) -> (r: Vec<char>)
    ensures
        r@ == join(views_of(pieces@), sep@),
{
    let mut out: Vec<char> = Vec::new();
    let mut i: usize = 0;
    while i < pieces.len()
        invariant
            i <= pieces@.len(),
            out@ == join(views_of(pieces@).take(i as int), sep@),
        decreases pieces@.len() - i,
    {
        let ghost pv = views_of(pieces@);
        assert(pv.take(i + 1).drop_last() =~= pv.take(i as int));
        if i > 0 {
            out.extend_from_slice(sep);
        }
        out.extend_from_slice(&pieces[i]);
        proof {
            if i == 0 {
                assert(out@ =~= pv.take(1)[0]);
            } else {
                assert(out@ =~= join(pv.take(i as int), sep@) + sep@ + pv[i as int]);
            }
        }
        i += 1;
    }
    assert(views_of(pieces@).take(pieces@.len() as int) =~= views_of(pieces@));
    out
}

fn decorate(label: Vec<char>, tags: &Vec<Vec<char>>) -> (r: Vec<char>)
    ensures
        r@ == decorated_label(label@, views_of(tags@)),
{
    if tags.len() == 0 {
        return label;
    }
    let mut out = label;
    out.push(' ');
    out.push('[');
    let comma: [char; 2] = [',', ' '];
    let sep: &[char] = &comma;
    assert(sep@ =~= seq![',', ' ']);
    let joined = join_pieces(tags, sep);
    out.extend_from_slice(&joined);
    out.push(']');
    out
}

fn same_id(a: &Option<Vec<char>>, b: &Option<Vec<char>>) -> (r: bool)
    ensures
        r == (opt_chars(*a) == opt_chars(*b)),
{
    match (a, b) {
        (Some(x), Some(y)) => chars_eq(x, y),
        (None, None) => true,
        _ => false,
    }
}

fn id_in_use(tasks: &Vec<GanttTask>, id: &Option<Vec<char>>) -> (r: bool)
    ensures
        r == id_taken(task_views(tasks@), opt_chars(*id)),
{
    if id.is_none() {
        return false;
    }
    let mut k: usize = 0;
    while k < tasks.len()
        invariant
            k <= tasks@.len(),
            id is Some,
            forall|j: int| 0 <= j < k ==> task_views(tasks@)[j].id != opt_chars(*id),
        decreases tasks@.len() - k,
    {
        if same_id(&tasks[k].id, id) {
            assert(task_views(tasks@)[k as int].id == opt_chars(*id));
            return true;
        }
        k += 1;
    }
    false
}

/// The parser's state between two statements.
pub struct Parser {
    pub chart: Chart,
    pub section: Vec<char>,
}

impl View for Parser {
    type V = ParseState;

    open spec fn view(&self) -> ParseState {
        ParseState { chart: self.chart@, section: self.section@ }
    }
}

fn apply_task(st: Parser, line: &[char]) -> (r: Option<Parser>)
    ensures
        match r {
            Some(p) => task_step(st@, line@) == Some(p@),
            None => task_step(st@, line@) is None,
        },
{
    let (raw_label, meta) = match split_once(line, ':') {
        Some(parts) => parts,
        None => return None,
    };
    let label = trim_chars(&raw_label);
    if label.len() == 0 || st.chart.tasks.len() >= 128 {
        return None;
    }
    let pieces = split_chars(&meta, ',');
    let fields = trim_all(&pieces);
    assert(views_of(fields@) == trimmed_fields(meta@));
    let (rest, tags, milestone) = strip_status_tags(&fields);
    let ghost rv = views_of(rest@);
    let mut id: Option<Vec<char>> = None;
    let mut start: Option<Vec<char>> = None;
    let end: Vec<char>;
    if rest.len() == 1 {
        end = copy_range(&rest[0], 0, rest[0].len());
    } else if rest.len() == 2 {
        start = Some(copy_range(&rest[0], 0, rest[0].len()));
        end = copy_range(&rest[1], 0, rest[1].len());
    } else if rest.len() == 3 && rest[0].len() > 0 && !has_whitespace(&rest[0]) {
        id = Some(copy_range(&rest[0], 0, rest[0].len()));
        start = Some(copy_range(&rest[1], 0, rest[1].len()));
        end = copy_range(&rest[2], 0, rest[2].len());
    } else {
        assert(task_fields(rv) is None);
        return None;
    }
    proof {
        if rest@.len() >= 1 { assert(rest@[0]@.subrange(0, rest@[0]@.len() as int) =~= rv[0]); }
        if rest@.len() >= 2 { assert(rest@[1]@.subrange(0, rest@[1]@.len() as int) =~= rv[1]); }
        if rest@.len() >= 3 { assert(rest@[2]@.subrange(0, rest@[2]@.len() as int) =~= rv[2]); }
    }
    assert(task_fields(rv) == Some((opt_chars(id), opt_chars(start), end@)));
    if id_in_use(&st.chart.tasks, &id) {
        return None;
    }
    let section = copy_range(&st.section, 0, st.section.len());
    assert(section@ =~= st.section@);
    let task = GanttTask {
        label: decorate(label, &tags),
        section,
        id,
        start,
        end,
        milestone,
    };
    let ghost task_view = task@;
    let ghost old_tasks = task_views(st.chart.tasks@);
    let mut st = st;
    st.chart.tasks.push(task);
    assert(task_views(st.chart.tasks@) =~= old_tasks.push(task_view));
    Some(st)
}

fn apply_line(st: Parser, line: &[char]) -> (r: Option<Parser>)
    ensures
        match r {
            Some(p) => line_step(st@, line@) == Some(p@),
            None => line_step(st@, line@) is None,
        },
{
    match split_once_whitespace(line) {
        Some((key, raw)) => {
            let value = trim_chars(&raw);
            let mut st = st;
            if is_title(&key) && value.len() > 0 {
                st.chart.title = Some(value);
                Some(st)
            } else if is_section(&key) && value.len() > 0 {
                st.section = value;
                Some(st)
            } else if is_date_format(&key) && is_ymd(&value) {
                Some(st)
            } else if is_axis_format(&key) && value.len() > 0 {
                if check_axis_format(&value) {
                    st.chart.axis_format = value;
                    Some(st)
                } else {
                    None
                }
            } else if is_today_marker(&key) && is_off(&value) {
                Some(st)
            } else {
                apply_task(st, line)
            }
        },
        None => apply_task(st, line),
    }
}

proof fn lemma_fold_refused(st: Option<ParseState>, lines: Seq<Seq<char>>, k: int)
    requires
        0 <= k <= lines.len(),
        fold_lines(st, lines.take(k)) is None,
    ensures
        fold_lines(st, lines) is None,
    decreases lines.len() - k,
{
    if k < lines.len() {
        assert(lines.take(k + 1).drop_last() =~= lines.take(k));
        lemma_fold_refused(st, lines, k + 1);
    } else {
        assert(lines.take(k) =~= lines);
    }
}

fn content_of(source: &[char]) -> (r: Vec<Vec<char>>)
    ensures
        views_of(r@) == content_lines(split_on(source@, '\n')),
{
    let raw = split_chars(source, '\n');
    let ghost rv = views_of(raw@);
    let mut out: Vec<Vec<char>> = Vec::new();
    let mut i: usize = 0;
    while i < raw.len()
        invariant
            i <= raw@.len(),
            rv == views_of(raw@),
            views_of(out@) == content_lines(rv.take(i as int)),
        decreases raw@.len() - i,
    {
        assert(rv.take(i + 1).drop_last() =~= rv.take(i as int));
        assert(rv.take(i + 1).last() == raw@[i as int]@);
        let t = trim_chars(&raw[i]);
        if t.len() > 0 && !is_comment(&t) {
            let ghost before = views_of(out@);
            let ghost tv = t@;
            out.push(t);
            assert(views_of(out@) =~= before.push(tv));
        }
        i += 1;
    }
    assert(rv.take(raw@.len() as int) =~= rv);
    out
}

impl Chart {
    /// Parses a Mermaid `gantt` chart; `None` for anything outside the supported subset.
    pub fn parse(source: &str) -> (r: Option<Chart>)
        ensures
            match r {
                Some(c) => parse_chart(source@) == Some(c@),
                None => parse_chart(source@) is None,
            },
    {
        let chars = str_to_chars(source);
        let content = content_of(&chars);
        let ghost cv = views_of(content@);
        if content.len() == 0 || !is_gantt_header(&content[0]) {
            return None;
        }
        let ghost rest = cv.skip(1);
        let mut st = Parser {
            chart: Chart {
                title: None,
                axis_format: vec!['%', 'Y', '-', '%', 'm', '-', '%', 'd'],
                tasks: Vec::new(),
            },
            section: Vec::new(),
        };
        assert(st@.chart.axis_format =~= w_default_axis());
        assert(st@.chart.tasks =~= Seq::<TaskModel>::empty());
        assert(st@ == initial_state());
        let mut i: usize = 1;
        while i < content.len()
            invariant
                1 <= i <= content@.len(),
                cv == views_of(content@),
                cv == content_lines(split_on(source@, '\n')),
                rest == cv.skip(1),
                fold_lines(Some(initial_state()), rest.take(i - 1)) == Some(st@),
            decreases content@.len() - i,
        {
            assert(rest.take(i as int).drop_last() =~= rest.take(i - 1));
            assert(rest.take(i as int).last() == content@[i as int]@);
            let ghost cur = st@;
            match apply_line(st, &content[i]) {
                Some(next) => st = next,
                None => {
                    assert(line_step(cur, content@[i as int]@) is None);
                    assert(fold_lines(Some(initial_state()), rest.take(i as int)) is None);
                    proof { lemma_fold_refused(Some(initial_state()), rest, i as int); }
                    return None;
                },
            }
            i += 1;
        }
        assert(rest.take(i - 1) =~= rest);
        if st.chart.tasks.len() == 0 {
            return None;
        }
        Some(st.chart)
    }
}


proof fn lemma_default_axis_ok()
    ensures
        axis_format_ok(w_default_axis()),
{
    let s0 = w_default_axis();
    let s1 = seq!['-', '%', 'm', '-', '%', 'd'];
    let s2 = seq!['%', 'm', '-', '%', 'd'];
    let s3 = seq!['-', '%', 'd'];
    let s4 = seq!['%', 'd'];
    let s5 = Seq::<char>::empty();
    assert(axis_format_ok(s5));
    assert(s4.skip(2) =~= s5);
    assert(axis_format_ok(s4));
    assert(s3.skip(1) =~= s4);
    assert(axis_format_ok(s3));
    assert(s2.skip(2) =~= s3);
    assert(axis_format_ok(s2));
    assert(s1.skip(1) =~= s2);
    assert(axis_format_ok(s1));
    assert(s0.skip(2) =~= s1);
}

proof fn lemma_fold_keeps_axis(st: ParseState, lines: Seq<Seq<char>>)
    requires
        axis_format_ok(st.chart.axis_format),
        fold_lines(Some(st), lines) is Some,
    ensures
        axis_format_ok(fold_lines(Some(st), lines)->0.chart.axis_format),
    decreases lines.len(),
{
    if lines.len() > 0 {
        lemma_fold_keeps_axis(st, lines.drop_last());
    }
}

/// Every chart that parses has an axis format whose specifiers chrono formats.
pub proof fn lemma_parsed_axis_ok(source: Seq<char>)
    requires
        parse_chart(source) is Some,
    ensures
        axis_format_ok(parse_chart(source)->0.axis_format),
{
    lemma_default_axis_ok();
    let content = content_lines(split_on(source, '\n'));
    lemma_fold_keeps_axis(initial_state(), content.skip(1));
}


/// Leading tag fields are all taken off: the fields are the taken ones followed by the rest;
/// each taken one is `milestone` or a status (`active`, `done`, `crit`); the rest does not
/// start with either; the task is a milestone exactly when `milestone` was among them; and
/// the status tags are kept in order.
pub proof fn law_leading_tags_are_taken_off(fields: Seq<Seq<char>>)
    ensures
        ({
            let (rest, tags, milestone) = strip_tags(fields);
            let n = fields.len() - rest.len();
            &&& 0 <= n <= fields.len()
            &&& fields.skip(n) == rest
            &&& forall|k: int| 0 <= k < n ==> #[trigger] fields[k] == w_milestone() || is_status_tag(fields[k])
            &&& rest.len() > 0 ==> rest[0] != w_milestone() && !is_status_tag(rest[0])
            &&& milestone <==> exists|k: int| 0 <= k < n && #[trigger] fields[k] == w_milestone()
            &&& tags == fields.take(n).filter(|f: Seq<char>| is_status_tag(f))
        }),
    decreases fields.len(),
{
    if fields.len() > 0 && (fields[0] == w_milestone() || is_status_tag(fields[0])) {
        let tail = fields.drop_first();
        law_leading_tags_are_taken_off(tail);
        let (rest, tags, m) = strip_tags(tail);
        let n = fields.len() - rest.len();
        assert(fields.skip(n) =~= tail.skip(n - 1));
        assert forall|k: int| 0 <= k < n implies #[trigger] fields[k] == w_milestone() || is_status_tag(fields[k]) by {
            if k > 0 {
                assert(fields[k] == tail[k - 1]);
            }
        }
        let (r2, t2, m2) = strip_tags(fields);
        if m2 {
            if fields[0] != w_milestone() {
                assert(m);
                let k = choose|k: int| 0 <= k < n - 1 && #[trigger] tail[k] == w_milestone();
                assert(fields[k + 1] == w_milestone());
            }
        }
        if exists|k: int| 0 <= k < n && #[trigger] fields[k] == w_milestone() {
            let k = choose|k: int| 0 <= k < n && #[trigger] fields[k] == w_milestone();
            if k > 0 {
                assert(tail[k - 1] == w_milestone());
            }
        }
        assert(fields.take(n) =~= seq![fields[0]] + tail.take(n - 1));
        Seq::filter_distributes_over_add(seq![fields[0]], tail.take(n - 1), |f: Seq<char>| is_status_tag(f));
        if is_status_tag(fields[0]) {
            assert(seq![fields[0]].filter(|f: Seq<char>| is_status_tag(f)) =~= seq![fields[0]]) by {
                reveal_with_fuel(Seq::filter, 2);
            }
        } else {
            assert(seq![fields[0]].filter(|f: Seq<char>| is_status_tag(f)) =~= Seq::<Seq<char>>::empty()) by {
                reveal_with_fuel(Seq::filter, 2);
            }
        }
    } else {
        assert(fields.skip(0) =~= fields);
        assert(fields.take(0) =~= Seq::<Seq<char>>::empty());
    }
}

/// A task statement whose first field is `milestone` adds a milestone task.
pub proof fn law_milestone_field_marks_the_task(st: ParseState, line: Seq<char>)
    requires
        split_once_char(line, ':') matches Some((_label, meta)) && trimmed_fields(meta).len() > 0
            && trimmed_fields(meta)[0] == w_milestone(),
        task_step(st, line) is Some,
    ensures
        task_step(st, line)->0.chart.tasks.len() == st.chart.tasks.len() + 1,
        task_step(st, line)->0.chart.tasks.last().milestone,
{
    let (_label, meta) = split_once_char(line, ':')->0;
    law_leading_tags_are_taken_off(trimmed_fields(meta));
}

} // verus!
