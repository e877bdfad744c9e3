//! Resolving task start and end dates of a Gantt chart: explicit dates, durations,
//! `after` dependencies, implicit starts after the previous task, and `until` ends.

use vstd::prelude::*;

use crate::calendar::chrono_checked_add;
use crate::calendar::in_chrono_range;
use crate::calendar::chrono_parse_ymd;
use crate::calendar::max_delta_seconds;
use crate::calendar::timestamp_bound;
use crate::calendar::checked_add_seconds;
use crate::calendar::parse_ymd_midnight;
use crate::calendar::try_seconds;
use crate::gantt::Chart;
use crate::gantt::GanttTask;
use crate::gantt::Schedule;
use crate::gantt::TaskModel;
use crate::gantt::opt_chars;
use crate::gantt::task_views;
use crate::text::chars_eq;
use crate::text::copy_range;
use crate::text::has_prefix;
use crate::text::is_whitespace;
use crate::text::trim_chars;
use crate::text::views_of;
use crate::gantt::w_after;
use crate::gantt::w_until;
use crate::text::is_digit;
use crate::text::is_white_space;
use crate::text::starts_with;
use crate::text::trim;

verus! {

// ---------------------------------------------------------------------------
// Field values
// ---------------------------------------------------------------------------

/// `YYYY-MM-DD` shape: ten ASCII characters with dashes at positions 4 and 7.
pub open spec fn date_shape(s: Seq<char>) -> bool {
    &&& s.len() == 10
    &&& forall|i: int| 0 <= i < s.len() ==> (s[i] as u32) < 128
    &&& s[4] == '-'
    &&& s[7] == '-'
}

/// The midnight timestamp that a date field denotes.
pub open spec fn date_value(s: Seq<char>) -> Option<int> {
    if date_shape(s) {
        chrono_parse_ymd(s)
    } else {
        None
    }
}

/// Decimal value of a digit string.
pub open spec fn digits_value(s: Seq<char>) -> int
    decreases s.len(),
{
    if s.len() == 0 {
        0
    } else {
        10 * digits_value(s.drop_last()) + ((s.last() as u32) - ('0' as u32))
    }
}

/// Seconds per duration unit (`s`, `m`, `h`, `d`, `w`).
pub open spec fn unit_seconds(u: Seq<char>) -> Option<int> {
    if u.len() == 1 && u[0] == 's' {
        Some(1)
    } else if u.len() == 1 && u[0] == 'm' {
        Some(60)
    } else if u.len() == 1 && u[0] == 'h' {
        Some(3600)
    } else if u.len() == 1 && u[0] == 'd' {
        Some(86400)
    } else if u.len() == 1 && u[0] == 'w' {
        Some(604800)
    } else {
        None
    }
}

pub open spec fn first_non_digit_at(s: Seq<char>, k: int) -> bool {
    &&& 0 <= k < s.len()
    &&& !is_digit(s[k])
    &&& forall|j: int| 0 <= j < k ==> is_digit(s[j])
}

pub open spec fn i64_max() -> int {
    0x7fff_ffff_ffff_ffff
}

/// End of a task whose end field is a duration such as `3d`, counted from `start`.
pub open spec fn duration_end(e: Seq<char>, start: int) -> Option<int> {
    if exists|k: int| first_non_digit_at(e, k) {
        let k = choose|k: int| first_non_digit_at(e, k);
        let number = e.take(k);
        match unit_seconds(e.skip(k)) {
            None => None,
            Some(m) => {
                if number.len() == 0 || digits_value(number) > i64_max() {
                    None
                } else {
                    let secs = digits_value(number) * m;
                    if secs > i64_max() || secs > max_delta_seconds() {
                        None
                    } else {
                        chrono_checked_add(start, secs)
                    }
                }
            },
        }
    } else {
        None
    }
}

// ---------------------------------------------------------------------------
// Dependency words and ids
// ---------------------------------------------------------------------------

/// Pieces of `s` between whitespace characters.
pub open spec fn ws_pieces(s: Seq<char>) -> Seq<Seq<char>>
    decreases s.len(),
{
    if s.len() == 0 {
        seq![Seq::empty()]
    } else {
        let p = ws_pieces(s.drop_last());
        if is_white_space(s.last()) {
            p.push(Seq::empty())
        } else {
            p.update(p.len() - 1, p.last().push(s.last()))
        }
    }
}

/// The non-empty pieces, in order.
pub open spec fn drop_empty(p: Seq<Seq<char>>) -> Seq<Seq<char>>
    decreases p.len(),
{
    if p.len() == 0 {
        Seq::empty()
    } else {
        let q = drop_empty(p.drop_last());
        if p.last().len() > 0 {
            q.push(p.last())
        } else {
            q
        }
    }
}

/// The whitespace-separated words of `s` (what `str::split_whitespace` yields).
pub open spec fn words(s: Seq<char>) -> Seq<Seq<char>> {
    drop_empty(ws_pieces(s))
}

pub open spec fn first_with_id(tasks: Seq<TaskModel>, id: Seq<char>, k: int) -> bool {
    &&& 0 <= k < tasks.len()
    &&& tasks[k].id == Some(id)
    &&& forall|j: int| 0 <= j < k ==> tasks[j].id != Some(id)
}

/// Position of the first task with the given id.
pub open spec fn task_position(tasks: Seq<TaskModel>, id: Seq<char>) -> Option<int> {
    if exists|k: int| first_with_id(tasks, id, k) {
        Some(choose|k: int| first_with_id(tasks, id, k))
    } else {
        None
    }
}

/// Ids named after `after ` in a start field.
pub open spec fn after_ids(s: Seq<char>) -> Seq<Seq<char>> {
    words(s.skip(6))
}

/// Id named after `until ` in an end field.
pub open spec fn until_id(e: Seq<char>) -> Seq<char> {
    trim(e.skip(6))
}

// ---------------------------------------------------------------------------
// Resolution
// ---------------------------------------------------------------------------

/// Start of task `i`, its dependencies resolved with `fuel` levels of nesting.
pub open spec fn task_start(tasks: Seq<TaskModel>, i: int, fuel: nat) -> Option<int>
    decreases fuel, 2int, 0int,
{
    if !(0 <= i < tasks.len()) {
        None
    } else {
        match tasks[i].start {
            Some(s) => if starts_with(s, w_after()) {
                latest_end(tasks, after_ids(s), fuel)
            } else {
                date_value(s)
            },
            None => if i == 0 {
                None
            } else {
                match resolve_spec(tasks, i - 1, fuel) {
                    Some((_s, e)) => Some(e),
                    None => None,
                }
            },
        }
    }
}

/// Latest end among the tasks named by `ids`; `None` if there is none or one is unresolvable.
pub open spec fn latest_end(tasks: Seq<TaskModel>, ids: Seq<Seq<char>>, fuel: nat) -> Option<int>
    decreases fuel, 1int, ids.len(),
{
    if ids.len() == 0 {
        None
    } else {
        let last_end = match task_position(tasks, ids.last()) {
            None => None,
            Some(p) => match resolve_spec(tasks, p, fuel) {
                Some((_s, e)) => Some(e),
                None => None,
            },
        };
        match last_end {
            None => None,
            Some(e) => if ids.len() == 1 {
                Some(e)
            } else {
                match latest_end(tasks, ids.drop_last(), fuel) {
                    None => None,
                    Some(m) => Some(if m >= e { m } else { e }),
                }
            },
        }
    }
}

/// End of task `i` given its start.
pub open spec fn task_end(tasks: Seq<TaskModel>, i: int, start: int, fuel: nat) -> Option<int>
    decreases fuel, 2int, 0int,
{
    if !(0 <= i < tasks.len()) {
        None
    } else {
        let e = tasks[i].end;
        if starts_with(e, w_until()) {
            match task_position(tasks, until_id(e)) {
                None => None,
                Some(p) => match resolve_spec(tasks, p, fuel) {
                    Some((s, _e)) => Some(s),
                    None => None,
                },
            }
        } else if date_value(e) is Some {
            date_value(e)
        } else {
            duration_end(e, start)
        }
    }
}

/// Start and end of task `i` when its dependency chains are shorter than `fuel`.
pub open spec fn resolve_spec(tasks: Seq<TaskModel>, i: int, fuel: nat) -> Option<(int, int)>
    decreases fuel, 0int, 0int,
{
    if fuel == 0 || !(0 <= i < tasks.len()) {
        None
    } else {
        match task_start(tasks, i, (fuel - 1) as nat) {
            None => None,
            Some(s) => match task_end(tasks, i, s, (fuel - 1) as nat) {
                None => None,
                Some(e) => if e < s {
                    None
                } else {
                    Some((s, e))
                },
            },
        }
    }
}

/// The resolved dates of every task, or `None` when a dependency is missing or circular or a
/// date, duration or ordering is invalid. A chain of dependencies visits each task at most
/// once, so `tasks.len()` levels suffice.
pub open spec fn chart_schedule(tasks: Seq<TaskModel>) -> Option<Seq<(int, int)>> {
    if forall|i: int| 0 <= i < tasks.len() ==> resolve_spec(tasks, i, tasks.len()) is Some {
        Some(Seq::new(tasks.len(), |i: int| resolve_spec(tasks, i, tasks.len())->0))
    } else {
        None
    }
}

/// Task `b` is a dependency that task `a` cannot be resolved without.
pub open spec fn needs(tasks: Seq<TaskModel>, a: int, b: int) -> bool {
    &&& 0 <= a < tasks.len()
    &&& {
        ||| (tasks[a].start matches Some(s) && starts_with(s, w_after()) && exists|k: int|
            0 <= k < after_ids(s).len() && task_position(tasks, after_ids(s)[k]) == Some(b))
        ||| (tasks[a].start is None && a >= 1 && b == a - 1)
        ||| (starts_with(tasks[a].end, w_until()) && task_position(tasks, until_id(tasks[a].end))
            == Some(b))
    }
}


// ---------------------------------------------------------------------------
// Facts about resolution
// ---------------------------------------------------------------------------

proof fn lemma_latest_needs_all(tasks: Seq<TaskModel>, ids: Seq<Seq<char>>, f: nat, k: int)
    requires
        latest_end(tasks, ids, f) is Some,
        0 <= k < ids.len(),
    ensures
        task_position(tasks, ids[k]) is Some,
        resolve_spec(tasks, task_position(tasks, ids[k])->0, f) is Some,
    decreases ids.len(),
{
    if k < ids.len() - 1 {
        assert(ids.drop_last()[k] == ids[k]);
        lemma_latest_needs_all(tasks, ids.drop_last(), f, k);
    }
}

/// A task that resolves has resolvable dependencies, with one level less.
proof fn lemma_needs_resolved(tasks: Seq<TaskModel>, a: int, b: int, f: nat)
    requires
        resolve_spec(tasks, a, f) is Some,
        needs(tasks, a, b),
    ensures
        f >= 1,
        resolve_spec(tasks, b, (f - 1) as nat) is Some,
{
    let g = (f - 1) as nat;
    if tasks[a].start is Some {
        let s = tasks[a].start->0;
        if starts_with(s, w_after()) && exists|k: int|
            0 <= k < after_ids(s).len() && task_position(tasks, after_ids(s)[k]) == Some(b) {
            let k = choose|k: int|
                0 <= k < after_ids(s).len() && task_position(tasks, after_ids(s)[k]) == Some(b);
            assert(task_start(tasks, a, g) == latest_end(tasks, after_ids(s), g));
            lemma_latest_needs_all(tasks, after_ids(s), g, k);
        }
    }
}

/// Latest end with one more level of nesting, where every resolvable task keeps its dates.
proof fn lemma_latest_fuel(tasks: Seq<TaskModel>, ids: Seq<Seq<char>>, g: nat)
    requires
        forall|j: int| #[trigger] resolve_spec(tasks, j, g) is Some ==> resolve_spec(tasks, j, g + 1)
            == resolve_spec(tasks, j, g),
        latest_end(tasks, ids, g) is Some,
    ensures
        latest_end(tasks, ids, g + 1) == latest_end(tasks, ids, g),
    decreases ids.len(),
{
    if ids.len() > 1 {
        lemma_latest_fuel(tasks, ids.drop_last(), g);
    }
    match task_position(tasks, ids.last()) {
        Some(p) => {
            assert(resolve_spec(tasks, p, g) is Some);
        },
        None => {},
    }
}

/// A task that resolves keeps its dates when more nesting is allowed.
proof fn lemma_fuel_mono(tasks: Seq<TaskModel>, g: nat)
    ensures
        forall|j: int| #[trigger] resolve_spec(tasks, j, g) is Some ==> resolve_spec(tasks, j, g + 1)
            == resolve_spec(tasks, j, g),
    decreases g,
{
    if g > 0 {
        let h = (g - 1) as nat;
        lemma_fuel_mono(tasks, h);
        assert forall|j: int| #[trigger] resolve_spec(tasks, j, g) is Some implies resolve_spec(tasks, j, g + 1)
            == resolve_spec(tasks, j, g) by {
            let s = task_start(tasks, j, h)->0;
            match tasks[j].start {
                Some(f) => {
                    if starts_with(f, w_after()) {
                        lemma_latest_fuel(tasks, after_ids(f), h);
                    }
                },
                None => {
                    assert(resolve_spec(tasks, j - 1, h) is Some);
                },
            }
            assert(task_start(tasks, j, g) == task_start(tasks, j, h));
            let e = tasks[j].end;
            if starts_with(e, w_until()) {
                let p = task_position(tasks, until_id(e))->0;
                assert(resolve_spec(tasks, p, h) is Some);
            }
            assert(task_end(tasks, j, s, g) == task_end(tasks, j, s, h));
        }
    }
}

/// A task that needs an unresolvable task is itself unresolvable.
proof fn lemma_needs_unresolvable(tasks: Seq<TaskModel>, a: int, b: int)
    requires
        needs(tasks, a, b),
        resolve_spec(tasks, b, tasks.len()) is None,
    ensures
        resolve_spec(tasks, a, tasks.len()) is None,
{
    if resolve_spec(tasks, a, tasks.len()) is Some {
        lemma_needs_resolved(tasks, a, b, tasks.len());
        let g = (tasks.len() - 1) as nat;
        lemma_fuel_mono(tasks, g);
        assert(resolve_spec(tasks, b, g) is Some);
        assert(g + 1 == tasks.len());
    }
}

/// No task on a dependency cycle resolves, whatever the nesting allowed.
proof fn lemma_cycle_unresolvable(tasks: Seq<TaskModel>, c: Seq<int>, f: nat, k: int)
    requires
        c.len() >= 2,
        c[0] == c.last(),
        forall|j: int| 0 <= j < c.len() - 1 ==> needs(tasks, #[trigger] c[j], c[j + 1]),
        0 <= k < c.len(),
    ensures
        resolve_spec(tasks, c[k], f) is None,
    decreases f,
{
    if resolve_spec(tasks, c[k], f) is Some {
        let next = if k < c.len() - 1 { k + 1 } else { 1 };
        if k < c.len() - 1 {
            assert(needs(tasks, c[k], c[k + 1]));
        } else {
            assert(needs(tasks, c[0], c[1]));
        }
        lemma_needs_resolved(tasks, c[k], c[next], f);
        lemma_cycle_unresolvable(tasks, c, (f - 1) as nat, next);
    }
}


/// A chart whose tasks depend on one another in a circle has no schedule: `c` lists the
/// tasks of the circle, each needing the next, back to the first.
pub proof fn law_dependency_cycle_has_no_schedule(tasks: Seq<TaskModel>, c: Seq<int>)
    requires
        c.len() >= 2,
        c[0] == c.last(),
        forall|j: int| 0 <= j < c.len() - 1 ==> needs(tasks, #[trigger] c[j], c[j + 1]),
    ensures
        chart_schedule(tasks) is None,
{
    assert(needs(tasks, c[0], c[1]));
    lemma_cycle_unresolvable(tasks, c, tasks.len(), 0);
}

/// No scheduled task ends before it starts.
pub proof fn law_scheduled_tasks_do_not_end_before_they_start(tasks: Seq<TaskModel>, i: int)
    requires
        chart_schedule(tasks) is Some,
        0 <= i < tasks.len(),
    ensures
        chart_schedule(tasks)->0[i].0 <= chart_schedule(tasks)->0[i].1,
{
    assert(resolve_spec(tasks, i, tasks.len()) is Some);
}

// ---------------------------------------------------------------------------
// Counting resolved and visited tasks
// ---------------------------------------------------------------------------

pub open spec fn count_some(s: Seq<Option<Schedule>>) -> nat
    decreases s.len(),
{
    if s.len() == 0 {
        0
    } else {
        count_some(s.drop_last()) + if s.last() is Some { 1nat } else { 0nat }
    }
}

pub open spec fn count_false(s: Seq<bool>) -> nat
    decreases s.len(),
{
    if s.len() == 0 {
        0
    } else {
        count_false(s.drop_last()) + if s.last() { 0nat } else { 1nat }
    }
}

proof fn lemma_count_some_bound(s: Seq<Option<Schedule>>, i: int)
    requires
        0 <= i < s.len(),
        s[i] is None,
    ensures
        count_some(s) < s.len(),
    decreases s.len(),
{
    if i < s.len() - 1 {
        lemma_count_some_bound(s.drop_last(), i);
    } else {
        lemma_count_some_le(s.drop_last());
    }
}

proof fn lemma_count_some_le(s: Seq<Option<Schedule>>)
    ensures
        count_some(s) <= s.len(),
    decreases s.len(),
{
    if s.len() > 0 {
        lemma_count_some_le(s.drop_last());
    }
}

proof fn lemma_count_some_update(s: Seq<Option<Schedule>>, i: int, v: Schedule)
    requires
        0 <= i < s.len(),
        s[i] is None,
    ensures
        count_some(s.update(i, Some(v))) == count_some(s) + 1,
    decreases s.len(),
{
    let t = s.update(i, Some(v));
    if i < s.len() - 1 {
        assert(t.drop_last() =~= s.drop_last().update(i, Some(v)));
        lemma_count_some_update(s.drop_last(), i, v);
    } else {
        assert(t.drop_last() =~= s.drop_last());
    }
}

proof fn lemma_count_some_mono(s: Seq<Option<Schedule>>, t: Seq<Option<Schedule>>)
    requires
        s.len() == t.len(),
        forall|j: int| 0 <= j < s.len() && s[j] is Some ==> t[j] == s[j],
    ensures
        count_some(s) <= count_some(t),
    decreases s.len(),
{
    if s.len() > 0 {
        lemma_count_some_mono(s.drop_last(), t.drop_last());
    }
}

proof fn lemma_count_false_update(s: Seq<bool>, i: int)
    requires
        0 <= i < s.len(),
        !s[i],
    ensures
        count_false(s.update(i, true)) + 1 == count_false(s),
    decreases s.len(),
{
    let t = s.update(i, true);
    if i < s.len() - 1 {
        assert(t.drop_last() =~= s.drop_last().update(i, true));
        lemma_count_false_update(s.drop_last(), i);
    } else {
        assert(t.drop_last() =~= s.drop_last());
    }
}

// ---------------------------------------------------------------------------
// Field evaluation
// ---------------------------------------------------------------------------

/// `str::split_whitespace` on a character sequence.
pub fn split_words(s: &[char]) -> (r: Vec<Vec<char>>)
    ensures
        views_of(r@) == words(s@),
{
    let mut done: Vec<Vec<char>> = Vec::new();
    let mut cur: Vec<char> = Vec::new();
    let mut i: usize = 0;
    while i < s.len()
        invariant
            i <= s@.len(),
            ws_pieces(s@.take(i as int)).len() >= 1,
            ws_pieces(s@.take(i as int)).last() == cur@,
            views_of(done@) == drop_empty(ws_pieces(s@.take(i as int)).drop_last()),
        decreases s@.len() - i,
    {
        let ghost prev = s@.take(i as int);
        let ghost p = ws_pieces(prev);
        assert(s@.take(i + 1).drop_last() =~= prev);
        if is_whitespace(s[i]) {
            let ghost np = p.push(Seq::empty());
            assert(np.drop_last() =~= p);
            if cur.len() > 0 {
                let ghost before = views_of(done@);
                let ghost cv = cur@;
                done.push(cur);
                assert(views_of(done@) =~= before.push(cv));
            }
            cur = Vec::new();
            assert(cur@ =~= Seq::<char>::empty());
        } else {
            let ghost np = p.update(p.len() - 1, p.last().push(s@[i as int]));
            assert(np.drop_last() =~= p.drop_last());
            cur.push(s[i]);
        }
        i += 1;
    }
    assert(s@.take(s@.len() as int) =~= s@);
    if cur.len() > 0 {
        let ghost before = views_of(done@);
        let ghost cv = cur@;
        done.push(cur);
        assert(views_of(done@) =~= before.push(cv));
    }
    done
}

/// Position of the first task with the given id.
pub fn task_index_of(tasks: &Vec<GanttTask>, id: &[char]) -> (r: Option<usize>)
    ensures
        match r {
            Some(k) => task_position(task_views(tasks@), id@) == Some(k as int),
            None => task_position(task_views(tasks@), id@) is None,
        },
{
    let ghost tv = task_views(tasks@);
    let mut k: usize = 0;
    while k < tasks.len()
        invariant
            k <= tasks@.len(),
            tv == task_views(tasks@),
            forall|j: int| 0 <= j < k ==> tv[j].id != Some(id@),
        decreases tasks@.len() - k,
    {
        let matches = match &tasks[k].id {
            Some(own) => chars_eq(own, id),
            None => false,
        };
        if matches {
            assert(first_with_id(tv, id@, k as int));
            proof {
                let c = choose|c: int| first_with_id(tv, id@, c);
                assert(c == k as int) by {
                    if c < k { } else if c > k { }
                }
            }
            return Some(k);
        }
        assert(tv[k as int].id == opt_chars(tasks@[k as int].id));
        k += 1;
    }
    None
}

/// The timestamp of a `YYYY-MM-DD` field.
pub fn parse_date_field(s: &[char]) -> (r: Option<i64>)
    ensures
        match r {
            Some(t) => date_value(s@) == Some(t as int) && -timestamp_bound() <= t <= timestamp_bound(),
            None => date_value(s@) is None,
        },
{
    if s.len() != 10 || s[4] != '-' || s[7] != '-' {
        return None;
    }
    let mut i: usize = 0;
    while i < s.len()
        invariant
            i <= s@.len(),
            forall|j: int| 0 <= j < i ==> (s@[j] as u32) < 128,
        decreases s@.len() - i,
    {
        if (s[i] as u32) >= 128 {
            return None;
        }
        i += 1;
    }
    // Any non-ASCII text fails chrono's `%Y-%m-%d` reading as well.
    parse_ymd_midnight(s)
}

proof fn lemma_digits_prefix_le(s: Seq<char>, k: int)
    requires
        0 <= k <= s.len(),
        forall|j: int| 0 <= j < s.len() ==> is_digit(s[j]),
    ensures
        0 <= digits_value(s.take(k)) <= digits_value(s),
    decreases s.len(),
{
    if k < s.len() {
        assert(s.drop_last().take(k) =~= s.take(k));
        lemma_digits_prefix_le(s.drop_last(), k);
    } else {
        assert(s.take(k) =~= s);
    }
    if s.len() > 0 {
        lemma_digits_prefix_le(s.drop_last(), s.len() - 1);
        assert(s.drop_last().take(s.len() - 1) =~= s.drop_last());
    }
}

/// `str::parse::<i64>` on a string of ASCII digits.
fn parse_digits(s: &[char]) -> (r: Option<i64>)
    requires
        forall|j: int| 0 <= j < s@.len() ==> is_digit(s@[j]),
    ensures
        match r {
            Some(v) => s@.len() > 0 && digits_value(s@) == v as int && v >= 0,
            None => s@.len() == 0 || digits_value(s@) > i64_max(),
        },
{
    if s.len() == 0 {
        return None;
    }
    let mut acc: u128 = 0;
    let mut i: usize = 0;
    while i < s.len()
        invariant
            i <= s@.len(),
            forall|j: int| 0 <= j < s@.len() ==> is_digit(s@[j]),
            acc as int == digits_value(s@.take(i as int)),
            acc <= i64_max(),
        decreases s@.len() - i,
    {
        assert(s@.take(i + 1).drop_last() =~= s@.take(i as int));
        let d = (s[i] as u32) - ('0' as u32);
        let next = acc * 10 + (d as u128);
        if next > 0x7fff_ffff_ffff_ffff {
            proof { lemma_digits_prefix_le(s@, i + 1); }
            return None;
        }
        acc = next;
        i += 1;
    }
    assert(s@.take(s@.len() as int) =~= s@);
    Some(acc as i64)
}

/// The end of a task whose end field is a duration, counted from `start`.
pub fn duration_field_end(e: &[char], start: i64) -> (r: Option<i64>)
    ensures
        match r {
            Some(t) => duration_end(e@, start as int) == Some(t as int) && -timestamp_bound() <= t
                <= timestamp_bound(),
            None => duration_end(e@, start as int) is None,
        },
{
    let mut k: usize = 0;
    while k < e.len() && '0' <= e[k] && e[k] <= '9'
        invariant
            k <= e@.len(),
            forall|j: int| 0 <= j < k ==> is_digit(e@[j]),
        decreases e@.len() - k,
    {
        k += 1;
    }
    if k == e.len() {
        assert(!exists|c: int| first_non_digit_at(e@, c));
        return None;
    }
    assert(first_non_digit_at(e@, k as int));
    proof {
        let c = choose|c: int| first_non_digit_at(e@, c);
        assert(c == k as int) by {
            if c < k { } else if c > k { }
        }
    }
    let number = copy_range(e, 0, k);
    assert(number@ =~= e@.take(k as int));
    let unit_len = e.len() - k;
    let ghost unit = e@.skip(k as int);
    let multiplier: i64 = if unit_len == 1 && e[k] == 's' {
        assert(unit =~= seq!['s']);
        assert(unit_seconds(unit) == Some(1int));
        1
    } else if unit_len == 1 && e[k] == 'm' {
        assert(unit =~= seq!['m']);
        assert(unit_seconds(unit) == Some(60int));
        60
    } else if unit_len == 1 && e[k] == 'h' {
        assert(unit =~= seq!['h']);
        assert(unit_seconds(unit) == Some(3600int));
        3600
    } else if unit_len == 1 && e[k] == 'd' {
        assert(unit =~= seq!['d']);
        assert(unit_seconds(unit) == Some(86400int));
        86400
    } else if unit_len == 1 && e[k] == 'w' {
        assert(unit =~= seq!['w']);
        assert(unit_seconds(unit) == Some(604800int));
        604800
    } else {
        proof {
            if unit.len() == 1 {
                assert(unit[0] == e@[k as int]);
            }
        }
        assert(unit_seconds(unit) is None);
        return None;
    };
    assert(unit_seconds(unit) == Some(multiplier as int));
    let value = match parse_digits(&number) {
        Some(v) => v,
        None => return None,
    };
    assert(value as int * multiplier as int >= 0) by (nonlinear_arith)
        requires
            value >= 0,
            multiplier > 0,
    ;
    let secs = match value.checked_mul(multiplier) {
        Some(v) => v,
        None => {
            assert(value as int * multiplier as int > i64_max());
            return None;
        },
    };
    let delta = match try_seconds(secs) {
        Some(d) => d,
        None => return None,
    };
    checked_add_seconds(start, delta)
}


// ---------------------------------------------------------------------------
// Resolution: implementation
// ---------------------------------------------------------------------------

pub open spec fn schedule_bounded(v: Schedule) -> bool {
    &&& -timestamp_bound() <= v.start <= timestamp_bound()
    &&& -timestamp_bound() <= v.end <= timestamp_bound()
}

pub open spec fn sched_pair(v: Schedule) -> (int, int) {
    (v.start as int, v.end as int)
}

/// Every memoized schedule is what the spec resolves with at least as many levels as there are
/// memoized tasks.
pub open spec fn memo_ok(tasks: Seq<TaskModel>, resolved: Seq<Option<Schedule>>) -> bool {
    &&& resolved.len() == tasks.len()
    &&& forall|j: int| 0 <= j < resolved.len() && resolved[j] is Some ==> schedule_bounded(#[trigger] resolved[j]->0)
    &&& forall|j: int, f: nat|
        #![trigger resolve_spec(tasks, j, f)]
        0 <= j < resolved.len() && resolved[j] is Some && f >= count_some(resolved)
            ==> resolve_spec(tasks, j, f) == Some(sched_pair(resolved[j]->0))
}

/// The tasks being resolved form a dependency chain ending at `index`.
pub open spec fn stack_ok(tasks: Seq<TaskModel>, visiting: Seq<bool>, stack: Seq<int>, index: int) -> bool {
    &&& stack_shape(tasks, visiting, stack)
    &&& chain_to(tasks, stack, index)
}

/// Visited tasks are exactly the stack, and each stack entry needs the next.
pub open spec fn stack_shape(tasks: Seq<TaskModel>, visiting: Seq<bool>, stack: Seq<int>) -> bool {
    &&& visiting.len() == tasks.len()
    &&& forall|j: int| 0 <= j < visiting.len() ==> (visiting[j] <==> stack.contains(j))
    &&& forall|k: int| 0 <= k < stack.len() ==> 0 <= #[trigger] stack[k] < tasks.len()
    &&& forall|k: int| 0 <= k < stack.len() - 1 ==> needs(tasks, #[trigger] stack[k], stack[k + 1])
}

pub open spec fn chain_to(tasks: Seq<TaskModel>, stack: Seq<int>, index: int) -> bool {
    stack.len() > 0 ==> needs(tasks, stack.last(), index)
}

pub open spec fn kept(old_resolved: Seq<Option<Schedule>>, resolved: Seq<Option<Schedule>>) -> bool {
    &&& old_resolved.len() == resolved.len()
    &&& forall|j: int| 0 <= j < old_resolved.len() && old_resolved[j] is Some ==> resolved[j] == old_resolved[j]
}


proof fn lemma_kept_count(a: Seq<Option<Schedule>>, b: Seq<Option<Schedule>>)
    requires
        kept(a, b),
    ensures
        count_some(a) <= count_some(b),
{
    lemma_count_some_mono(a, b);
}

/// A task whose own fields fail from some level on does not resolve with `tasks.len()` levels.
proof fn lemma_local_failure(tasks: Seq<TaskModel>, index: int, c: nat)
    requires
        0 <= index < tasks.len(),
        c < tasks.len(),
        forall|f: nat| f >= c ==> #[trigger] resolve_spec(tasks, index, f + 1) is None,
    ensures
        resolve_spec(tasks, index, tasks.len()) is None,
{
    assert(resolve_spec(tasks, index, ((tasks.len() - 1) as nat + 1) as nat) is None);
    assert(((tasks.len() - 1) as nat + 1) as nat == tasks.len());
}

impl Chart {
    /// Resolves task `index`: a memoized schedule is returned as it is; a task already being
    /// resolved (a dependency cycle) gives `None`; otherwise its start and end are computed
    /// from its fields and dependencies, memoized and returned. `None` exactly when the task
    /// itself cannot be resolved.
    #[verifier::rlimit(60)]
    fn resolve(
        &self,
        index: usize,
        resolved: &mut Vec<Option<Schedule>>,
        visiting: &mut Vec<bool>,
        Ghost(stack): Ghost<Seq<int>>,
        Ghost(fuel): Ghost<nat>,
    ) -> (r: Option<Schedule>)
        requires
            index < self.tasks@.len(),
            count_false(old(visiting)@) <= fuel,
            memo_ok(task_views(self.tasks@), old(resolved)@),
            stack_ok(task_views(self.tasks@), old(visiting)@, stack, index as int),
        ensures
            kept(old(resolved)@, final(resolved)@),
            old(resolved)@[index as int] is Some ==> r == old(resolved)@[index as int]
                && final(resolved)@ == old(resolved)@ && final(visiting)@ == old(visiting)@,
            old(resolved)@[index as int] is None && old(visiting)@[index as int] ==> r is None,
            match r {
                Some(v) => {
                    &&& final(resolved)@[index as int] == Some(v)
                    &&& v.start <= v.end
                    &&& resolve_spec(task_views(self.tasks@), index as int, self.tasks@.len())
                        == Some(sched_pair(v))
                    &&& memo_ok(task_views(self.tasks@), final(resolved)@)
                    &&& final(visiting)@ == old(visiting)@
                    &&& forall|j: int| 0 <= j < old(visiting)@.len() && old(visiting)@[j]
                        ==> final(resolved)@[j] == old(resolved)@[j]
                },
                None => resolve_spec(task_views(self.tasks@), index as int, self.tasks@.len()) is None,
            },
        decreases fuel,
    {
        let ghost tasks = task_views(self.tasks@);
        let ghost n = tasks.len();
        if let Some(v) = resolved[index] {
            assert(kept(old(resolved)@, resolved@));
            proof {
                lemma_count_some_le(resolved@);
                assert(resolve_spec(tasks, index as int, n) == Some(sched_pair(v)));
            }
            return Some(v);
        }
        if visiting[index] {
            proof {
                let p = choose|p: int| 0 <= p < stack.len() && stack[p] == index as int;
                let cyc = stack.skip(p).push(index as int);
                assert forall|j: int| 0 <= j < cyc.len() - 1 implies needs(tasks, #[trigger] cyc[j], cyc[j + 1]) by {
                    if j < cyc.len() - 2 {
                        assert(cyc[j] == stack[p + j]);
                        assert(cyc[j + 1] == stack[p + j + 1]);
                    } else {
                        assert(cyc[j] == stack.last());
                    }
                }
                lemma_cycle_unresolvable(tasks, cyc, n, 0);
                assert(cyc[0] == index as int);
            }
            return None;
        }
        let ghost res0 = resolved@;
        let ghost vis0 = visiting@;
        proof { lemma_count_false_update(vis0, index as int); }
        visiting.set(index, true);
        let ghost inner = stack.push(index as int);
        proof {
            assert forall|j: int| 0 <= j < visiting@.len() implies (visiting@[j] <==> inner.contains(j)) by {
                if j == index as int {
                    assert(inner[inner.len() - 1] == j);
                } else {
                    if stack.contains(j) {
                        let q = choose|q: int| 0 <= q < stack.len() && stack[q] == j;
                        assert(inner[q] == j);
                    }
                    if inner.contains(j) {
                        let q = choose|q: int| 0 <= q < inner.len() && inner[q] == j;
                        assert(stack[q] == j);
                    }
                }
            }
            assert forall|q: int| 0 <= q < inner.len() - 1 implies needs(tasks, #[trigger] inner[q], inner[q + 1]) by {
                if q < inner.len() - 2 {
                    assert(inner[q] == stack[q]);
                    assert(inner[q + 1] == stack[q + 1]);
                } else {
                    assert(inner[q] == stack.last());
                }
            }
        }
        let task = &self.tasks[index];
        assert(tasks[index as int] == task@);
        // ---- start ----
        let start: i64;
        let mut after = false;
        match &task.start {
            Some(field) => {
                let after_word: [char; 6] = ['a', 'f', 't', 'e', 'r', ' '];
                let aw: &[char] = &after_word;
                assert(aw@ =~= w_after());
                after = has_prefix(field, aw);
            },
            None => {},
        }
        if after {
            let field = match &task.start {
                Some(field) => field,
                None => { return None; },
            };
            let tail = copy_range(field, 6, field.len());
            assert(tail@ =~= field@.skip(6));
            let ids = split_words(&tail);
            let ghost idv = views_of(ids@);
            assert(idv == after_ids(field@));
            let mut latest: Option<i64> = None;
            let mut k: usize = 0;
            while k < ids.len()
                invariant
                    tasks == task_views(self.tasks@),
                    n == tasks.len(),
                    index < n,
                    idv == views_of(ids@),
                    idv == after_ids(field@),
                    tasks[index as int].start == Some(field@),
                    starts_with(field@, w_after()),
                    k <= ids@.len(),
                    (k == 0) == (latest is None),
                latest is Some ==> -timestamp_bound() <= latest->0 <= timestamp_bound(),
                    memo_ok(tasks, resolved@),
                    kept(res0, resolved@),
                    res0 == old(resolved)@,
                    res0[index as int] is None,
                    resolved@[index as int] is None,
                    resolved@.len() == n,
                    visiting@ == vis0.update(index as int, true),
                    forall|j: int| 0 <= j < n && vis0[j] ==> resolved@[j] == res0[j],
                    stack_ok(tasks, vis0, stack, index as int),
                    stack_shape(tasks, visiting@, inner),
                    inner.last() == index as int,
                    count_false(visiting@) < count_false(vis0),
                    count_false(vis0) <= fuel,
                    forall|f: nat| #![trigger latest_end(tasks, idv.take(k as int), f)]
                        f >= count_some(resolved@) && k > 0
                            ==> latest_end(tasks, idv.take(k as int), f) == Some(latest->0 as int),
                decreases ids@.len() - k,
            {
                let dep = match task_index_of(&self.tasks, &ids[k]) {
                    Some(p) => p,
                    None => {
                        proof {
                            assert forall|f: nat| f >= count_some(resolved@) implies #[trigger] resolve_spec(tasks, index as int, f + 1) is None by {
                                if latest_end(tasks, idv, f) is Some {
                                    lemma_latest_needs_all(tasks, idv, f, k as int);
                                }
                            }
                            lemma_count_some_bound(resolved@, index as int);
                            lemma_local_failure(tasks, index as int, count_some(resolved@));
                        }
                        return None;
                    },
                };
                assert(needs(tasks, index as int, dep as int));
                assert(chain_to(tasks, inner, dep as int));
                let ghost before = resolved@;
                let v = match self.resolve(dep, resolved, visiting, Ghost(inner), Ghost((fuel - 1) as nat)) {
                    Some(v) => v,
                    None => {
                        proof { lemma_needs_unresolvable(tasks, index as int, dep as int); }
                        return None;
                    },
                };
                proof { lemma_kept_count(before, resolved@); }
                let ghost kk = k as int;
                assert(idv.take(kk + 1).drop_last() =~= idv.take(kk));
                assert(idv.take(kk + 1).last() == idv[kk]);
                let e = v.end;
                latest = Some(match latest {
                    None => e,
                    Some(m) => if m >= e { m } else { e },
                });
                proof {
                    assert forall|f: nat| #![trigger latest_end(tasks, idv.take(kk + 1), f)] f >= count_some(resolved@)
                        implies latest_end(tasks, idv.take(kk + 1), f) == Some(latest->0 as int) by {
                        assert(resolve_spec(tasks, dep as int, f) == Some(sched_pair(v)));
                        if kk > 0 {
                            assert(latest_end(tasks, idv.take(kk), f) is Some);
                        }
                    }
                }
                k += 1;
            }
            assert(idv.take(ids@.len() as int) =~= idv);
            match latest {
                Some(m) => start = m,
                None => {
                    proof {
                        assert forall|f: nat| f >= count_some(resolved@) implies #[trigger] resolve_spec(tasks, index as int, f + 1) is None by {
                            assert(task_start(tasks, index as int, f) is None);
                        }
                        lemma_count_some_bound(resolved@, index as int);
                        lemma_local_failure(tasks, index as int, count_some(resolved@));
                    }
                    return None;
                },
            }
            assert forall|f: nat| f >= count_some(resolved@) implies #[trigger] task_start(tasks, index as int, f) == Some(start as int) by {
                assert(latest_end(tasks, idv.take(ids@.len() as int), f) == Some(start as int));
            }
        } else if task.start.is_some() {
            let field = match &task.start {
                Some(field) => field,
                None => { return None; },
            };
            start = match parse_date_field(field) {
                Some(t) => t,
                None => {
                    proof {
                        assert forall|f: nat| f >= count_some(resolved@) implies #[trigger] resolve_spec(tasks, index as int, f + 1) is None by {
                            assert(task_start(tasks, index as int, f) is None);
                        }
                        lemma_count_some_bound(resolved@, index as int);
                        lemma_local_failure(tasks, index as int, count_some(resolved@));
                    }
                    return None;
                },
            };
            assert(forall|f: nat| f >= count_some(resolved@) ==> #[trigger] task_start(tasks, index as int, f) == Some(start as int));
        } else {
            if index == 0 {
                proof {
                    assert forall|f: nat| f >= count_some(resolved@) implies #[trigger] resolve_spec(tasks, index as int, f + 1) is None by {
                        assert(task_start(tasks, index as int, f) is None);
                    }
                    lemma_count_some_bound(resolved@, index as int);
                    lemma_local_failure(tasks, index as int, count_some(resolved@));
                }
                return None;
            }
            let dep = index - 1;
            assert(needs(tasks, index as int, dep as int));
            assert(chain_to(tasks, inner, dep as int));
            let ghost before = resolved@;
            let v = match self.resolve(dep, resolved, visiting, Ghost(inner), Ghost((fuel - 1) as nat)) {
                Some(v) => v,
                None => {
                    proof { lemma_needs_unresolvable(tasks, index as int, dep as int); }
                    return None;
                },
            };
            proof { lemma_kept_count(before, resolved@); }
            start = v.end;
            assert forall|f: nat| f >= count_some(resolved@) implies #[trigger] task_start(tasks, index as int, f) == Some(start as int) by {
                assert(resolve_spec(tasks, dep as int, f) == Some(sched_pair(v)));
            }
        }
        // ---- end ----
        assert(resolved@[index as int] is None);
        assert(visiting@ == vis0.update(index as int, true));
        let end: i64;
        let until_word: [char; 6] = ['u', 'n', 't', 'i', 'l', ' '];
        let uw: &[char] = &until_word;
        assert(uw@ =~= w_until());
        if has_prefix(&task.end, uw) {
            let tail = copy_range(&task.end, 6, task.end.len());
            let id = trim_chars(&tail);
            assert(tail@ =~= task.end@.skip(6));
            let dep = match task_index_of(&self.tasks, &id) {
                Some(p) => p,
                None => {
                    proof {
                        assert forall|f: nat| f >= count_some(resolved@) implies #[trigger] resolve_spec(tasks, index as int, f + 1) is None by {
                            assert(task_start(tasks, index as int, f) == Some(start as int));
                            assert(task_end(tasks, index as int, start as int, f) is None);
                        }
                        lemma_count_some_bound(resolved@, index as int);
                        lemma_local_failure(tasks, index as int, count_some(resolved@));
                    }
                    return None;
                },
            };
            assert(needs(tasks, index as int, dep as int));
            assert(chain_to(tasks, inner, dep as int));
            let ghost before = resolved@;
            let v = match self.resolve(dep, resolved, visiting, Ghost(inner), Ghost((fuel - 1) as nat)) {
                Some(v) => v,
                None => {
                    proof { lemma_needs_unresolvable(tasks, index as int, dep as int); }
                    return None;
                },
            };
            proof { lemma_kept_count(before, resolved@); }
            end = v.start;
            assert forall|f: nat| f >= count_some(resolved@) implies #[trigger] task_end(tasks, index as int, start as int, f) == Some(end as int) by {
                assert(resolve_spec(tasks, dep as int, f) == Some(sched_pair(v)));
            }
        } else {
            match parse_date_field(&task.end) {
                Some(t) => {
                    end = t;
                },
                None => {
                    end = match duration_field_end(&task.end, start) {
                        Some(t) => t,
                        None => {
                            proof {
                                assert forall|f: nat| f >= count_some(resolved@) implies #[trigger] resolve_spec(tasks, index as int, f + 1) is None by {
                                    assert(task_start(tasks, index as int, f) == Some(start as int));
                                    assert(task_end(tasks, index as int, start as int, f) is None);
                                }
                                lemma_count_some_bound(resolved@, index as int);
                                lemma_local_failure(tasks, index as int, count_some(resolved@));
                            }
                            return None;
                        },
                    };
                },
            }
        }
        assert(forall|f: nat| f >= count_some(resolved@) ==> #[trigger] task_end(tasks, index as int, start as int, f) == Some(end as int));
        if end < start {
            proof {
                assert forall|f: nat| f >= count_some(resolved@) implies #[trigger] resolve_spec(tasks, index as int, f + 1) is None by {
                    assert(task_start(tasks, index as int, f) == Some(start as int));
                    assert(task_end(tasks, index as int, start as int, f) == Some(end as int));
                }
                lemma_count_some_bound(resolved@, index as int);
                lemma_local_failure(tasks, index as int, count_some(resolved@));
            }
            return None;
        }
        let schedule = Schedule { start, end };
        let ghost before = resolved@;
        let ghost c_before = count_some(before);
        proof { lemma_count_some_update(before, index as int, schedule); }
        resolved.set(index, Some(schedule));
        assert(resolved@ == before.update(index as int, Some(schedule)));
        assert forall|j: int, f: nat| #![trigger resolve_spec(tasks, j, f)]
            0 <= j < resolved@.len() && resolved@[j] is Some && f >= count_some(resolved@)
            implies resolve_spec(tasks, j, f) == Some(sched_pair(resolved@[j]->0)) by {
            if j == index as int {
                let g = (f - 1) as nat;
                assert(g >= c_before);
                assert(task_start(tasks, index as int, g) == Some(start as int));
                assert(task_end(tasks, index as int, start as int, g) == Some(end as int));
                assert(f == g + 1);
            } else {
                assert(before[j] is Some);
            }
        }
        visiting.set(index, false);
        assert(visiting@ =~= vis0);
        proof {
            lemma_count_some_le(resolved@);
            assert(resolve_spec(tasks, index as int, n) == Some(sched_pair(schedule)));
        }
        Some(schedule)
    }

    /// Start and end of every task, in task order; `None` when a dependency is missing or
    /// circular, or a date, duration or order is invalid.
    pub fn schedule(&self) -> (r: Option<Vec<Schedule>>)
        ensures
            match r {
                Some(v) => {
                    &&& chart_schedule(task_views(self.tasks@)) == Some(
                        Seq::new(v@.len(), |i: int| sched_pair(v@[i])),
                    )
                    &&& forall|i: int| 0 <= i < v@.len() ==> schedule_bounded(#[trigger] v@[i])
                },
                None => chart_schedule(task_views(self.tasks@)) is None,
            },
    {
        let ghost tasks = task_views(self.tasks@);
        let n = self.tasks.len();
        let mut resolved: Vec<Option<Schedule>> = vec![None; n];
        let mut visiting: Vec<bool> = vec![false; n];
        proof { lemma_count_false_le(visiting@); }
        let mut index: usize = 0;
        while index < n
            invariant
                n == self.tasks@.len(),
                tasks == task_views(self.tasks@),
                index <= n,
                resolved@.len() == n,
                visiting@.len() == n,
                forall|j: int| 0 <= j < n ==> !visiting@[j],
                count_false(visiting@) <= n,
                memo_ok(tasks, resolved@),
                forall|j: int| 0 <= j < index ==> resolved@[j] is Some,
            decreases n - index,
        {
            assert(stack_ok(tasks, visiting@, Seq::<int>::empty(), index as int));
            let ghost before = resolved@;
            match self.resolve(index, &mut resolved, &mut visiting, Ghost(Seq::empty()), Ghost(n as nat)) {
                Some(_) => {},
                None => {
                    assert(!(forall|i: int| 0 <= i < tasks.len() ==> resolve_spec(tasks, i, tasks.len()) is Some));
                    return None;
                },
            }
            assert(forall|j: int| 0 <= j < index ==> before[j] is Some);
            index += 1;
        }
        proof { lemma_count_some_le(resolved@); }
        let mut out: Vec<Schedule> = Vec::new();
        let mut j: usize = 0;
        while j < n
            invariant
                n == self.tasks@.len(),
                tasks == task_views(self.tasks@),
                j <= n,
                resolved@.len() == n,
                forall|i: int| 0 <= i < n ==> resolved@[i] is Some,
                count_some(resolved@) <= n,
                memo_ok(tasks, resolved@),
                out@.len() == j,
                forall|i: int| 0 <= i < j ==> schedule_bounded(#[trigger] out@[i]),
                forall|i: int| 0 <= i < j ==> resolve_spec(tasks, i, n as nat) == Some(sched_pair(#[trigger] out@[i])),
            decreases n - j,
        {
            let v = match resolved[j] {
                Some(v) => v,
                None => return None,
            };
            assert(resolve_spec(tasks, j as int, n as nat) == Some(sched_pair(resolved@[j as int]->0)));
            out.push(v);
            j += 1;
        }
        assert(forall|i: int| 0 <= i < tasks.len() ==> resolve_spec(tasks, i, tasks.len()) is Some);
        assert(Seq::new(tasks.len(), |i: int| resolve_spec(tasks, i, tasks.len())->0)
            =~= Seq::new(out@.len(), |i: int| sched_pair(out@[i])));
        Some(out)
    }
}

proof fn lemma_count_false_le(s: Seq<bool>)
    ensures
        count_false(s) <= s.len(),
    decreases s.len(),
{
    if s.len() > 0 {
        lemma_count_false_le(s.drop_last());
    }
}

/// A duration field — decimal digits then one unit letter — ends its task that many seconds
/// (`s`), minutes (`m`, 60 s), hours (`h`, 3600 s), days (`d`, 86400 s) or weeks (`w`,
/// 604800 s) after its start, whenever chrono represents the start and the end.
pub proof fn law_duration_units(digits: Seq<char>, unit: char, per_unit: int, start: int)
    requires
        digits.len() > 0,
        forall|i: int| 0 <= i < digits.len() ==> is_digit(#[trigger] digits[i]),
        (unit == 's' && per_unit == 1) || (unit == 'm' && per_unit == 60) || (unit == 'h' && per_unit == 3600)
            || (unit == 'd' && per_unit == 86400) || (unit == 'w' && per_unit == 604800),
        digits_value(digits) * per_unit <= max_delta_seconds(),
        in_chrono_range(start),
        in_chrono_range(start + digits_value(digits) * per_unit),
    ensures
        duration_end(digits.push(unit), start) == Some(start + digits_value(digits) * per_unit),
{
    let e = digits.push(unit);
    let k = digits.len() as int;
    assert(first_non_digit_at(e, k));
    let c = choose|c: int| first_non_digit_at(e, c);
    assert(c == k) by {
        if c < k {
            assert(is_digit(e[c]));
        } else if c > k {
            assert(is_digit(e[k]));
        }
    }
    assert(e.take(k) =~= digits);
    assert(e.skip(k) =~= seq![unit]);
    lemma_digits_value_nonneg(digits);
    assert(digits_value(digits) <= digits_value(digits) * per_unit) by (nonlinear_arith)
        requires
            digits_value(digits) >= 0,
            per_unit >= 1,
    ;
}


/// A duration field whose unit is not one of `s`, `m`, `h`, `d`, `w` gives no end.
pub proof fn law_unknown_duration_unit_is_refused(digits: Seq<char>, unit: char, start: int)
    requires
        forall|i: int| 0 <= i < digits.len() ==> is_digit(#[trigger] digits[i]),
        !is_digit(unit),
        unit != 's' && unit != 'm' && unit != 'h' && unit != 'd' && unit != 'w',
    ensures
        duration_end(digits.push(unit), start) is None,
{
    let e = digits.push(unit);
    let k = digits.len() as int;
    assert(first_non_digit_at(e, k));
    let c = choose|c: int| first_non_digit_at(e, c);
    assert(c == k) by {
        if c < k {
            assert(is_digit(e[c]));
        } else if c > k {
            assert(is_digit(e[k]));
        }
    }
    assert(e.skip(k) =~= seq![unit]);
}

proof fn lemma_digits_value_nonneg(s: Seq<char>)
    requires
        forall|i: int| 0 <= i < s.len() ==> is_digit(#[trigger] s[i]),
    ensures
        digits_value(s) >= 0,
    decreases s.len(),
{
    if s.len() > 0 {
        lemma_digits_value_nonneg(s.drop_last());
        assert(is_digit(s[s.len() - 1]));
    }
}

} // verus!
