//! Calls into `chrono`, `textwrap` and `unicode-width` that the schedule renderer relies on.
//! Terminal column widths are measured with `unicode-width`.
//!
//! Timestamps are whole seconds since 1970-01-01 00:00:00 (naive, no time zone).

use vstd::prelude::*;

use chrono::DateTime;
use chrono::NaiveDate;
use chrono::TimeDelta;
use unicode_width::UnicodeWidthStr;

verus! {

/// Every date that chrono can represent lies within this many seconds of the epoch
/// (chrono's documented range is roughly ±262,000 years).
pub open spec fn timestamp_bound() -> int {
    10_000_000_000_000
}

/// Largest whole number of seconds that `TimeDelta::try_seconds` accepts (`i64::MAX / 1000`).
pub open spec fn max_delta_seconds() -> int {
    9_223_372_036_854_775
}

/// The midnight timestamp of the `%Y-%m-%d` date that `NaiveDate::parse_from_str` reads from `s`.
pub uninterp spec fn chrono_parse_ymd(s: Seq<char>) -> Option<int>;

/// The first second that chrono represents: -262143-01-01 00:00:00 (`NaiveDateTime::MIN`).
pub open spec fn min_timestamp() -> int {
    -8_334_601_315_200
}

/// The last whole second that chrono represents: 262142-12-31 23:59:59 (`NaiveDateTime::MAX`).
pub open spec fn max_timestamp() -> int {
    8_210_266_876_799
}

/// Whether chrono represents the timestamp `t`.
pub open spec fn in_chrono_range(t: int) -> bool {
    min_timestamp() <= t <= max_timestamp()
}

/// The timestamp `t + delta` as `NaiveDateTime::checked_add_signed` computes it: `None` when
/// `t`, `delta` (as a `TimeDelta`) or the sum is out of chrono's range.
pub open spec fn chrono_checked_add(t: int, delta: int) -> Option<int> {
    if in_chrono_range(t) && -max_delta_seconds() <= delta <= max_delta_seconds() && in_chrono_range(t + delta) {
        Some(t + delta)
    } else {
        None
    }
}

/// The text that `NaiveDateTime::format(fmt)` writes for timestamp `t`.
pub uninterp spec fn chrono_format(t: int, fmt: Seq<char>) -> Seq<char>;

/// The lines that `textwrap::wrap(text, width)` produces.
pub uninterp spec fn textwrap_lines(text: Seq<char>, width: int) -> Seq<Seq<char>>;

/// The terminal column count of `s` according to `unicode_width::UnicodeWidthStr::width`.
pub uninterp spec fn display_width(s: Seq<char>) -> int;

/// `NaiveDate::parse_from_str(value, "%Y-%m-%d")` followed by `and_hms_opt(0, 0, 0)`.
/// Claims that the result is the named parse and lies within chrono's range.
#[verifier::external_body]
pub(crate) fn parse_ymd_midnight(value: &[char]) -> (r: Option<i64>)
    ensures
        match r {
            Some(t) => chrono_parse_ymd(value@) == Some(t as int) && -timestamp_bound() <= t
                <= timestamp_bound(),
            None => chrono_parse_ymd(value@) is None,
        },
{
    let text: String = value.iter().collect();
    NaiveDate::parse_from_str(&text, "%Y-%m-%d")
        .ok()
        .and_then(|date| date.and_hms_opt(0, 0, 0))
        .map(|date_time| date_time.and_utc().timestamp())
}

/// `TimeDelta::try_seconds(seconds)`, given back as its number of seconds.
/// Claims chrono's documented bound: `None` exactly beyond `±(i64::MAX / 1000)` seconds.
#[verifier::external_body]
pub(crate) fn try_seconds(seconds: i64) -> (r: Option<i64>)
    ensures
        (-max_delta_seconds() <= seconds <= max_delta_seconds()) ==> r == Some(seconds),
        !(-max_delta_seconds() <= seconds <= max_delta_seconds()) ==> r is None,
{
    TimeDelta::try_seconds(seconds).map(|delta| delta.num_seconds())
}

/// `DateTime::from_timestamp(t, 0)`, then `NaiveDateTime::checked_add_signed` of
/// `TimeDelta::try_seconds(delta)`, on timestamps. Claims chrono's documented ranges: the sum
/// when `t`, `delta` and `t + delta` are all within them (see [`chrono_checked_add`]).
#[verifier::external_body]
pub(crate) fn checked_add_seconds(t: i64, delta: i64) -> (r: Option<i64>)
    ensures
        match r {
            Some(v) => chrono_checked_add(t as int, delta as int) == Some(v as int),
            None => chrono_checked_add(t as int, delta as int) is None,
        },
{
    let base = DateTime::from_timestamp(t, 0)?.naive_utc();
    let delta = TimeDelta::try_seconds(delta)?;
    base.checked_add_signed(delta).map(|date_time| date_time.and_utc().timestamp())
}

/// `NaiveDateTime::format(fmt).to_string()` for timestamp `t`.
/// Claims only that the text is the named result.
#[verifier::external_body]
pub(crate) fn format_timestamp(t: i64, fmt: &[char]) -> (r: Vec<char>)
    requires
        crate::gantt::axis_format_ok(fmt@),
    ensures
        r@ == chrono_format(t as int, fmt@),
{
    let fmt: String = fmt.iter().collect();
    match DateTime::from_timestamp(t, 0) {
        Some(date_time) => date_time.naive_utc().format(&fmt).to_string().chars().collect(),
        None => Vec::new(),
    }
}

/// `textwrap::wrap(text, width)`. Claims only that the lines are the named result.
#[verifier::external_body]
pub(crate) fn wrap_text(text: &[char], width: usize) -> (r: Vec<Vec<char>>)
    requires
        width > 0,
    ensures
        crate::text::views_of(r@) == textwrap_lines(text@, width as int),
{
    let text: String = text.iter().collect();
    textwrap::wrap(&text, width).into_iter().map(|line| line.chars().collect()).collect()
}

/// `UnicodeWidthStr::width`. Claims only that the count is the named result.
#[verifier::external_body]
pub(crate) fn text_width(s: &[char]) -> (r: usize)
    ensures
        r as int == display_width(s@),
{
    let text: String = s.iter().collect();
    text.width()
}

} // verus!
