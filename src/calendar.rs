//! Calendar days as whole-day counts since 1970-01-01 (UTC), and the two
//! conversions that need a real calendar: reading a `YYYY-MM-DD` date and
//! writing a day back out in that form.
use vstd::arithmetic::div_mod::{lemma_fundamental_div_mod, lemma_mod_bound};
use vstd::prelude::*;

verus! {

/// Seconds in one UTC calendar day.
pub const SECONDS_PER_DAY: i64 = 86400;

/// The earliest day the calendar can represent (-262143-01-01).
pub const MIN_DAY: i64 = -96465292;

/// The latest day the calendar can represent (262142-12-31).
pub const MAX_DAY: i64 = 95026236;

/// The UTC calendar day on which the instant `ts` (seconds since the epoch) falls.
/// Verus's `/` on `int` rounds toward negative infinity for a positive divisor,
/// so instants before the epoch land on the right (earlier) day.
pub open spec fn day_of(ts: int) -> int {
    ts / (SECONDS_PER_DAY as int)
}

/// The first instant (midnight UTC) of `day`.
pub open spec fn midnight_of(day: int) -> int {
    day * (SECONDS_PER_DAY as int)
}

/// Whether `day` lies in the range the calendar can represent.
pub open spec fn day_in_calendar(day: int) -> bool {
    MIN_DAY <= day <= MAX_DAY
}

/// The day a `YYYY-MM-DD` text names, if it names one.
pub uninterp spec fn epoch_day_of_date(text: Seq<char>) -> Option<int>;

/// The `YYYY-MM-DD` text of a day.
pub uninterp spec fn iso_date_of(day: int) -> Seq<char>;

/// Every instant lies in its day: at or after that day's midnight and
/// before the next one.
pub proof fn lemma_instant_in_day(ts: int)
    ensures
        midnight_of(day_of(ts)) <= ts < midnight_of(day_of(ts)) + SECONDS_PER_DAY,
{
    lemma_fundamental_div_mod(ts, SECONDS_PER_DAY as int);
    lemma_mod_bound(ts, SECONDS_PER_DAY as int);
}

/// An instant is at or after the midnight of `day` exactly when its own day
/// is `day` or later.
pub proof fn lemma_after_midnight(ts: int, day: int)
    ensures
        (midnight_of(day) <= ts) == (day <= day_of(ts)),
{
    lemma_instant_in_day(ts);
}

/// The day of any `i64` instant is far from the ends of `i64`.
pub proof fn lemma_day_of_i64(ts: i64)
    ensures
        -200000000000000 <= day_of(ts as int) <= 200000000000000,
{
    lemma_instant_in_day(ts as int);
}

/// Whether a day lies in the range the calendar can represent.
pub fn is_calendar_day(day: i64) -> (r: bool)
    ensures
        r == day_in_calendar(day as int),
{
    MIN_DAY <= day && day <= MAX_DAY
}

/// Truncates an instant to its UTC calendar day.
pub fn day_of_timestamp(ts: i64) -> (d: i64)
    ensures
        d as int == day_of(ts as int),
{
    match ts.checked_div_euclid(SECONDS_PER_DAY) {
        Some(d) => d,
        None => 0,
    }
}

/// Relies on chrono's `NaiveDateTime::parse_from_str`, which reads the date
/// with the time of day fixed to `00:00:00`, and on `NaiveDate::to_epoch_days`,
/// which counts the days from 1970-01-01 to that date.
#[verifier::external_body]
pub(crate) fn parse_epoch_day(text: &str) -> (r: Option<i32>)
    ensures
        match r {
            Some(d) => epoch_day_of_date(text@) == Some(d as int),
            None => epoch_day_of_date(text@) is None,
        },
{
    chrono::NaiveDateTime::parse_from_str(&format!("{} 00:00:00", text), "%Y-%m-%d %H:%M:%S")
        .ok()
        .map(|t| t.date().to_epoch_days())
}

/// Relies on chrono's `NaiveDate::from_epoch_days`, which gives the date of
/// every day between `MIN_DAY` and `MAX_DAY`, and on `NaiveDate::format` with
/// `%Y-%m-%d`, which writes it out.
#[verifier::external_body]
fn format_epoch_day(day: i64) -> (r: String)
    requires
        day_in_calendar(day as int),
    ensures
        r@ == iso_date_of(day as int),
{
    chrono::NaiveDate::from_epoch_days(day as i32).unwrap().format("%Y-%m-%d").to_string()
}

/// Writes a day in `YYYY-MM-DD` form.
pub fn format_day(day: i64) -> (r: String)
    requires
        day_in_calendar(day as int),
    ensures
        r@ == iso_date_of(day as int),
{
    format_epoch_day(day)
}

} // verus!
