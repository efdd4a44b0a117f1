//! Calendar computations the library takes from the `chrono` crate: the
//! current local date, ISO week arithmetic, and converting a local
//! midnight to an instant.

use vstd::prelude::*;
use crate::dates::{SimpleDate, valid_date};

verus! {

/// Whether a year lies within the calendar backend's supported range
/// (chrono's `NaiveDate` represents the years -262143 through 262142).
pub open spec fn in_calendar_range(y: int) -> bool {
    -262143 <= y <= 262142
}

/// Whether a date's whole ISO week is guaranteed to lie within the
/// calendar backend's range: one year of slack on either side covers the
/// week's spill into a neighboring year.
pub open spec fn in_week_range(y: int) -> bool {
    -262142 <= y <= 262141
}

/// The ISO week-year and week number that a calendar date falls in, a
/// function of the date alone.
pub uninterp spec fn iso_week_of_date(y: int, m: int, d: int) -> (int, int);

/// The calendar date of the Sunday of an ISO week, a function of the
/// week-year and week number alone.
pub uninterp spec fn iso_week_sunday(iso_year: int, week: int) -> (int, int, int);

/// Relies on chrono's `Local::now`: the current date of the local clock
/// and time zone, always a real calendar date within the backend's year
/// range.  The underlying clock reading aborts on a system clock set
/// before the Unix epoch.
#[verifier::external_body]
pub fn today_local() -> (r: SimpleDate)
    ensures
        valid_date(r),
        in_calendar_range(r.year as int),
{
    let d = chrono::Local::now().date_naive();
    SimpleDate {
        year: chrono::Datelike::year(&d),
        month: chrono::Datelike::month(&d),
        day: chrono::Datelike::day(&d),
    }
}

/// Relies on chrono's `Datelike::iso_week` on `NaiveDate` (reached through
/// `NaiveDate::from_ymd_opt`): the ISO 8601 week a date falls in.  The
/// lookup succeeds on every real date within the backend's year range;
/// ISO week numbers lie between 1 and 53, and a date's ISO week-year
/// differs from its calendar year by at most one.
#[verifier::external_body]
pub fn iso_week_of(d: SimpleDate) -> (r: Option<(i32, u32)>)
    ensures
        valid_date(d) && in_calendar_range(d.year as int) ==> r is Some,
        r matches Some(w) ==> (w.0 as int, w.1 as int) == iso_week_of_date(
            d.year as int,
            d.month as int,
            d.day as int,
        ),
        r matches Some(w) ==> 1 <= w.1 <= 53,
        r matches Some(w) ==> d.year - 1 <= w.0 <= d.year + 1,
{
    match chrono::NaiveDate::from_ymd_opt(d.year, d.month, d.day) {
        Some(nd) => {
            let w = chrono::Datelike::iso_week(&nd);
            Some((chrono::IsoWeek::year(&w), chrono::IsoWeek::week(&w)))
        },
        None => None,
    }
}

/// Relies on chrono's `NaiveDate::from_isoywd_opt` with `Weekday::Sun`:
/// the calendar date of the Sunday that falls within the given ISO week.
/// The lookup succeeds whenever the week is the ISO week of some real
/// date whose whole week lies in the backend's range; the Sunday is a
/// real date within one calendar year of the week-year.
#[verifier::external_body]
pub fn sunday_of_iso_week(iso_year: i32, week: u32) -> (r: Option<SimpleDate>)
    ensures
        (exists|w: SimpleDate|
            valid_date(w) && in_week_range(w.year as int) && iso_week_of_date(
                w.year as int,
                w.month as int,
                w.day as int,
            ) == (iso_year as int, week as int)) ==> r is Some,
        r matches Some(t) ==> (t.year as int, t.month as int, t.day as int) == iso_week_sunday(
            iso_year as int,
            week as int,
        ),
        r matches Some(t) ==> valid_date(t),
        r matches Some(t) ==> iso_year - 1 <= t.year <= iso_year + 1,
{
    match chrono::NaiveDate::from_isoywd_opt(iso_year, week, chrono::Weekday::Sun) {
        Some(nd) => Some(
            SimpleDate {
                year: chrono::Datelike::year(&nd),
                month: chrono::Datelike::month(&nd),
                day: chrono::Datelike::day(&nd),
            },
        ),
        None => None,
    }
}

/// Relies on chrono's `TimeZone::from_local_datetime` on `Local` (reached
/// through `NaiveDate::from_ymd_opt` and `NaiveDate::and_hms_opt`): the
/// UTC epoch seconds of the local midnight of the date.  The result
/// depends on the machine's time zone; an ambiguous midnight yields its
/// earlier reading, and a date without one (or no real date) yields none.
/// The underlying zone lookup aborts on a degenerate time-zone database.
#[verifier::external_body]
pub fn local_midnight_epoch(d: SimpleDate) -> (r: Option<i64>)
    ensures
        !valid_date(d) ==> r is None,
{
    let nd = match chrono::NaiveDate::from_ymd_opt(d.year, d.month, d.day) {
        Some(x) => x,
        None => return None,
    };
    let ndt = match nd.and_hms_opt(0, 0, 0) {
        Some(x) => x,
        None => return None,
    };
    match chrono::TimeZone::from_local_datetime(&chrono::Local, &ndt) {
        chrono::LocalResult::Single(t) => Some(t.timestamp()),
        chrono::LocalResult::Ambiguous(t, _) => Some(t.timestamp()),
        chrono::LocalResult::None => None,
    }
}

} // verus!
