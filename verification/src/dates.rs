//! Calendar dates as plain values: validity under the proleptic Gregorian
//! calendar, and stepping a date backwards day by day.

use vstd::prelude::*;
use vstd::arithmetic::div_mod::lemma_mod_multiples_vanish;

verus! {

/// A calendar date, as plain year, month and day numbers.
#[derive(Clone, Copy, Debug, PartialEq, Eq, Structural)]
pub struct SimpleDate {
    pub year: i32,
    pub month: u32,
    pub day: u32,
}

/// Whether a year is a leap year of the proleptic Gregorian calendar.
pub open spec fn is_leap_year(y: int) -> bool {
    y % 4 == 0 && (y % 100 != 0 || y % 400 == 0)
}

/// The number of days of a month.
pub open spec fn days_in_month(y: int, m: int) -> int {
    if m == 2 {
        if is_leap_year(y) {
            29
        } else {
            28
        }
    } else if m == 4 || m == 6 || m == 9 || m == 11 {
        30
    } else {
        31
    }
}

/// Whether the date exists in the proleptic Gregorian calendar.
pub open spec fn valid_date(d: SimpleDate) -> bool {
    &&& 1 <= d.month <= 12
    &&& 1 <= d.day <= days_in_month(d.year as int, d.month as int)
}

/// The calendar day before the given one.
pub open spec fn prev_day_spec(d: SimpleDate) -> SimpleDate {
    if d.day > 1 {
        SimpleDate { year: d.year, month: d.month, day: (d.day - 1) as u32 }
    } else if d.month > 1 {
        SimpleDate {
            year: d.year,
            month: (d.month - 1) as u32,
            day: days_in_month(d.year as int, d.month as int - 1) as u32,
        }
    } else {
        SimpleDate { year: (d.year - 1) as i32, month: 12, day: 31 }
    }
}

/// The date `n` calendar days before the given one.
pub open spec fn prev_days_spec(d: SimpleDate, n: nat) -> SimpleDate
    decreases n,
{
    if n == 0 {
        d
    } else {
        prev_day_spec(prev_days_spec(d, (n - 1) as nat))
    }
}

/// Whether `y` is a leap year.  Leap years repeat with a period of 400,
/// so the test runs on the year shifted into nonnegative range by a
/// multiple of 400.
fn is_leap_year_exec(y: i32) -> (r: bool)
    requires
        y >= -1000000000,
    ensures
        r == is_leap_year(y as int),
{
    let u: u32 = ((y as i64) + 1000000000) as u32;
    proof {
        lemma_mod_multiples_vanish(250000000, y as int, 4);
        lemma_mod_multiples_vanish(10000000, y as int, 100);
        lemma_mod_multiples_vanish(2500000, y as int, 400);
        assert(u as int == y as int + 1000000000);
    }
    u % 4 == 0 && (u % 100 != 0 || u % 400 == 0)
}

/// The number of days of month `m` of year `y`.
fn days_in_month_exec(y: i32, m: u32) -> (r: u32)
    requires
        y >= -1000000000,
    ensures
        r == days_in_month(y as int, m as int),
{
    if m == 2 {
        if is_leap_year_exec(y) {
            29
        } else {
            28
        }
    } else if m == 4 || m == 6 || m == 9 || m == 11 {
        30
    } else {
        31
    }
}

/// Whether the date exists in the calendar.
pub fn valid_date_exec(d: &SimpleDate) -> (r: bool)
    requires
        d.year >= -1000000000,
    ensures
        r == valid_date(*d),
{
    1 <= d.month && d.month <= 12 && 1 <= d.day && d.day <= days_in_month_exec(d.year, d.month)
}

/// The date `n` days before `d`, stepping one calendar day at a time.
/// The handful of steps the resolver takes crosses at most one year
/// boundary.
pub(crate) fn minus_days(d: SimpleDate, n: u32) -> (r: SimpleDate)
    requires
        valid_date(d),
        d.year >= -999999999,
        n <= 7,
    ensures
        r == prev_days_spec(d, n as nat),
        valid_date(r),
        r.year >= d.year - 1,
{
    let mut cur = d;
    let mut i: u32 = 0;
    while i < n
        invariant
            0 <= i <= n,
            n <= 7,
            d.year >= -999999999,
            cur == prev_days_spec(d, i as nat),
            valid_date(cur),
            cur.year == d.year || (cur.year == d.year - 1 && cur.month == 12 && cur.day >= 31
                - i),
        decreases n - i,
    {
        let next = if cur.day > 1 {
            SimpleDate { year: cur.year, month: cur.month, day: cur.day - 1 }
        } else if cur.month > 1 {
            SimpleDate {
                year: cur.year,
                month: cur.month - 1,
                day: days_in_month_exec(cur.year, cur.month - 1),
            }
        } else {
            SimpleDate { year: cur.year - 1, month: 12, day: 31 }
        };
        proof {
            assert(next == prev_day_spec(cur));
            assert(prev_days_spec(d, (i + 1) as nat) == prev_day_spec(prev_days_spec(d, i as nat)));
        }
        cur = next;
        i = i + 1;
    }
    cur
}

} // verus!
