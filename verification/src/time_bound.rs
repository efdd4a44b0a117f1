//! Time bounds: symbolic or literal date expressions, their parsing, and
//! their resolution to concrete local-midnight dates.

use vstd::prelude::*;
use crate::calendar::{
    in_calendar_range, in_week_range, iso_week_of, iso_week_of_date, iso_week_sunday,
    local_midnight_epoch, sunday_of_iso_week, today_local,
};
use crate::dates::{SimpleDate, minus_days, prev_days_spec, valid_date, valid_date_exec};
use crate::strings::chars_of;
use crate::{Error, ParseKind};

verus! {

/// A bound of the analyzed time range: no constraint, a symbolic day or
/// week boundary, or an explicit calendar date.  A bound resolves to the
/// local midnight of a date (or to no constraint).
///
/// `ThisWeek` resolves to the Sunday at the end of the current ISO week
/// rather than to the week's Monday start; `LastWeek` to the same Sunday
/// one week earlier.  This non-obvious boundary choice is deliberate.
#[derive(Clone, Copy, Debug, PartialEq, Eq, Structural)]
pub enum CommitTimeBound {
    Always,
    Today,
    Yesterday,
    ThisWeek,
    LastWeek,
    Date(SimpleDate),
}

/// The ASCII-case-folded code of a character.
pub open spec fn lower_code(c: char) -> int {
    if 65 <= c as u32 <= 90 {
        c as u32 + 32
    } else {
        c as u32 as int
    }
}

/// Whether two character sequences agree up to ASCII case.
pub open spec fn eq_ignore_ascii_case(a: Seq<char>, b: Seq<char>) -> bool {
    a.len() == b.len() && forall|i: int| 0 <= i < a.len() ==> lower_code(a[i]) == lower_code(b[i])
}

/// Whether `c` is a decimal digit.
pub open spec fn is_digit(c: char) -> bool {
    48 <= c as u32 <= 57
}

/// The value of a decimal digit.
pub open spec fn digit_val(c: char) -> int {
    c as u32 - 48
}

/// Whether a character sequence has the strict `YYYY-MM-DD` shape.
pub open spec fn is_date_shape(s: Seq<char>) -> bool {
    &&& s.len() == 10
    &&& is_digit(s[0]) && is_digit(s[1]) && is_digit(s[2]) && is_digit(s[3])
    &&& s[4] == '-'
    &&& is_digit(s[5]) && is_digit(s[6])
    &&& s[7] == '-'
    &&& is_digit(s[8]) && is_digit(s[9])
}

/// The date a `YYYY-MM-DD` shaped sequence denotes.
pub open spec fn date_of(s: Seq<char>) -> SimpleDate {
    SimpleDate {
        year: (1000 * digit_val(s[0]) + 100 * digit_val(s[1]) + 10 * digit_val(s[2]) + digit_val(
            s[3],
        )) as i32,
        month: (10 * digit_val(s[5]) + digit_val(s[6])) as u32,
        day: (10 * digit_val(s[8]) + digit_val(s[9])) as u32,
    }
}

/// What a time-bound text denotes: one of the five symbolic tokens up to
/// ASCII case, else a strict `YYYY-MM-DD` date that exists in the
/// calendar; anything else is malformed.
pub open spec fn parsed_time_bound(s: Seq<char>) -> Option<CommitTimeBound> {
    if eq_ignore_ascii_case(s, "always"@) {
        Some(CommitTimeBound::Always)
    } else if eq_ignore_ascii_case(s, "today"@) {
        Some(CommitTimeBound::Today)
    } else if eq_ignore_ascii_case(s, "yesterday"@) {
        Some(CommitTimeBound::Yesterday)
    } else if eq_ignore_ascii_case(s, "thisweek"@) {
        Some(CommitTimeBound::ThisWeek)
    } else if eq_ignore_ascii_case(s, "lastweek"@) {
        Some(CommitTimeBound::LastWeek)
    } else if is_date_shape(s) && valid_date(date_of(s)) {
        Some(CommitTimeBound::Date(date_of(s)))
    } else {
        None
    }
}

/// Whether two character vectors agree up to ASCII case.
fn chars_eq_ignore_case(a: &Vec<char>, b: &Vec<char>) -> (r: bool)
    ensures
        r == eq_ignore_ascii_case(a@, b@),
{
    if a.len() != b.len() {
        assert(a@.len() != b@.len());
        return false;
    }
    let mut i: usize = 0;
    while i < a.len()
        invariant
            0 <= i <= a@.len(),
            a@.len() == b@.len(),
            forall|j: int| 0 <= j < i ==> lower_code(a@[j]) == lower_code(b@[j]),
        decreases a@.len() - i,
    {
        let ca = a[i] as u32;
        let cb = b[i] as u32;
        let la = if 65 <= ca && ca <= 90 {
            ca + 32
        } else {
            ca
        };
        let lb = if 65 <= cb && cb <= 90 {
            cb + 32
        } else {
            cb
        };
        if la != lb {
            return false;
        }
        i = i + 1;
    }
    true
}

/// The value of the digit character at `s[i]`.
fn digit_at(s: &Vec<char>, i: usize) -> (r: u32)
    requires
        i < s@.len(),
        is_digit(s@[i as int]),
    ensures
        r == digit_val(s@[i as int]),
{
    (s[i] as u32) - 48
}

impl CommitTimeBound {
    /// Parses a time-bound text: one of the tokens `always`, `today`,
    /// `yesterday`, `thisweek`, `lastweek` (case-insensitively), else a
    /// strict `YYYY-MM-DD` calendar date; any other text is rejected,
    /// reported with the offending input.
    pub fn parse(s: &str) -> (r: Result<CommitTimeBound, Error>)
        ensures
            match r {
                Ok(b) => parsed_time_bound(s@) == Some(b),
                Err(e) => parsed_time_bound(s@) is None && (e matches Error::Parse(k, t)
                    && k == ParseKind::TimeBound && t@ == s@),
            },
    {
        let sc = chars_of(s);
        if chars_eq_ignore_case(&sc, &chars_of("always")) {
            return Ok(CommitTimeBound::Always);
        }
        if chars_eq_ignore_case(&sc, &chars_of("today")) {
            return Ok(CommitTimeBound::Today);
        }
        if chars_eq_ignore_case(&sc, &chars_of("yesterday")) {
            return Ok(CommitTimeBound::Yesterday);
        }
        if chars_eq_ignore_case(&sc, &chars_of("thisweek")) {
            return Ok(CommitTimeBound::ThisWeek);
        }
        if chars_eq_ignore_case(&sc, &chars_of("lastweek")) {
            return Ok(CommitTimeBound::LastWeek);
        }
        if sc.len() == 10 {
            let mut shape = sc[4] == '-' && sc[7] == '-';
            let mut i: usize = 0;
            while i < 10
                invariant
                    0 <= i <= 10,
                    sc@.len() == 10,
                    shape <==> (sc@[4] == '-' && sc@[7] == '-' && forall|j: int|
                        0 <= j < i && j != 4 && j != 7 ==> is_digit(sc@[j])),
                decreases 10 - i,
            {
                if i != 4 && i != 7 {
                    let c = sc[i] as u32;
                    if !(48 <= c && c <= 57) {
                        shape = false;
                    }
                }
                i = i + 1;
            }
            if shape {
                assert(is_date_shape(sc@));
                let year = 1000 * digit_at(&sc, 0) + 100 * digit_at(&sc, 1) + 10 * digit_at(
                    &sc,
                    2,
                ) + digit_at(&sc, 3);
                let month = 10 * digit_at(&sc, 5) + digit_at(&sc, 6);
                let day = 10 * digit_at(&sc, 8) + digit_at(&sc, 9);
                let d = SimpleDate { year: year as i32, month, day };
                assert(d == date_of(sc@));
                if valid_date_exec(&d) {
                    return Ok(CommitTimeBound::Date(d));
                }
            }
        }
        Err(Error::Parse(ParseKind::TimeBound, s.to_owned()))
    }

    /// Resolves this bound against the given current local date: no
    /// constraint for `Always`; the current date for `Today`; the day
    /// before it for `Yesterday`; the Sunday within the current ISO week
    /// for `ThisWeek`, and the same Sunday one week back for `LastWeek`;
    /// an explicit date stands for itself.  The resulting date marks a
    /// local midnight.  Every symbolic bound resolves whenever the
    /// current date lies in the calendar backend's range (with one year
    /// of slack for the week bounds); only outside it can a week lookup
    /// or the day stepping come up empty.
    pub fn resolve(&self, today: SimpleDate) -> (r: Option<SimpleDate>)
        requires
            valid_date(today),
        ensures
            resolves_to(*self, today, r),
    {
        match self {
            CommitTimeBound::Always => None,
            CommitTimeBound::Today => Some(today),
            CommitTimeBound::Yesterday => {
                if today.year >= -999999999 {
                    Some(minus_days(today, 1))
                } else {
                    None
                }
            },
            CommitTimeBound::ThisWeek => {
                match iso_week_of(today) {
                    Some((wy, ww)) => {
                        let r = sunday_of_iso_week(wy, ww);
                        proof {
                            if in_week_range(today.year as int) {
                                assert(r is Some) by {
                                    assert(valid_date(today) && in_week_range(today.year as int)
                                        && iso_week_of_date(
                                        today.year as int,
                                        today.month as int,
                                        today.day as int,
                                    ) == (wy as int, ww as int));
                                }
                            }
                        }
                        r
                    },
                    None => None,
                }
            },
            CommitTimeBound::LastWeek => {
                match iso_week_of(today) {
                    Some((wy, ww)) => {
                        match sunday_of_iso_week(wy, ww) {
                            Some(sunday) => {
                                if sunday.year >= -999999999 {
                                    Some(minus_days(sunday, 7))
                                } else {
                                    None
                                }
                            },
                            None => {
                                proof {
                                    if in_week_range(today.year as int) {
                                        assert(valid_date(today) && in_week_range(
                                            today.year as int,
                                        ) && iso_week_of_date(
                                            today.year as int,
                                            today.month as int,
                                            today.day as int,
                                        ) == (wy as int, ww as int));
                                        assert(false);
                                    }
                                }
                                None
                            },
                        }
                    },
                    None => None,
                }
            },
            CommitTimeBound::Date(d) => Some(*d),
        }
    }

    /// Resolves this bound against the current local date, read from the
    /// machine's clock once per call.  `Always` alone resolves to no
    /// constraint among `Always`, `Today` and `Yesterday`; the week
    /// bounds resolve except within a year of the calendar backend's
    /// limits.  Whatever the clock read, the result relates to it as
    /// `resolves_to` states.
    pub fn to_date_time(&self) -> (r: Option<SimpleDate>)
        ensures
            self is Always ==> r is None,
            self matches CommitTimeBound::Date(d) ==> r == Some(*d),
            self is Today ==> r is Some,
            self is Yesterday ==> r is Some,
            exists|t: SimpleDate|
                valid_date(t) && in_calendar_range(t.year as int) && resolves_to(*self, t, r),
    {
        let today = today_local();
        let r = self.resolve(today);
        proof {
            assert(valid_date(today) && in_calendar_range(today.year as int) && resolves_to(
                *self,
                today,
                r,
            ));
        }
        r
    }

    /// Resolves this bound to an instant, in UTC epoch seconds: the local
    /// midnight of the date this bound resolves to under the current
    /// local date.  No constraint gives no instant; an instant comes back
    /// only for a resolved date, and is absent exactly when the machine's
    /// time zone has no midnight on it.
    pub fn to_epoch_bound(&self) -> (r: Option<i64>)
        ensures
            self is Always ==> r is None,
            exists|t: SimpleDate, rd: Option<SimpleDate>|
                {
                    &&& valid_date(t)
                    &&& in_calendar_range(t.year as int)
                    &&& resolves_to(*self, t, rd)
                    &&& (rd is None ==> r is None)
                    &&& (r is Some ==> rd is Some)
                },
    {
        let rd = self.to_date_time();
        let r = match rd {
            Some(d) => local_midnight_epoch(d),
            None => None,
        };
        proof {
            let t = choose|t: SimpleDate|
                valid_date(t) && in_calendar_range(t.year as int) && resolves_to(*self, t, rd);
            assert(valid_date(t) && in_calendar_range(t.year as int) && resolves_to(*self, t, rd)
                && (rd is None ==> r is None) && (r is Some ==> rd is Some));
        }
        r
    }
}

/// How a resolved date relates to a bound and the current local date:
/// `Always` resolves to no constraint; `Today`, `Yesterday` and an
/// explicit date resolve outright (day stepping only runs inside the
/// supported year range); a week bound resolves to the Sunday of the
/// current ISO week (one week back for `LastWeek`), and is guaranteed to
/// resolve whenever the current date's whole week lies in the calendar
/// backend's range.
pub open spec fn resolves_to(b: CommitTimeBound, today: SimpleDate, r: Option<SimpleDate>) -> bool {
    match b {
        CommitTimeBound::Always => r is None,
        CommitTimeBound::Today => r == Some(today),
        CommitTimeBound::Yesterday => r == (if today.year >= -999999999 {
            Some(prev_days_spec(today, 1))
        } else {
            Option::<SimpleDate>::None
        }),
        CommitTimeBound::ThisWeek => {
            &&& (r matches Some(s) ==> (s.year as int, s.month as int, s.day as int)
                == iso_week_sunday(
                iso_week_of_date(today.year as int, today.month as int, today.day as int).0,
                iso_week_of_date(today.year as int, today.month as int, today.day as int).1,
            ))
            &&& (in_week_range(today.year as int) ==> r is Some)
        },
        CommitTimeBound::LastWeek => {
            &&& (r is Some ==> exists|sunday: SimpleDate|
                {
                    &&& (sunday.year as int, sunday.month as int, sunday.day as int)
                        == iso_week_sunday(
                        iso_week_of_date(today.year as int, today.month as int, today.day as int).0,
                        iso_week_of_date(today.year as int, today.month as int, today.day as int).1,
                    )
                    &&& valid_date(sunday)
                    &&& r == Some(prev_days_spec(sunday, 7))
                })
            &&& (in_week_range(today.year as int) ==> r is Some)
        },
        CommitTimeBound::Date(d) => r == Some(d),
    }
}

/// Resolution yields no constraint exactly for `Always`: against any
/// current date whose week lies within the calendar backend's range,
/// every other bound resolves to a date.
pub proof fn lemma_none_only_for_always(
    b: CommitTimeBound,
    today: SimpleDate,
    r: Option<SimpleDate>,
)
    requires
        valid_date(today),
        in_week_range(today.year as int),
        resolves_to(b, today, r),
    ensures
        r is None <==> b is Always,
{
}

} // verus!

