use jikyuu::dates::SimpleDate;
use jikyuu::time_bound::CommitTimeBound;
use jikyuu::{Error, ParseKind};

fn date(y: i32, m: u32, d: u32) -> SimpleDate {
    SimpleDate {
        year: y,
        month: m,
        day: d,
    }
}

#[test]
fn parse_symbolic_tokens() {
    assert_eq!(CommitTimeBound::parse("always").unwrap(), CommitTimeBound::Always);
    assert_eq!(CommitTimeBound::parse("today").unwrap(), CommitTimeBound::Today);
    assert_eq!(
        CommitTimeBound::parse("yesterday").unwrap(),
        CommitTimeBound::Yesterday
    );
    assert_eq!(
        CommitTimeBound::parse("thisweek").unwrap(),
        CommitTimeBound::ThisWeek
    );
    assert_eq!(
        CommitTimeBound::parse("lastweek").unwrap(),
        CommitTimeBound::LastWeek
    );
}

#[test]
fn parse_tokens_case_insensitively() {
    assert_eq!(CommitTimeBound::parse("Always").unwrap(), CommitTimeBound::Always);
    assert_eq!(CommitTimeBound::parse("TODAY").unwrap(), CommitTimeBound::Today);
    assert_eq!(
        CommitTimeBound::parse("ThisWeek").unwrap(),
        CommitTimeBound::ThisWeek
    );
    assert_eq!(
        CommitTimeBound::parse("LASTWEEK").unwrap(),
        CommitTimeBound::LastWeek
    );
}

#[test]
fn parse_explicit_date() {
    assert_eq!(
        CommitTimeBound::parse("2015-02-18").unwrap(),
        CommitTimeBound::Date(date(2015, 2, 18))
    );
    assert_eq!(
        CommitTimeBound::parse("2016-02-29").unwrap(),
        CommitTimeBound::Date(date(2016, 2, 29))
    );
}

#[test]
fn parse_rejects_malformed_dates() {
    for bad in [
        "2015-13-01",
        "2015-02-29",
        "2015-2-18",
        "2015/02/18",
        "someday",
        "",
        "2015-02-18x",
    ] {
        match CommitTimeBound::parse(bad) {
            Err(Error::Parse(kind, text)) => {
                assert_eq!(kind, ParseKind::TimeBound);
                assert_eq!(text, bad);
            }
            other => panic!("expected a parse error for {:?}, got {:?}", bad, other),
        }
    }
}

#[test]
fn resolve_always_and_today() {
    let today = date(2015, 2, 18);
    assert_eq!(CommitTimeBound::Always.resolve(today), None);
    assert_eq!(CommitTimeBound::Today.resolve(today), Some(today));
    assert_eq!(
        CommitTimeBound::Date(date(2001, 7, 1)).resolve(today),
        Some(date(2001, 7, 1))
    );
}

#[test]
fn resolve_yesterday_steps_over_month_and_leap_boundaries() {
    assert_eq!(
        CommitTimeBound::Yesterday.resolve(date(2015, 3, 1)),
        Some(date(2015, 2, 28))
    );
    assert_eq!(
        CommitTimeBound::Yesterday.resolve(date(2016, 3, 1)),
        Some(date(2016, 2, 29))
    );
    assert_eq!(
        CommitTimeBound::Yesterday.resolve(date(2015, 1, 1)),
        Some(date(2014, 12, 31))
    );
    assert_eq!(
        CommitTimeBound::Yesterday.resolve(date(2015, 2, 18)),
        Some(date(2015, 2, 17))
    );
}

#[test]
fn resolve_yesterday_before_the_common_era() {
    assert_eq!(
        CommitTimeBound::Yesterday.resolve(date(1, 1, 1)),
        Some(date(0, 12, 31))
    );
    assert_eq!(
        CommitTimeBound::Yesterday.resolve(date(0, 3, 1)),
        Some(date(0, 2, 29))
    );
}

#[test]
fn symbolic_bounds_resolve_against_the_clock() {
    assert!(CommitTimeBound::Today.to_date_time().is_some());
    assert!(CommitTimeBound::Yesterday.to_date_time().is_some());
    assert!(CommitTimeBound::ThisWeek.to_date_time().is_some());
    assert!(CommitTimeBound::LastWeek.to_date_time().is_some());
}

#[test]
fn resolve_week_bounds_to_iso_week_sunday() {
    // 2015-02-18 is the Wednesday of ISO week 8 of 2015, whose Sunday is
    // 2015-02-22.
    let today = date(2015, 2, 18);
    assert_eq!(
        CommitTimeBound::ThisWeek.resolve(today),
        Some(date(2015, 2, 22))
    );
    assert_eq!(
        CommitTimeBound::LastWeek.resolve(today),
        Some(date(2015, 2, 15))
    );
}

#[test]
fn resolve_week_bounds_across_year_boundary() {
    // 2016-01-01 falls in ISO week 53 of 2015, whose Sunday is 2016-01-03.
    let today = date(2016, 1, 1);
    assert_eq!(
        CommitTimeBound::ThisWeek.resolve(today),
        Some(date(2016, 1, 3))
    );
    assert_eq!(
        CommitTimeBound::LastWeek.resolve(today),
        Some(date(2015, 12, 27))
    );
}

#[test]
fn epoch_bound_of_always_is_no_constraint() {
    assert_eq!(CommitTimeBound::Always.to_epoch_bound(), None);
    assert_eq!(CommitTimeBound::Always.to_date_time(), None);
}
