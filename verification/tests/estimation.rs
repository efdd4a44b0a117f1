use jikyuu::aliases::AliasTable;
use jikyuu::commit::{Commit, CommitHours};
use jikyuu::config::Configuration;
use jikyuu::estimate::{estimate_author_time, estimate_author_times};
use jikyuu::time_bound::CommitTimeBound;
use jikyuu::totals::get_totals;
use jikyuu::BranchKind;

fn commit(id: u8, email: Option<&str>, name: &str, timestamp: i64) -> Commit {
    Commit {
        id: vec![id],
        author_name: Some(String::from(name)),
        author_email: email.map(String::from),
        timestamp,
        summary: Some(String::from("work")),
    }
}

fn config(aliases: AliasTable) -> Configuration {
    Configuration {
        max_commit_diff: 120,
        first_commit_addition: 30,
        since: CommitTimeBound::Always,
        until: CommitTimeBound::Always,
        merge_requests: false,
        email_aliases: aliases,
        branch: None,
        branch_type: BranchKind::Local,
    }
}

#[test]
fn single_commit_estimates_zero_duration() {
    let commits = vec![commit(1, Some("a@x"), "A", 1_424_254_209)];
    let hours = estimate_author_time(&commits, Some(String::from("a@x")), 120, 30);
    assert_eq!(hours.duration_seconds, 0);
    assert_eq!(hours.commit_count, 1);
    assert_eq!(hours.email.as_deref(), Some("a@x"));
    assert_eq!(hours.author_name.as_deref(), Some("A"));
}

#[test]
fn gaps_below_threshold_sum_to_spanned_interval() {
    let t0 = 1_424_254_209i64;
    let commits = vec![
        commit(1, Some("a@x"), "A", t0),
        commit(2, Some("a@x"), "A", t0 + 3600),
        commit(3, Some("a@x"), "A", t0 + 6651),
    ];
    let hours = estimate_author_time(&commits, Some(String::from("a@x")), 120, 30);
    assert_eq!(hours.duration_seconds, 6651);
    assert_eq!(hours.commit_count, 3);
}

#[test]
fn gaps_reaching_threshold_credit_the_session_addition() {
    let t0 = 1_000_000i64;
    // both gaps reach the 120-minute threshold, so each credits 30 minutes
    let commits = vec![
        commit(1, Some("a@x"), "A", t0),
        commit(2, Some("a@x"), "A", t0 + 7200),
        commit(3, Some("a@x"), "A", t0 + 100_000),
    ];
    let hours = estimate_author_time(&commits, Some(String::from("a@x")), 120, 30);
    assert_eq!(hours.duration_seconds, 2 * 30 * 60);
}

#[test]
fn unsorted_commits_are_estimated_in_chronological_order() {
    let t0 = 50_000i64;
    let commits = vec![
        commit(1, Some("a@x"), "A", t0 + 6651),
        commit(2, Some("a@x"), "A", t0),
        commit(3, Some("a@x"), "A", t0 + 3600),
    ];
    let hours = estimate_author_time(&commits, Some(String::from("a@x")), 120, 30);
    assert_eq!(hours.duration_seconds, 6651);
    // the display name comes from the first collected commit, not the
    // earliest one
    assert_eq!(hours.author_name.as_deref(), Some("A"));
}

#[test]
fn three_commit_scenario_gives_the_expected_hours() {
    // commits at 10:10:09, 11:10:09 and 12:01:00 of one day: gaps of 60
    // minutes and about 50.85 minutes, both below the default threshold
    let t0 = 1_424_254_209i64; // 2015-02-18 10:10:09 UTC
    let commits = vec![
        commit(1, Some("a@x"), "Nate", t0),
        commit(2, Some("a@x"), "Nate", t0 + 3600),
        commit(3, Some("a@x"), "Nate", t0 + 6651),
    ];
    let estimates = estimate_author_times(&config(AliasTable::new()), commits);
    assert_eq!(estimates.len(), 1);
    assert_eq!(estimates[0].commit_count, 3);
    assert_eq!(estimates[0].duration_minutes(), 110);
    let hours = estimates[0].duration_minutes() as f32 / 60.0;
    assert_eq!(hours, 1.8333334f32);

    let (total_minutes, total_commits) = get_totals(&estimates).unwrap();
    assert_eq!(total_minutes, 110);
    assert_eq!(total_commits, 3);
}

#[test]
fn aliases_group_secondary_emails_under_the_primary() {
    let mut aliases = AliasTable::new();
    aliases.add_alias(String::from("old@x"), String::from("new@x"));
    let commits = vec![
        commit(1, Some("new@x"), "A", 1000),
        commit(2, Some("old@x"), "A", 2000),
    ];
    let estimates = estimate_author_times(&config(aliases), commits);
    assert_eq!(estimates.len(), 1);
    assert_eq!(estimates[0].email.as_deref(), Some("new@x"));
    assert_eq!(estimates[0].commit_count, 2);
    assert_eq!(estimates[0].duration_seconds, 1000);
}

#[test]
fn identity_alias_groups_like_no_alias_at_all() {
    let commits = || {
        vec![
            commit(1, Some("a@x"), "A", 1000),
            commit(2, Some("a@x"), "A", 2000),
            commit(3, Some("b@x"), "B", 1500),
        ]
    };
    let mut identity = AliasTable::new();
    identity.add_alias(String::from("a@x"), String::from("a@x"));
    let with_identity = estimate_author_times(&config(identity), commits());
    let without = estimate_author_times(&config(AliasTable::new()), commits());
    assert_eq!(with_identity.len(), without.len());
    for (x, y) in with_identity.iter().zip(without.iter()) {
        assert_eq!(x.email, y.email);
        assert_eq!(x.author_name, y.author_name);
        assert_eq!(x.duration_seconds, y.duration_seconds);
        assert_eq!(x.commit_count, y.commit_count);
    }
}

#[test]
fn commits_without_email_share_one_bucket_named_after_the_first() {
    let mut c1 = commit(1, None, "First", 1000);
    c1.author_name = Some(String::from("First"));
    let c2 = commit(2, None, "Second", 2000);
    let estimates = estimate_author_times(&config(AliasTable::new()), vec![c1, c2]);
    assert_eq!(estimates.len(), 1);
    assert_eq!(estimates[0].email, None);
    assert_eq!(estimates[0].author_name.as_deref(), Some("First"));
    assert_eq!(estimates[0].commit_count, 2);
}

#[test]
fn ranking_orders_by_duration_then_commit_count() {
    let commits = vec![
        // author A: one 3600-second session
        commit(1, Some("a@x"), "A", 0),
        commit(2, Some("a@x"), "A", 3600),
        // author B: two commits at one instant - duration 0, count 2
        commit(3, Some("b@x"), "B", 100),
        commit(4, Some("b@x"), "B", 100),
        // author C: a single commit - duration 0, count 1
        commit(5, Some("c@x"), "C", 200),
    ];
    let estimates = estimate_author_times(&config(AliasTable::new()), commits);
    let emails: Vec<Option<&str>> = estimates.iter().map(|h| h.email.as_deref()).collect();
    assert_eq!(emails, vec![Some("a@x"), Some("b@x"), Some("c@x")]);
    assert_eq!(estimates[0].duration_seconds, 3600);
    assert_eq!(estimates[1].duration_seconds, 0);
    assert_eq!(estimates[1].commit_count, 2);
    assert_eq!(estimates[2].commit_count, 1);
}

#[test]
fn empty_commit_set_estimates_nothing() {
    let estimates = estimate_author_times(&config(AliasTable::new()), Vec::new());
    assert_eq!(estimates.len(), 0);
    let totals: Vec<CommitHours> = Vec::new();
    assert_eq!(get_totals(&totals).unwrap(), (0, 0));
}
