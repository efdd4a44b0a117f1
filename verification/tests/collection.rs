use jikyuu::aliases::{parse_email_alias, AliasTable};
use jikyuu::analyze::analyze;
use jikyuu::collect::{merge_ref_commits, ref_matches, select_repository};
use jikyuu::commit::Commit;
use jikyuu::config::{parse_branch_kind, Configuration};
use jikyuu::filter::filter_commits;
use jikyuu::time_bound::CommitTimeBound;
use jikyuu::{BranchKind, Error, ParseKind};

fn commit(id: u8, timestamp: i64, summary: &str) -> Commit {
    Commit {
        id: vec![id],
        author_name: Some(String::from("A")),
        author_email: Some(String::from("a@x")),
        timestamp,
        summary: Some(String::from(summary)),
    }
}

#[test]
fn named_branch_matches_exactly_one_reference() {
    let branch = Some(String::from("main"));
    assert!(ref_matches("refs/heads/main", &branch, BranchKind::Local));
    assert!(!ref_matches("refs/heads/main2", &branch, BranchKind::Local));
    assert!(!ref_matches("refs/remotes/main", &branch, BranchKind::Local));
    assert!(ref_matches("refs/remotes/main", &branch, BranchKind::Remote));
}

#[test]
fn unnamed_branch_matches_every_reference_under_the_kind_prefix() {
    assert!(ref_matches("refs/heads/dev", &None, BranchKind::Local));
    assert!(ref_matches("refs/heads/feature/x", &None, BranchKind::Local));
    assert!(!ref_matches("refs/tags/v1", &None, BranchKind::Local));
    assert!(!ref_matches("refs/heads/dev", &None, BranchKind::Remote));
    assert!(ref_matches("refs/remotes/origin/dev", &None, BranchKind::Remote));
}

#[test]
fn merge_keeps_first_occurrence_of_each_commit() {
    let ref_a = vec![commit(1, 10, "one"), commit(2, 20, "two")];
    let ref_b = vec![commit(2, 20, "two"), commit(3, 30, "three")];
    let merged = merge_ref_commits(vec![ref_a, ref_b]);
    let ids: Vec<u8> = merged.iter().map(|c| c.id[0]).collect();
    assert_eq!(ids, vec![1, 2, 3]);
}

#[test]
fn filtering_is_inclusive_at_both_bounds() {
    let commits = vec![
        commit(1, 99, "early"),
        commit(2, 100, "at since"),
        commit(3, 150, "inside"),
        commit(4, 200, "at until"),
        commit(5, 201, "late"),
    ];
    let kept = filter_commits(commits, Some(100), Some(200), true);
    let ids: Vec<u8> = kept.iter().map(|c| c.id[0]).collect();
    assert_eq!(ids, vec![2, 3, 4]);
}

#[test]
fn merge_commits_are_excluded_case_sensitively() {
    let commits = vec![
        commit(1, 10, "Merge branch 'dev'"),
        commit(2, 20, "merge branch 'dev'"),
        commit(3, 30, "Merged things"),
        commit(4, 40, "Merge "),
    ];
    let kept = filter_commits(commits, None, None, false);
    let ids: Vec<u8> = kept.iter().map(|c| c.id[0]).collect();
    assert_eq!(ids, vec![2, 3]);

    let commits = vec![commit(1, 10, "Merge branch 'dev'")];
    let kept = filter_commits(commits, None, None, true);
    assert_eq!(kept.len(), 1);
}

#[test]
fn commits_without_a_message_are_never_merge_commits() {
    let mut c = commit(1, 10, "unused");
    c.summary = None;
    let kept = filter_commits(vec![c], None, None, false);
    assert_eq!(kept.len(), 1);
    assert_eq!(filter_commits(Vec::new(), Some(0), Some(10), false).len(), 0);
}

#[test]
fn analysis_path_picks_the_matching_sub_repository() {
    let paths = vec![
        String::from("packages/submodule_a"),
        String::from("packages/submodule_b"),
    ];
    let requested = String::from("packages/submodule_b");
    assert_eq!(select_repository(&paths, &requested), Some(1));
    assert_eq!(select_repository(&paths, &String::from("elsewhere")), None);
    assert_eq!(select_repository(&Vec::new(), &requested), None);
}

#[test]
fn email_alias_pairs_split_at_the_first_equals_sign() {
    assert_eq!(
        parse_email_alias("old@x=new@x").unwrap(),
        (String::from("old@x"), String::from("new@x"))
    );
    assert_eq!(
        parse_email_alias("a=b=c").unwrap(),
        (String::from("a"), String::from("b=c"))
    );
    assert_eq!(
        parse_email_alias("=rest").unwrap(),
        (String::from(""), String::from("rest"))
    );
    match parse_email_alias("no separator") {
        Err(Error::Parse(kind, text)) => {
            assert_eq!(kind, ParseKind::EmailAlias);
            assert_eq!(text, "no separator");
        }
        other => panic!("expected a parse error, got {:?}", other),
    }
}

#[test]
fn branch_kind_names_parse_exactly() {
    assert_eq!(parse_branch_kind("local").unwrap(), BranchKind::Local);
    assert_eq!(parse_branch_kind("remote").unwrap(), BranchKind::Remote);
    match parse_branch_kind("Local") {
        Err(Error::Parse(kind, text)) => {
            assert_eq!(kind, ParseKind::BranchType);
            assert_eq!(text, "Local");
        }
        other => panic!("expected a parse error, got {:?}", other),
    }
}

fn config(branch: Option<&str>, kind: BranchKind) -> Configuration {
    Configuration {
        max_commit_diff: 120,
        first_commit_addition: 30,
        since: CommitTimeBound::Always,
        until: CommitTimeBound::Always,
        merge_requests: false,
        email_aliases: AliasTable::new(),
        branch: branch.map(String::from),
        branch_type: kind,
    }
}

#[test]
fn no_matching_commits_reports_the_requested_branch() {
    let cfg = config(Some("dev"), BranchKind::Remote);
    match analyze(&cfg, Vec::new(), None, None) {
        Err(Error::NoMatchingCommits(Some((branch, kind)))) => {
            assert_eq!(branch, "dev");
            assert_eq!(kind, BranchKind::Remote);
        }
        other => panic!("expected the no-commits error, got {:?}", other),
    }

    let cfg = config(None, BranchKind::Local);
    match analyze(&cfg, Vec::new(), None, None) {
        Err(Error::NoMatchingCommits(None)) => {}
        other => panic!("expected the no-commits error, got {:?}", other),
    }
}

#[test]
fn whole_pipeline_dedups_filters_and_ranks() {
    let ref_a = vec![
        commit(1, 1000, "one"),
        commit(2, 2000, "two"),
        commit(3, 2500, "Merge branch 'x'"),
    ];
    let ref_b = vec![commit(1, 1000, "one"), commit(4, 500, "early")];
    let cfg = config(None, BranchKind::Local);
    let estimates = analyze(&cfg, vec![ref_a, ref_b], Some(600), None, ).unwrap();
    // commit 4 is dropped by the since bound, the merge commit by the
    // policy; commits 1 and 2 remain for one author
    assert_eq!(estimates.len(), 1);
    assert_eq!(estimates[0].commit_count, 2);
    assert_eq!(estimates[0].duration_seconds, 1000);
}
