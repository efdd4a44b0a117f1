//! The commit filter: applies the resolved time bounds and the
//! merge-commit inclusion policy to the collected commit set.

use vstd::prelude::*;
use crate::commit::{Commit, CommitView, commit_views};
use crate::strings::{chars_of, chars_prefix};

verus! {

/// Whether a message first line marks a merge commit: it begins with the
/// literal prefix `Merge ` (case-sensitively).
pub open spec fn is_merge_summary(s: Option<Seq<char>>) -> bool {
    match s {
        Some(t) => "Merge "@.is_prefix_of(t),
        None => false,
    }
}

/// Whether a commit survives the filter: it is not strictly earlier than
/// the `since` bound, not strictly later than the `until` bound, and is not
/// an excluded merge commit.
pub open spec fn keeps(
    c: CommitView,
    since: Option<i64>,
    until: Option<i64>,
    include_merges: bool,
) -> bool {
    &&& (since matches Some(b) ==> c.timestamp >= b)
    &&& (until matches Some(b) ==> c.timestamp <= b)
    &&& (include_merges || !is_merge_summary(c.summary))
}

/// The surviving commits, in their incoming order.
pub open spec fn kept(
    cs: Seq<CommitView>,
    since: Option<i64>,
    until: Option<i64>,
    include_merges: bool,
) -> Seq<CommitView>
    decreases cs.len(),
{
    if cs.len() == 0 {
        Seq::empty()
    } else {
        let prev = kept(cs.drop_last(), since, until, include_merges);
        if keeps(cs.last(), since, until, include_merges) {
            prev.push(cs.last())
        } else {
            prev
        }
    }
}

/// Whether this commit's message first line marks it as a merge commit.
pub fn is_merge_commit(c: &Commit) -> (r: bool)
    ensures
        r == is_merge_summary(c@.summary),
{
    match &c.summary {
        None => false,
        Some(s) => {
            let sc = chars_of(s.as_str());
            let mc = chars_of("Merge ");
            chars_prefix(&sc, &mc)
        },
    }
}

/// Filters the collected commits: drops a commit strictly earlier than the
/// `since` instant or strictly later than the `until` instant (both bounds
/// in epoch seconds; a commit exactly at a bound is retained), and, unless
/// `include_merges` is set, drops any commit whose message first line begins
/// with `Merge `.  Pure and order-preserving.
pub fn filter_commits(
    commits: Vec<Commit>,
    since: Option<i64>,
    until: Option<i64>,
    include_merges: bool,
) -> (r: Vec<Commit>)
    ensures
        commit_views(r@) == kept(commit_views(commits@), since, until, include_merges),
{
    let ghost orig = commit_views(commits@);
    let mut work = commits;
    let mut out: Vec<Commit> = Vec::new();
    let ghost done: Seq<CommitView> = Seq::empty();
    assert(commit_views(out@) =~= kept(done, since, until, include_merges));
    while work.len() > 0
        invariant
            done.len() + work@.len() == orig.len(),
            done + commit_views(work@) =~= orig,
            commit_views(out@) == kept(done, since, until, include_merges),
        decreases work.len(),
    {
        let ghost prev_done = done;
        let ghost prev_out = out@;
        let c = work.remove(0);
        proof {
            done = done.push(c@);
            assert(done.drop_last() =~= prev_done);
            assert(done + commit_views(work@) =~= orig);
        }
        let keep_time = (match since {
            Some(b) => c.timestamp >= b,
            None => true,
        }) && (match until {
            Some(b) => c.timestamp <= b,
            None => true,
        });
        let keep_merge = include_merges || !is_merge_commit(&c);
        if keep_time && keep_merge {
            out.push(c);
            assert(commit_views(out@).drop_last() =~= commit_views(prev_out));
            assert(commit_views(out@) =~= kept(done, since, until, include_merges));
        } else {
            assert(commit_views(out@) =~= kept(done, since, until, include_merges));
        }
    }
    assert(done =~= orig);
    out
}

/// A commit lying exactly on the `since` instant, and likewise one exactly
/// on the `until` instant, is retained: both drop conditions are strict.
pub proof fn lemma_bounds_inclusive(c: CommitView, at: i64, include_merges: bool)
    requires
        c.timestamp == at,
        include_merges || !is_merge_summary(c.summary),
    ensures
        keeps(c, Some(at), None, include_merges),
        keeps(c, None, Some(at), include_merges),
        keeps(c, Some(at), Some(at), include_merges),
{
}

/// Merge exclusion is decided by the exact, case-sensitive prefix
/// `Merge `: without `include_merges` a commit whose message first line
/// begins with it is dropped, and every other commit passes the merge
/// policy; with `include_merges` nothing is dropped for being a merge.
pub proof fn lemma_merge_exclusion(c: CommitView)
    ensures
        !keeps(c, None, None, false) <==> is_merge_summary(c.summary),
        keeps(c, None, None, true),
{
}

} // verus!
