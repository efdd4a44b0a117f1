//! The analysis pipeline: collected commits in, ranked per-author
//! estimates out.

use vstd::prelude::*;
use vstd::relations::sorted_by;
use crate::collect::{dedup_commits, flat_views, merge_ref_commits};
use crate::commit::{Commit, CommitHours, hours_views};
use crate::config::Configuration;
use crate::estimate::{all_estimates, estimate_author_times, rank_le};
use crate::filter::{filter_commits, kept};
use crate::Error;

verus! {

/// What the whole pipeline denotes: the per-identity estimates of the
/// deduplicated, filtered commit set.
pub open spec fn analysis_estimates(
    configuration: Configuration,
    refs_commits: Seq<Vec<Commit>>,
    since_epoch: Option<i64>,
    until_epoch: Option<i64>,
) -> Seq<crate::commit::CommitHoursView> {
    all_estimates(
        kept(
            dedup_commits(flat_views(refs_commits)),
            since_epoch,
            until_epoch,
            configuration.merge_requests,
        ),
        configuration.email_aliases@,
        configuration.max_commit_diff as int,
        configuration.first_commit_addition as int,
    )
}

/// Runs the analysis on the commits collected per matching reference: the
/// traversals are merged and deduplicated, filtered by the given instant
/// bounds and the merge policy, grouped by canonical identity, estimated,
/// and ranked.  When nothing remains, the run fails with the no-commits
/// error, naming the requested branch and its kind when one was set.
pub fn analyze(
    configuration: &Configuration,
    refs_commits: Vec<Vec<Commit>>,
    since_epoch: Option<i64>,
    until_epoch: Option<i64>,
) -> (r: Result<Vec<CommitHours>, Error>)
    ensures
        ({
            let ests = analysis_estimates(*configuration, refs_commits@, since_epoch, until_epoch);
            &&& (r is Ok <==> ests.len() > 0)
            &&& (r matches Ok(v) ==> {
                &&& hours_views(v@).to_multiset() == ests.to_multiset()
                &&& sorted_by(hours_views(v@), rank_le())
                &&& v@.len() == ests.len()
            })
            &&& (r matches Err(e) ==> e matches Error::NoMatchingCommits(b) && ({
                match configuration.branch {
                    Some(bn) => b matches Some(p) && p.0@ == bn@ && p.1
                        == configuration.branch_type,
                    None => b is None,
                }
            }))
        }),
{
    let merged = merge_ref_commits(refs_commits);
    let filtered = filter_commits(
        merged,
        since_epoch,
        until_epoch,
        configuration.merge_requests,
    );
    let estimates = estimate_author_times(configuration, filtered);
    if estimates.len() == 0 {
        match &configuration.branch {
            Some(b) => Err(
                Error::NoMatchingCommits(Some((b.clone(), configuration.branch_type))),
            ),
            None => Err(Error::NoMatchingCommits(None)),
        }
    } else {
        Ok(estimates)
    }
}

} // verus!
