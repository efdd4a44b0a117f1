//! The derived totals handed to the reporting layer: the sum of the
//! per-author estimated minutes and the sum of the commit counts.

use vstd::prelude::*;
use crate::commit::{CommitHours, CommitHoursView, hours_views};

verus! {

/// The sum of the estimates' whole minutes.
pub open spec fn sum_minutes(s: Seq<CommitHoursView>) -> int
    decreases s.len(),
{
    if s.len() == 0 {
        0
    } else {
        sum_minutes(s.drop_last()) + s.last().duration_seconds / 60
    }
}

/// The sum of the estimates' commit counts.
pub open spec fn sum_counts(s: Seq<CommitHoursView>) -> int
    decreases s.len(),
{
    if s.len() == 0 {
        0
    } else {
        sum_counts(s.drop_last()) + s.last().commit_count
    }
}

/// With nonnegative durations and counts, a prefix sums to no more than
/// the whole sequence.
proof fn lemma_sums_mono(s: Seq<CommitHoursView>, k: int)
    requires
        0 <= k <= s.len(),
        forall|i: int| 0 <= i < s.len() ==> #[trigger] s[i].duration_seconds >= 0,
        forall|i: int| 0 <= i < s.len() ==> #[trigger] s[i].commit_count >= 0,
    ensures
        sum_minutes(s) >= sum_minutes(s.take(k)),
        sum_counts(s) >= sum_counts(s.take(k)),
    decreases s.len() - k,
{
    if k == s.len() {
        assert(s.take(k) =~= s);
    } else {
        lemma_sums_mono(s, k + 1);
        assert(s.take(k + 1).drop_last() =~= s.take(k));
        assert(s.take(k + 1).last() == s[k]);
        assert(s[k].duration_seconds / 60 >= 0);
    }
}

/// Sums the estimates for the report: the total estimated minutes and the
/// total commit count.  Yields nothing when a total overflows its machine
/// type (the estimates' durations are nonnegative, as the estimator
/// produces them).
pub fn get_totals(times: &Vec<CommitHours>) -> (r: Option<(i128, usize)>)
    requires
        forall|i: int|
            0 <= i < times@.len() ==> #[trigger] times@[i]@.duration_seconds >= 0,
    ensures
        r matches Some(t) ==> t.0 == sum_minutes(hours_views(times@)) && t.1 == sum_counts(
            hours_views(times@),
        ),
        r is None ==> sum_minutes(hours_views(times@)) > i128::MAX || sum_counts(
            hours_views(times@),
        ) > usize::MAX,
{
    let ghost hv = hours_views(times@);
    proof {
        assert(forall|i: int| 0 <= i < hv.len() ==> #[trigger] hv[i].duration_seconds >= 0);
        assert(forall|i: int| 0 <= i < hv.len() ==> #[trigger] hv[i].commit_count >= 0);
    }
    let mut total_minutes: i128 = 0;
    let mut total_commits: usize = 0;
    let mut i: usize = 0;
    while i < times.len()
        invariant
            0 <= i <= times@.len(),
            hv == hours_views(times@),
            forall|k: int| 0 <= k < hv.len() ==> #[trigger] hv[k].duration_seconds >= 0,
            forall|k: int| 0 <= k < hv.len() ==> #[trigger] hv[k].commit_count >= 0,
            total_minutes == sum_minutes(hv.take(i as int)),
            total_commits == sum_counts(hv.take(i as int)),
            total_minutes >= 0,
        decreases times@.len() - i,
    {
        proof {
            assert(hv[i as int] == times@[i as int]@);
            assert(times@[i as int]@.duration_seconds == times@[i as int].duration_seconds as int);
            assert(times@[i as int].duration_seconds >= 0);
        }
        let mins = times[i].duration_minutes();
        let cnt = times[i].commit_count;
        proof {
            assert(hv.take(i + 1).drop_last() =~= hv.take(i as int));
            assert(hv.take(i + 1).last() == hv[i as int]);
        }
        if total_minutes > i128::MAX - mins {
            proof {
                lemma_sums_mono(hv, i + 1);
            }
            return None;
        }
        total_minutes = total_minutes + mins;
        if total_commits > usize::MAX - cnt {
            proof {
                lemma_sums_mono(hv, i + 1);
            }
            return None;
        }
        total_commits = total_commits + cnt;
        i = i + 1;
    }
    proof {
        assert(hv.take(times@.len() as int) =~= hv);
    }
    Some((total_minutes, total_commits))
}

} // verus!
