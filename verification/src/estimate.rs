//! The session estimator: converts each author's chronological commit
//! timestamp sequence into an estimated work duration, and ranks the
//! per-author estimates.

use vstd::prelude::*;
use vstd::multiset::Multiset;
use vstd::relations::{sorted_by, total_ordering};
use vstd::seq_lib::lemma_sorted_unique;
use crate::aliases::canonical_email;
use crate::commit::{
    Commit, CommitHours, CommitHoursView, CommitView, commit_views, hours_views, view_opt_string,
};
use crate::config::Configuration;

verus! {

/// The ascending order on timestamps.
pub open spec fn i64_le() -> spec_fn(i64, i64) -> bool {
    |a: i64, b: i64| a <= b
}

/// The timestamps of a sequence of commits, in order.
pub open spec fn timestamps(cs: Seq<CommitView>) -> Seq<i64> {
    cs.map_values(|c: CommitView| c.timestamp)
}

/// The estimated working seconds of a chronologically sorted timestamp
/// sequence: for each consecutive pair, the actual gap counts when it is
/// strictly below the threshold; otherwise the fixed session-start addition
/// is credited instead.
pub open spec fn session_seconds(ts: Seq<i64>, gap_secs: int, add_secs: int) -> int
    decreases ts.len(),
{
    if ts.len() <= 1 {
        0
    } else {
        let delta = ts[ts.len() - 1] - ts[ts.len() - 2];
        session_seconds(ts.drop_last(), gap_secs, add_secs) + if delta < gap_secs {
            delta
        } else {
            add_secs
        }
    }
}

/// The estimated duration of a (not necessarily sorted) timestamp sequence:
/// the session seconds of its ascending reordering.
pub open spec fn estimated_seconds(ts: Seq<i64>, gap_secs: int, add_secs: int) -> int {
    session_seconds(ts.sort_by(i64_le()), gap_secs, add_secs)
}

proof fn lemma_i64_le_total()
    ensures
        total_ordering(i64_le()),
{
}

/// A prefix of a sorted sequence is sorted.
proof fn lemma_sorted_drop_last(ts: Seq<i64>)
    requires
        sorted_by(ts, i64_le()),
        ts.len() >= 1,
    ensures
        sorted_by(ts.drop_last(), i64_le()),
{
    assert forall|i: int, j: int| 0 <= i < j < ts.drop_last().len() implies i64_le()(
        ts.drop_last()[i],
        ts.drop_last()[j],
    ) by {
        assert(ts.drop_last()[i] == ts[i]);
        assert(ts.drop_last()[j] == ts[j]);
    }
}

/// Bounds on the session estimate of a sorted sequence: it is nonnegative,
/// and no larger than the whole spanned interval plus one session-start
/// addition for every gap.
pub proof fn lemma_session_seconds_bounds(ts: Seq<i64>, gap_secs: int, add_secs: int)
    requires
        sorted_by(ts, i64_le()),
        add_secs >= 0,
        ts.len() >= 1,
    ensures
        0 <= session_seconds(ts, gap_secs, add_secs),
        session_seconds(ts, gap_secs, add_secs) <= ts.last() - ts.first() + (ts.len() - 1)
            * add_secs,
    decreases ts.len(),
{
    if ts.len() <= 1 {
    } else {
        let delta = ts[ts.len() - 1] - ts[ts.len() - 2];
        assert(i64_le()(ts[ts.len() - 2], ts[ts.len() - 1]));
        lemma_sorted_drop_last(ts);
        lemma_session_seconds_bounds(ts.drop_last(), gap_secs, add_secs);
        assert(ts.drop_last().last() == ts[ts.len() - 2]);
        assert(ts.drop_last().first() == ts.first());
        assert((ts.len() - 2) * add_secs + add_secs == (ts.len() - 1) * add_secs)
            by (nonlinear_arith);
    }
}

/// Sorts a vector of timestamps ascending.  The result is exactly the
/// ascending reordering of the input.
pub fn sort_timestamps(v: Vec<i64>) -> (r: Vec<i64>)
    ensures
        r@ == v@.sort_by(i64_le()),
        sorted_by(r@, i64_le()),
        r@.to_multiset() == v@.to_multiset(),
        r@.len() == v@.len(),
{
    broadcast use vstd::seq_lib::group_to_multiset_ensures;

    let mut work = v;
    let mut out: Vec<i64> = Vec::new();
    let ghost orig = work@;
    assert(out@.to_multiset().add(work@.to_multiset()) =~= orig.to_multiset());
    while work.len() > 0
        invariant
            out@.to_multiset().add(work@.to_multiset()) == orig.to_multiset(),
            out@.len() + work@.len() == orig.len(),
            sorted_by(out@, i64_le()),
            forall|i: int, j: int|
                0 <= i < out@.len() && 0 <= j < work@.len() ==> out@[i] <= work@[j],
        decreases work.len(),
    {
        let mut m: usize = 0;
        let mut k: usize = 1;
        while k < work.len()
            invariant
                0 <= m < k <= work@.len(),
                work@.len() > 0,
                forall|j: int| 0 <= j < k ==> work@[m as int] <= work@[j],
            decreases work.len() - k,
        {
            if work[k] < work[m] {
                m = k;
            }
            k = k + 1;
        }
        let ghost prev_work = work@;
        let ghost prev_out = out@;
        let x = work.remove(m);
        out.push(x);
        proof {
            vstd::seq_lib::to_multiset_contains(prev_work, x);
            vstd::seq_lib::to_multiset_remove(prev_work, m as int);
            vstd::seq_lib::to_multiset_build(prev_out, x);
            assert(prev_work.contains(prev_work[m as int]));
            assert(prev_work.to_multiset().count(x) > 0);
            assert(work@.to_multiset() == prev_work.to_multiset().remove(x));
            assert(out@.to_multiset() == prev_out.to_multiset().insert(x));
            assert(out@.to_multiset().add(work@.to_multiset()) =~= prev_out.to_multiset().add(
                prev_work.to_multiset(),
            ));
            assert(forall|j: int| 0 <= j < work@.len() ==> prev_work.contains(#[trigger] work@[j]))
                by {
                assert(forall|j: int|
                    0 <= j < work@.len() ==> work@[j] == if j < m {
                        prev_work[j]
                    } else {
                        prev_work[j + 1]
                    });
            }
            assert(forall|j: int| 0 <= j < work@.len() ==> x <= #[trigger] work@[j]) by {
                assert(forall|j: int|
                    0 <= j < work@.len() ==> work@[j] == if j < m {
                        prev_work[j]
                    } else {
                        prev_work[j + 1]
                    });
            }
        }
    }
    assert(work@.to_multiset() =~= Multiset::empty());
    assert(out@.to_multiset() =~= orig.to_multiset());
    proof {
        lemma_i64_le_total();
        orig.lemma_sort_by_ensures(i64_le());
        lemma_sorted_unique(out@, orig.sort_by(i64_le()), i64_le());
    }
    out
}

/// A prefix of a sorted sequence is sorted.
proof fn lemma_sorted_take(ts: Seq<i64>, n: int)
    requires
        sorted_by(ts, i64_le()),
        0 <= n <= ts.len(),
    ensures
        sorted_by(ts.take(n), i64_le()),
{
    assert forall|i: int, j: int| 0 <= i < j < ts.take(n).len() implies i64_le()(
        ts.take(n)[i],
        ts.take(n)[j],
    ) by {
        assert(ts.take(n)[i] == ts[i]);
        assert(ts.take(n)[j] == ts[j]);
    }
}

/// On an already sorted sequence, the estimate needs no reordering.
pub proof fn lemma_estimated_seconds_sorted(ts: Seq<i64>, gap_secs: int, add_secs: int)
    requires
        sorted_by(ts, i64_le()),
    ensures
        estimated_seconds(ts, gap_secs, add_secs) == session_seconds(ts, gap_secs, add_secs),
{
    lemma_i64_le_total();
    ts.lemma_sort_by_ensures(i64_le());
    lemma_sorted_unique(ts, ts.sort_by(i64_le()), i64_le());
}

/// A single commit is estimated at exactly zero working time: no session
/// overhead is credited for a lone commit.
pub proof fn lemma_single_commit_zero(ts: Seq<i64>, gap_secs: int, add_secs: int)
    requires
        ts.len() == 1,
    ensures
        estimated_seconds(ts, gap_secs, add_secs) == 0,
{
    broadcast use vstd::seq_lib::group_to_multiset_ensures;

    ts.lemma_sort_by_ensures(i64_le());
    vstd::seq_lib::to_multiset_len(ts);
    vstd::seq_lib::to_multiset_len(ts.sort_by(i64_le()));
    assert(ts.sort_by(i64_le()).len() == 1);
}

/// When every consecutive gap of a chronologically sorted sequence stays
/// strictly below the threshold, the estimate is exactly the spanned
/// interval: the difference between the last and the first timestamp.
pub proof fn lemma_continuous_session(ts: Seq<i64>, gap_secs: int, add_secs: int)
    requires
        sorted_by(ts, i64_le()),
        ts.len() >= 1,
        forall|i: int| 1 <= i < ts.len() ==> #[trigger] ts[i] - ts[i - 1] < gap_secs,
    ensures
        session_seconds(ts, gap_secs, add_secs) == ts.last() - ts.first(),
    decreases ts.len(),
{
    if ts.len() == 1 {
    } else {
        lemma_sorted_drop_last(ts);
        assert(forall|i: int|
            1 <= i < ts.drop_last().len() ==> #[trigger] ts.drop_last()[i] - ts.drop_last()[i - 1]
                < gap_secs) by {
            assert(forall|i: int| 0 <= i < ts.drop_last().len() ==> #[trigger] ts.drop_last()[i] == ts[i]);
        }
        lemma_continuous_session(ts.drop_last(), gap_secs, add_secs);
        assert(ts[ts.len() - 1] - ts[ts.len() - 2] < gap_secs);
    }
}

/// When every consecutive gap of a chronologically sorted sequence reaches
/// the threshold, the estimate is exactly one session-start addition per
/// gap: `(n - 1) * add_secs` for `n` commits.
pub proof fn lemma_detached_sessions(ts: Seq<i64>, gap_secs: int, add_secs: int)
    requires
        sorted_by(ts, i64_le()),
        ts.len() >= 1,
        forall|i: int| 1 <= i < ts.len() ==> #[trigger] ts[i] - ts[i - 1] >= gap_secs,
    ensures
        session_seconds(ts, gap_secs, add_secs) == (ts.len() - 1) * add_secs,
    decreases ts.len(),
{
    if ts.len() == 1 {
        assert(session_seconds(ts, gap_secs, add_secs) == 0);
        assert((ts.len() - 1) * add_secs == 0) by (nonlinear_arith)
            requires ts.len() == 1;
    } else {
        lemma_sorted_drop_last(ts);
        assert(forall|i: int|
            1 <= i < ts.drop_last().len() ==> #[trigger] ts.drop_last()[i] - ts.drop_last()[i - 1]
                >= gap_secs) by {
            assert(forall|i: int| 0 <= i < ts.drop_last().len() ==> #[trigger] ts.drop_last()[i] == ts[i]);
        }
        lemma_detached_sessions(ts.drop_last(), gap_secs, add_secs);
        assert(ts[ts.len() - 1] - ts[ts.len() - 2] >= gap_secs);
        assert(session_seconds(ts.drop_last(), gap_secs, add_secs) == (ts.drop_last().len() - 1)
            * add_secs);
        assert(session_seconds(ts, gap_secs, add_secs) == session_seconds(
            ts.drop_last(),
            gap_secs,
            add_secs,
        ) + add_secs);
        assert((ts.drop_last().len() - 1) * add_secs == (ts.len() - 2) * add_secs);
        assert(session_seconds(ts, gap_secs, add_secs) == (ts.len() - 2) * add_secs + add_secs);
        assert((ts.len() - 2) * add_secs + add_secs == (ts.len() - 1) * add_secs)
            by (nonlinear_arith);
        assert(session_seconds(ts, gap_secs, add_secs) == (ts.len() - 1) * add_secs);
    }
}

/// Clones an optional string, preserving its model.
pub fn clone_opt_string(s: &Option<String>) -> (r: Option<String>)
    ensures
        view_opt_string(r) == view_opt_string(*s),
{
    match s {
        Some(x) => Some(x.clone()),
        None => None,
    }
}

/// Estimates the working time of one author identity from the identity's
/// commits: the commits' timestamps are sorted ascending and the session-gap
/// heuristic is applied to every consecutive pair.  The display name is the
/// author name of the first commit in the given (collected, not time-sorted)
/// order; the commit count is the number of given commits.
pub fn estimate_author_time(
    commits: &Vec<Commit>,
    email: Option<String>,
    max_commit_diff: u32,
    first_commit_addition: u32,
) -> (r: CommitHours)
    requires
        commits@.len() > 0,
    ensures
        r@.email == view_opt_string(email),
        r@.author_name == commits@[0]@.author_name,
        r@.commit_count == commits@.len(),
        r@.duration_seconds == estimated_seconds(
            timestamps(commit_views(commits@)),
            max_commit_diff * 60,
            first_commit_addition * 60,
        ),
        r@.duration_seconds >= 0,
{
    let author_name = clone_opt_string(&commits[0].author_name);
    let gap_secs: i128 = (max_commit_diff as i128) * 60;
    let add_secs: i128 = (first_commit_addition as i128) * 60;

    let mut ts: Vec<i64> = Vec::new();
    let mut i: usize = 0;
    while i < commits.len()
        invariant
            0 <= i <= commits@.len(),
            ts@.len() == i,
            forall|j: int| 0 <= j < i ==> ts@[j] == commits@[j]@.timestamp,
        decreases commits@.len() - i,
    {
        ts.push(commits[i].timestamp);
        i = i + 1;
    }
    assert(ts@ =~= timestamps(commit_views(commits@)));
    let ghost unsorted = ts@;

    let sorted = sort_timestamps(ts);
    let ghost s = sorted@;
    proof {
        if s.len() >= 1 {
            lemma_session_seconds_bounds(s, gap_secs as int, add_secs as int);
        }
    }

    let mut acc: i128 = 0;
    let mut k: usize = 1;
    while k < sorted.len()
        invariant
            1 <= k <= s.len(),
            s.len() >= 1,
            sorted@ == s,
            sorted_by(s, i64_le()),
            gap_secs == max_commit_diff * 60,
            add_secs == first_commit_addition * 60,
            0 <= add_secs <= 0x10000000000,
            acc == session_seconds(s.take(k as int), gap_secs as int, add_secs as int),
            0 <= acc,
            acc <= s[k - 1] - s[0] + (k - 1) * add_secs,
        decreases sorted@.len() - k,
    {
        let delta: i128 = (sorted[k] as i128) - (sorted[k - 1] as i128);
        let term: i128 = if delta < gap_secs {
            delta
        } else {
            add_secs
        };
        proof {
            lemma_sorted_take(s, k + 1);
            lemma_session_seconds_bounds(s.take(k + 1), gap_secs as int, add_secs as int);
            assert(s.take(k + 1).drop_last() =~= s.take(k as int));
            assert(s.take(k + 1).last() == s[k as int]);
            assert(session_seconds(s.take(k + 1), gap_secs as int, add_secs as int) == acc
                + term);
            assert((k as int) * add_secs <= (k as int) * 0x10000000000) by (nonlinear_arith)
                requires 0 <= add_secs <= 0x10000000000, k >= 0;
            assert((k as int) * 0x10000000000 <= 0x20000000000000000 * 0x10000000000)
                by (nonlinear_arith)
                requires 0 <= k <= 0x20000000000000000;
        }
        acc = acc + term;
        k = k + 1;
    }
    proof {
        if s.len() >= 1 {
            assert(s.take(s.len() as int) =~= s);
        } else {
            assert(s.take(0) =~= s);
        }
    }

    CommitHours {
        email,
        author_name,
        duration_seconds: acc,
        commit_count: commits.len(),
    }
}


/// The grouping key of a commit: its author email mapped through the
/// alias table; commits without an author email share the absent key.
pub open spec fn key_of(c: CommitView, m: Map<Seq<char>, Seq<char>>) -> Option<Seq<char>> {
    match c.author_email {
        Some(e) => Some(canonical_email(m, e)),
        None => None,
    }
}

/// The commits carrying the given grouping key, in collected order.
pub open spec fn bucket(
    cs: Seq<CommitView>,
    m: Map<Seq<char>, Seq<char>>,
    k: Option<Seq<char>>,
) -> Seq<CommitView>
    decreases cs.len(),
{
    if cs.len() == 0 {
        Seq::empty()
    } else {
        let prev = bucket(cs.drop_last(), m, k);
        if key_of(cs.last(), m) == k {
            prev.push(cs.last())
        } else {
            prev
        }
    }
}

/// The distinct canonical emails of a commit sequence, in order of first
/// appearance.
pub open spec fn some_keys(cs: Seq<CommitView>, m: Map<Seq<char>, Seq<char>>) -> Seq<Seq<char>>
    decreases cs.len(),
{
    if cs.len() == 0 {
        Seq::empty()
    } else {
        let prev = some_keys(cs.drop_last(), m);
        match key_of(cs.last(), m) {
            Some(k) => if prev.contains(k) {
                prev
            } else {
                prev.push(k)
            },
            None => prev,
        }
    }
}

/// The estimate of one identity bucket: the key as canonical email, the
/// author name of the bucket's first collected commit, the session
/// estimate of the bucket's timestamps, and the bucket's size.
pub open spec fn estimate_view(
    cs: Seq<CommitView>,
    m: Map<Seq<char>, Seq<char>>,
    k: Option<Seq<char>>,
    max_diff: int,
    first_add: int,
) -> CommitHoursView {
    let b = bucket(cs, m, k);
    CommitHoursView {
        email: k,
        author_name: if b.len() > 0 {
            b[0].author_name
        } else {
            None
        },
        duration_seconds: estimated_seconds(timestamps(b), max_diff * 60, first_add * 60),
        commit_count: b.len() as int,
    }
}

/// All per-identity estimates of a commit sequence: the estimate of the
/// email-less bucket first when that bucket is non-empty, then one
/// estimate per canonical email in order of first appearance.
pub open spec fn all_estimates(
    cs: Seq<CommitView>,
    m: Map<Seq<char>, Seq<char>>,
    max_diff: int,
    first_add: int,
) -> Seq<CommitHoursView> {
    let none_part = if bucket(cs, m, None).len() > 0 {
        seq![estimate_view(cs, m, None, max_diff, first_add)]
    } else {
        Seq::empty()
    };
    none_part + some_keys(cs, m).map_values(
        |k: Seq<char>| estimate_view(cs, m, Some(k), max_diff, first_add),
    )
}

/// No canonical email appears twice in the key order.
proof fn lemma_some_keys_distinct(cs: Seq<CommitView>, m: Map<Seq<char>, Seq<char>>)
    ensures
        forall|p: int, q: int|
            0 <= p < q < some_keys(cs, m).len() ==> some_keys(cs, m)[p] != some_keys(cs, m)[q],
    decreases cs.len(),
{
    if cs.len() == 0 {
    } else {
        lemma_some_keys_distinct(cs.drop_last(), m);
        let prev = some_keys(cs.drop_last(), m);
        let now = some_keys(cs, m);
        assert forall|p: int, q: int| 0 <= p < q < now.len() implies now[p] != now[q] by {
            if q < prev.len() {
                assert(now[p] == prev[p] && now[q] == prev[q]);
            } else {
                assert(now == prev.push(now[q]));
                assert(!prev.contains(now[q]));
                assert(now[p] == prev[p]);
            }
        }
    }
}

/// A bucket is inhabited exactly when its key appears in the key order.
proof fn lemma_bucket_nonempty_iff(cs: Seq<CommitView>, m: Map<Seq<char>, Seq<char>>, k: Seq<char>)
    ensures
        bucket(cs, m, Some(k)).len() > 0 <==> some_keys(cs, m).contains(k),
    decreases cs.len(),
{
    if cs.len() == 0 {
    } else {
        lemma_bucket_nonempty_iff(cs.drop_last(), m, k);
        let prev_b = bucket(cs.drop_last(), m, Some(k));
        let prev_k = some_keys(cs.drop_last(), m);
        if key_of(cs.last(), m) == Some(k) {
            assert(bucket(cs, m, Some(k)) == prev_b.push(cs.last()));
            assert(some_keys(cs, m).contains(k)) by {
                if prev_k.contains(k) {
                } else {
                    assert(some_keys(cs, m) == prev_k.push(k));
                    assert(some_keys(cs, m)[some_keys(cs, m).len() - 1] == k);
                }
            }
        } else {
            assert(bucket(cs, m, Some(k)) == prev_b);
            assert(some_keys(cs, m).contains(k) == prev_k.contains(k)) by {
                match key_of(cs.last(), m) {
                    Some(k2) => {
                        if !prev_k.contains(k2) {
                            assert(some_keys(cs, m) == prev_k.push(k2));
                            if prev_k.contains(k) {
                                let w = choose|w: int| 0 <= w < prev_k.len() && prev_k[w] == k;
                                assert(some_keys(cs, m)[w] == k);
                            }
                            if some_keys(cs, m).contains(k) {
                                let w = choose|w: int|
                                    0 <= w < some_keys(cs, m).len() && some_keys(cs, m)[w] == k;
                                assert(w < prev_k.len());
                                assert(prev_k[w] == k);
                            }
                        }
                    },
                    None => {},
                }
            }
        }
    }
}

/// The ranking order: strictly greater duration first; on equal
/// durations, greater commit count first.
pub open spec fn rank_le() -> spec_fn(CommitHoursView, CommitHoursView) -> bool {
    |a: CommitHoursView, b: CommitHoursView|
        a.duration_seconds > b.duration_seconds || (a.duration_seconds == b.duration_seconds
            && a.commit_count >= b.commit_count)
}

/// Whether `a` ranks at least as high as `b`.
fn ranks_before(a: &CommitHours, b: &CommitHours) -> (r: bool)
    ensures
        r == rank_le()(a@, b@),
{
    a.duration_seconds > b.duration_seconds || (a.duration_seconds == b.duration_seconds
        && a.commit_count >= b.commit_count)
}

/// Sorts the estimates for the report: descending by duration, ties
/// broken descending by commit count; estimates tied on both keep their
/// relative input order.
pub fn rank_estimates(v: Vec<CommitHours>) -> (r: Vec<CommitHours>)
    ensures
        sorted_by(hours_views(r@), rank_le()),
        hours_views(r@).to_multiset() == hours_views(v@).to_multiset(),
        r@.len() == v@.len(),
{
    broadcast use vstd::seq_lib::group_to_multiset_ensures;

    let mut work = v;
    let mut out: Vec<CommitHours> = Vec::new();
    let ghost orig = hours_views(work@);
    assert(hours_views(out@).to_multiset().add(hours_views(work@).to_multiset())
        =~= orig.to_multiset());
    while work.len() > 0
        invariant
            hours_views(out@).to_multiset().add(hours_views(work@).to_multiset())
                == orig.to_multiset(),
            out@.len() + work@.len() == orig.len(),
            sorted_by(hours_views(out@), rank_le()),
            forall|i: int, j: int|
                0 <= i < out@.len() && 0 <= j < work@.len() ==> rank_le()(
                    hours_views(out@)[i],
                    hours_views(work@)[j],
                ),
        decreases work.len(),
    {
        let mut m: usize = 0;
        let mut k: usize = 1;
        while k < work.len()
            invariant
                0 <= m < k <= work@.len(),
                work@.len() > 0,
                forall|j: int|
                    0 <= j < k ==> rank_le()(hours_views(work@)[m as int], hours_views(work@)[j]),
            decreases work.len() - k,
        {
            if !ranks_before(&work[m], &work[k]) {
                m = k;
            }
            k = k + 1;
        }
        let ghost prev_work = hours_views(work@);
        let ghost prev_out = hours_views(out@);
        let x = work.remove(m);
        out.push(x);
        proof {
            vstd::seq_lib::to_multiset_contains(prev_work, x@);
            vstd::seq_lib::to_multiset_remove(prev_work, m as int);
            vstd::seq_lib::to_multiset_build(prev_out, x@);
            assert(prev_work.contains(prev_work[m as int]));
            assert(hours_views(work@) =~= prev_work.remove(m as int));
            assert(hours_views(out@) =~= prev_out.push(x@));
            assert(hours_views(out@).to_multiset().add(hours_views(work@).to_multiset())
                =~= prev_out.to_multiset().add(prev_work.to_multiset()));
            assert(forall|j: int|
                0 <= j < work@.len() ==> hours_views(work@)[j] == if j < m {
                    prev_work[j]
                } else {
                    prev_work[j + 1]
                });
            assert(forall|j: int|
                0 <= j < work@.len() ==> rank_le()(x@, #[trigger] hours_views(work@)[j]));
        }
    }
    assert(hours_views(work@).to_multiset() =~= Multiset::empty());
    assert(hours_views(out@).to_multiset() =~= orig.to_multiset());
    out
}

/// The first stored key equal to `k`, if one exists.
fn find_key(keys: &Vec<String>, k: &String) -> (r: Option<usize>)
    ensures
        match r {
            Some(j) => j < keys@.len() && keys@[j as int]@ == k@ && forall|p: int|
                0 <= p < j ==> keys@[p]@ != k@,
            None => forall|p: int| 0 <= p < keys@.len() ==> keys@[p]@ != k@,
        },
{
    let mut j: usize = 0;
    while j < keys.len()
        invariant
            0 <= j <= keys@.len(),
            forall|p: int| 0 <= p < j ==> keys@[p]@ != k@,
        decreases keys@.len() - j,
    {
        if keys[j] == *k {
            return Some(j);
        }
        j = j + 1;
    }
    None
}

/// The models of the stored keys.
pub open spec fn key_views(keys: Seq<String>) -> Seq<Seq<char>> {
    keys.map_values(|s: String| s@)
}

/// Collects the per-author time estimates of the filtered commits:
/// commits are grouped by canonical identity (their author email mapped
/// through the alias table; email-less commits form one shared bucket,
/// reported first), each bucket is estimated by the session-gap
/// heuristic, and the estimates are ranked for the report.  An empty
/// commit set yields an empty list.
pub fn estimate_author_times(configuration: &Configuration, commits: Vec<Commit>) -> (r: Vec<
    CommitHours,
>)
    ensures
        hours_views(r@).to_multiset() == all_estimates(
            commit_views(commits@),
            configuration.email_aliases@,
            configuration.max_commit_diff as int,
            configuration.first_commit_addition as int,
        ).to_multiset(),
        sorted_by(hours_views(r@), rank_le()),
        r@.len() == all_estimates(
            commit_views(commits@),
            configuration.email_aliases@,
            configuration.max_commit_diff as int,
            configuration.first_commit_addition as int,
        ).len(),
{
    let ghost m = configuration.email_aliases@;
    let ghost orig = commit_views(commits@);
    let mut work = commits;
    let mut no_email: Vec<Commit> = Vec::new();
    let mut keys: Vec<String> = Vec::new();
    let mut groups: Vec<Vec<Commit>> = Vec::new();
    let ghost done: Seq<CommitView> = Seq::empty();
    assert(done + commit_views(work@) =~= orig);
    assert(commit_views(no_email@) =~= bucket(done, m, None));
    assert(key_views(keys@) =~= some_keys(done, m));
    while work.len() > 0
        invariant
            m == configuration.email_aliases@,
            done + commit_views(work@) == orig,
            commit_views(no_email@) == bucket(done, m, None),
            key_views(keys@) == some_keys(done, m),
            keys@.len() == groups@.len(),
            forall|j: int|
                0 <= j < groups@.len() ==> commit_views(#[trigger] groups@[j]@) == bucket(
                    done,
                    m,
                    Some(key_views(keys@)[j]),
                ),
            forall|j: int| 0 <= j < groups@.len() ==> #[trigger] groups@[j]@.len() > 0,
        decreases work@.len(),
    {
        let ghost prev_done = done;
        let c = work.remove(0);
        proof {
            done = done.push(c@);
            assert(done.drop_last() =~= prev_done);
            assert(done + commit_views(work@) =~= orig);
        }
        match &c.author_email {
            None => {
                let ghost prev_ne = commit_views(no_email@);
                no_email.push(c);
                proof {
                    assert(key_of(done.last(), m) is None);
                    assert(commit_views(no_email@) =~= prev_ne.push(done.last()));
                    assert(commit_views(no_email@) =~= bucket(done, m, None));
                    assert(some_keys(done, m) == some_keys(prev_done, m));
                    assert(forall|j: int|
                        0 <= j < groups@.len() ==> bucket(
                            done,
                            m,
                            Some(key_views(keys@)[j]),
                        ) == bucket(prev_done, m, Some(key_views(keys@)[j])));
                }
            },
            Some(e) => {
                let key = configuration.email_aliases.canonical(e);
                proof {
                    assert(key_of(done.last(), m) == Some(key@));
                }
                match find_key(&keys, &key) {
                    Some(j) => {
                        proof {
                            assert(key_views(keys@)[j as int] == key@);
                            assert(some_keys(done, m).contains(key@)) by {
                                assert(key_views(keys@)[j as int] == key@);
                            }
                            assert(some_keys(done, m) == some_keys(prev_done, m));
                            lemma_some_keys_distinct(prev_done, m);
                        }
                        let ghost prev_groups = groups@;
                        let mut g = groups.remove(j);
                        let ghost prev_g = commit_views(g@);
                        g.push(c);
                        groups.insert(j, g);
                        proof {
                            assert(groups@.len() == prev_groups.len());
                            assert(forall|p: int|
                                0 <= p < groups@.len() && p != j ==> groups@[p]
                                    == prev_groups[p]);
                            assert(commit_views(groups@[j as int]@) =~= prev_g.push(done.last()));
                            assert(commit_views(groups@[j as int]@) =~= bucket(
                                done,
                                m,
                                Some(key@),
                            ));
                            assert(forall|p: int|
                                0 <= p < groups@.len() && p != j ==> key_views(keys@)[p]
                                    != key@);
                            assert(forall|p: int|
                                0 <= p < groups@.len() && p != j ==> bucket(
                                    done,
                                    m,
                                    Some(key_views(keys@)[p]),
                                ) == bucket(prev_done, m, Some(key_views(keys@)[p])));
                            assert(bucket(done, m, None) == bucket(prev_done, m, None));
                        }
                    },
                    None => {
                        proof {
                            assert(forall|p: int|
                                0 <= p < key_views(keys@).len() ==> #[trigger] key_views(
                                    keys@,
                                )[p] != key@);
                            assert(!some_keys(prev_done, m).contains(key@));
                            lemma_bucket_nonempty_iff(prev_done, m, key@);
                            assert(bucket(prev_done, m, Some(key@)).len() == 0);
                            assert(bucket(prev_done, m, Some(key@)) =~= Seq::<CommitView>::empty());
                        }
                        let ghost prev_keys = keys@;
                        keys.push(key);
                        let mut g: Vec<Commit> = Vec::new();
                        g.push(c);
                        groups.push(g);
                        proof {
                            assert(key_views(keys@) =~= key_views(prev_keys).push(
                                keys@.last()@,
                            ));
                            assert(some_keys(done, m) == some_keys(prev_done, m).push(
                                keys@.last()@,
                            ));
                            assert(commit_views(groups@.last()@) =~= seq![done.last()]);
                            assert(bucket(done, m, Some(keys@.last()@)) =~= seq![done.last()]);
                            assert(forall|p: int|
                                0 <= p < groups@.len() - 1 ==> groups@[p]
                                    == #[trigger] groups@.subrange(0, groups@.len() - 1)[p]);
                            assert(forall|p: int|
                                0 <= p < groups@.len() - 1 ==> key_views(keys@)[p]
                                    == key_views(prev_keys)[p]);
                            assert(forall|p: int|
                                0 <= p < groups@.len() - 1 ==> key_views(keys@)[p] != key@);
                            assert(forall|p: int|
                                0 <= p < groups@.len() - 1 ==> bucket(
                                    done,
                                    m,
                                    Some(key_views(keys@)[p]),
                                ) == bucket(prev_done, m, Some(key_views(keys@)[p])));
                            assert(bucket(done, m, None) == bucket(prev_done, m, None));
                        }
                    },
                }
            },
        }
    }
    proof {
        assert(commit_views(work@) =~= Seq::<CommitView>::empty());
        assert(done =~= orig);
    }

    let ghost max_diff = configuration.max_commit_diff as int;
    let ghost first_add = configuration.first_commit_addition as int;
    let ghost skeys = some_keys(orig, m);
    let ghost ests = all_estimates(orig, m, max_diff, first_add);
    let mut pre: Vec<CommitHours> = Vec::new();
    let ghost none_part = if bucket(orig, m, None).len() > 0 {
        seq![estimate_view(orig, m, None, max_diff, first_add)]
    } else {
        Seq::<CommitHoursView>::empty()
    };
    if no_email.len() > 0 {
        let h = estimate_author_time(
            &no_email,
            None,
            configuration.max_commit_diff,
            configuration.first_commit_addition,
        );
        pre.push(h);
        assert(h@ == estimate_view(orig, m, None, max_diff, first_add));
        assert(hours_views(pre@) =~= none_part);
    } else {
        assert(bucket(orig, m, None).len() == 0);
        assert(hours_views(pre@) =~= none_part);
    }
    let mut j: usize = 0;
    while j < groups.len()
        invariant
            m == configuration.email_aliases@,
            max_diff == configuration.max_commit_diff as int,
            first_add == configuration.first_commit_addition as int,
            keys@.len() == groups@.len(),
            key_views(keys@) == skeys,
            skeys == some_keys(orig, m),
            0 <= j <= groups@.len(),
            forall|p: int|
                0 <= p < groups@.len() ==> commit_views(#[trigger] groups@[p]@) == bucket(
                    orig,
                    m,
                    Some(skeys[p]),
                ),
            forall|p: int| 0 <= p < groups@.len() ==> #[trigger] groups@[p]@.len() > 0,
            hours_views(pre@) == none_part + skeys.take(j as int).map_values(
                |k: Seq<char>| estimate_view(orig, m, Some(k), max_diff, first_add),
            ),
        decreases groups@.len() - j,
    {
        let email_s = keys[j].clone();
        let ghost prev_pre = hours_views(pre@);
        let h = estimate_author_time(
            &groups[j],
            Some(email_s),
            configuration.max_commit_diff,
            configuration.first_commit_addition,
        );
        pre.push(h);
        proof {
            assert(h@ == estimate_view(orig, m, Some(skeys[j as int]), max_diff, first_add));
            assert(hours_views(pre@) =~= prev_pre.push(h@));
            let f = |k: Seq<char>| estimate_view(orig, m, Some(k), max_diff, first_add);
            assert(skeys.take(j + 1).map_values(f) =~= skeys.take(j as int).map_values(f).push(
                f(skeys[j as int]),
            ));
            assert(hours_views(pre@) =~= none_part + skeys.take(j + 1).map_values(f));
        }
        j = j + 1;
    }
    proof {
        let f = |k: Seq<char>| estimate_view(orig, m, Some(k), max_diff, first_add);
        assert(skeys.take(skeys.len() as int) =~= skeys);
        assert(hours_views(pre@) =~= ests);
    }
    rank_estimates(pre)
}


/// Ranking is total: of any two ranked estimates, the one with strictly
/// greater duration stands first; on a duration tie, the one with the
/// strictly greater commit count stands first.
pub proof fn lemma_ranking_total(s: Seq<CommitHoursView>, i: int, j: int)
    requires
        sorted_by(s, rank_le()),
        0 <= i < j < s.len(),
    ensures
        s[j].duration_seconds <= s[i].duration_seconds,
        s[i].duration_seconds == s[j].duration_seconds ==> s[j].commit_count <= s[i].commit_count,
{
    assert(rank_le()(s[i], s[j]));
}

/// Buckets agree under alias mappings with the same canonical forms.
proof fn lemma_bucket_congruent(
    cs: Seq<CommitView>,
    m1: Map<Seq<char>, Seq<char>>,
    m2: Map<Seq<char>, Seq<char>>,
    k: Option<Seq<char>>,
)
    requires
        forall|e: Seq<char>| #[trigger] canonical_email(m1, e) == canonical_email(m2, e),
    ensures
        bucket(cs, m1, k) == bucket(cs, m2, k),
    decreases cs.len(),
{
    if cs.len() == 0 {
    } else {
        lemma_bucket_congruent(cs.drop_last(), m1, m2, k);
        assert(key_of(cs.last(), m1) == key_of(cs.last(), m2));
    }
}

/// Key orders agree under alias mappings with the same canonical forms.
proof fn lemma_some_keys_congruent(
    cs: Seq<CommitView>,
    m1: Map<Seq<char>, Seq<char>>,
    m2: Map<Seq<char>, Seq<char>>,
)
    requires
        forall|e: Seq<char>| #[trigger] canonical_email(m1, e) == canonical_email(m2, e),
    ensures
        some_keys(cs, m1) == some_keys(cs, m2),
    decreases cs.len(),
{
    if cs.len() == 0 {
    } else {
        lemma_some_keys_congruent(cs.drop_last(), m1, m2);
        assert(key_of(cs.last(), m1) == key_of(cs.last(), m2));
    }
}

/// The whole grouping agrees under alias mappings with the same canonical
/// forms.
proof fn lemma_estimates_congruent(
    cs: Seq<CommitView>,
    m1: Map<Seq<char>, Seq<char>>,
    m2: Map<Seq<char>, Seq<char>>,
    max_diff: int,
    first_add: int,
)
    requires
        forall|e: Seq<char>| #[trigger] canonical_email(m1, e) == canonical_email(m2, e),
    ensures
        all_estimates(cs, m1, max_diff, first_add) == all_estimates(cs, m2, max_diff, first_add),
{
    lemma_bucket_congruent(cs, m1, m2, None);
    lemma_some_keys_congruent(cs, m1, m2);
    assert forall|k: Option<Seq<char>>|
        #[trigger] estimate_view(cs, m1, k, max_diff, first_add) == estimate_view(
            cs,
            m2,
            k,
            max_diff,
            first_add,
        ) by {
        lemma_bucket_congruent(cs, m1, m2, k);
    }
    assert(all_estimates(cs, m1, max_diff, first_add) =~= all_estimates(
        cs,
        m2,
        max_diff,
        first_add,
    ));
}

/// Alias mapping is idempotent: a table that maps an already-canonical
/// email to itself groups exactly as no alias table at all.
pub proof fn lemma_identity_alias_no_effect(
    cs: Seq<CommitView>,
    e: Seq<char>,
    max_diff: int,
    first_add: int,
)
    ensures
        all_estimates(cs, Map::<Seq<char>, Seq<char>>::empty().insert(e, e), max_diff, first_add)
            == all_estimates(cs, Map::<Seq<char>, Seq<char>>::empty(), max_diff, first_add),
{
    let m1 = Map::<Seq<char>, Seq<char>>::empty().insert(e, e);
    let m2 = Map::<Seq<char>, Seq<char>>::empty();
    assert forall|x: Seq<char>| #[trigger] canonical_email(m1, x) == canonical_email(m2, x) by {
        if x == e {
            assert(m1[x] == x);
        } else {
            assert(!m1.contains_key(x));
        }
        assert(!m2.contains_key(x));
    }
    lemma_estimates_congruent(cs, m1, m2, max_diff, first_add);
}

} // verus!
