//! The branch/commit collector: reference matching, repository-context
//! selection, and global deduplication of the commits reachable from all
//! matching references.

use vstd::prelude::*;
use crate::commit::{Commit, CommitView, commit_views, view_opt_string};
use crate::strings::{chars_of, chars_eq, chars_prefix};
use crate::BranchKind;

verus! {

/// The fully-qualified reference prefix of a branch kind.
pub open spec fn kind_prefix(kind: BranchKind) -> Seq<char> {
    match kind {
        BranchKind::Local => "refs/heads/"@,
        BranchKind::Remote => "refs/remotes/"@,
    }
}

/// Whether a fully-qualified reference name matches the analysis request:
/// with a branch name given, the name must be exactly the kind's prefix
/// followed by the branch name; without one, every name under the kind's
/// prefix matches.
pub open spec fn ref_matches_spec(
    name: Seq<char>,
    branch: Option<Seq<char>>,
    kind: BranchKind,
) -> bool {
    match branch {
        Some(b) => name == kind_prefix(kind) + b,
        None => kind_prefix(kind).is_prefix_of(name),
    }
}

/// Decides whether the reference named `name` belongs to the analysis.
pub fn ref_matches(name: &str, branch: &Option<String>, kind: BranchKind) -> (r: bool)
    ensures
        r == ref_matches_spec(name@, view_opt_string(*branch), kind),
{
    let nc = chars_of(name);
    let pc = match kind {
        BranchKind::Local => chars_of("refs/heads/"),
        BranchKind::Remote => chars_of("refs/remotes/"),
    };
    match branch {
        None => chars_prefix(&nc, &pc),
        Some(b) => {
            let mut expected = pc;
            let mut bc = chars_of(b.as_str());
            expected.append(&mut bc);
            chars_eq(&nc, &expected)
        },
    }
}

/// Picks the repository context of an analysis path: when the path equals
/// the worktree path of a registered sub-repository, the analysis must run
/// on that sub-repository's own history.  Returns the index of the first
/// sub-repository whose worktree path equals the requested path, if any.
pub fn select_repository(submodule_paths: &Vec<String>, path: &String) -> (r: Option<usize>)
    ensures
        match r {
            Some(k) => k < submodule_paths@.len() && submodule_paths@[k as int]@ == path@
                && forall|j: int| 0 <= j < k ==> submodule_paths@[j]@ != path@,
            None => forall|j: int|
                0 <= j < submodule_paths@.len() ==> submodule_paths@[j]@ != path@,
        },
{
    let mut k: usize = 0;
    while k < submodule_paths.len()
        invariant
            0 <= k <= submodule_paths@.len(),
            forall|j: int| 0 <= j < k ==> submodule_paths@[j]@ != path@,
        decreases submodule_paths@.len() - k,
    {
        if submodule_paths[k] == *path {
            return Some(k);
        }
        k = k + 1;
    }
    None
}

/// Whether some commit of the sequence carries the given id.
pub open spec fn has_id(cs: Seq<CommitView>, id: Seq<u8>) -> bool {
    exists|k: int| 0 <= k < cs.len() && cs[k].id == id
}

/// The sequence with every commit whose id was already seen earlier in the
/// sequence removed: each id's first occurrence survives, in order.
pub open spec fn dedup_commits(cs: Seq<CommitView>) -> Seq<CommitView>
    decreases cs.len(),
{
    if cs.len() == 0 {
        Seq::empty()
    } else {
        let prev = dedup_commits(cs.drop_last());
        if has_id(prev, cs.last().id) {
            prev
        } else {
            prev.push(cs.last())
        }
    }
}

/// The commits of all per-reference traversals, concatenated in reference
/// order.
pub open spec fn flat_views(vss: Seq<Vec<Commit>>) -> Seq<CommitView>
    decreases vss.len(),
{
    if vss.len() == 0 {
        Seq::empty()
    } else {
        flat_views(vss.drop_last()) + commit_views(vss.last()@)
    }
}

/// Whether the two byte vectors hold the same bytes.
pub fn bytes_eq(a: &Vec<u8>, b: &Vec<u8>) -> (r: bool)
    ensures
        r == (a@ == b@),
{
    if a.len() != b.len() {
        assert(a@.len() != b@.len());
        return false;
    }
    let mut i: usize = 0;
    while i < a.len()
        invariant
            0 <= i <= a.len(),
            a@.len() == b@.len(),
            forall|j: int| 0 <= j < i ==> a@[j] == b@[j],
        decreases a.len() - i,
    {
        if a[i] != b[i] {
            return false;
        }
        i = i + 1;
    }
    assert(a@ =~= b@);
    true
}

/// Whether a commit with the given id was already collected.
fn contains_id(cs: &Vec<Commit>, id: &Vec<u8>) -> (r: bool)
    ensures
        r == has_id(commit_views(cs@), id@),
{
    let mut i: usize = 0;
    while i < cs.len()
        invariant
            0 <= i <= cs@.len(),
            forall|k: int| 0 <= k < i ==> commit_views(cs@)[k].id != id@,
        decreases cs@.len() - i,
    {
        if bytes_eq(&cs[i].id, id) {
            assert(commit_views(cs@)[i as int].id == id@);
            return true;
        }
        i = i + 1;
    }
    false
}

/// Merges the per-reference commit traversals into one list: the
/// traversals are concatenated in reference order and a commit already
/// emitted by an earlier traversal is not re-emitted, so each commit id's
/// first occurrence survives, preserving per-reference chronological order.
pub fn merge_ref_commits(refs_commits: Vec<Vec<Commit>>) -> (r: Vec<Commit>)
    ensures
        commit_views(r@) == dedup_commits(flat_views(refs_commits@)),
{
    let ghost orig_lists = refs_commits@;
    let mut lists = refs_commits;
    let mut out: Vec<Commit> = Vec::new();
    let ghost seen: Seq<CommitView> = Seq::empty();
    let ghost i: int = 0;
    assert(commit_views(out@) =~= dedup_commits(seen));
    assert(flat_views(orig_lists.take(0)) =~= seen);
    assert(lists@ =~= orig_lists.skip(0));
    while lists.len() > 0
        invariant
            0 <= i <= orig_lists.len(),
            lists@ == orig_lists.skip(i),
            seen == flat_views(orig_lists.take(i)),
            commit_views(out@) == dedup_commits(seen),
        decreases lists@.len(),
    {
        let ghost prev_seen_outer = seen;
        let mut cur = lists.remove(0);
        let ghost cur_orig = cur@;
        proof {
            assert(cur_orig == orig_lists[i]@);
            assert(lists@ =~= orig_lists.skip(i + 1));
            assert(commit_views(cur_orig).take(0) =~= Seq::<CommitView>::empty());
            assert(seen =~= flat_views(orig_lists.take(i)) + commit_views(cur_orig).take(0));
        }
        while cur.len() > 0
            invariant
                0 <= i < orig_lists.len(),
                cur_orig == orig_lists[i]@,
                cur@.len() <= cur_orig.len(),
                commit_views(cur_orig).skip(cur_orig.len() - cur@.len()) == commit_views(cur@),
                seen == flat_views(orig_lists.take(i)) + commit_views(cur_orig).take(
                    cur_orig.len() - cur@.len(),
                ),
                commit_views(out@) == dedup_commits(seen),
            decreases cur@.len(),
        {
            let ghost prev_seen = seen;
            let ghost prev_cur = cur@;
            let c = cur.remove(0);
            proof {
                seen = seen.push(c@);
                assert(seen.drop_last() =~= prev_seen);
                let k = cur_orig.len() - prev_cur.len();
                assert(commit_views(prev_cur)[0] == c@);
                assert(commit_views(cur_orig)[k] == c@);
                assert(commit_views(cur_orig).take(k + 1) =~= commit_views(cur_orig).take(k).push(
                    c@,
                ));
                assert(seen =~= flat_views(orig_lists.take(i)) + commit_views(cur_orig).take(
                    k + 1,
                ));
                assert(forall|j: int|
                    0 <= j < cur@.len() ==> #[trigger] commit_views(cur@)[j] == commit_views(
                        prev_cur,
                    )[j + 1]);
                assert(forall|j: int|
                    0 <= j < prev_cur.len() ==> #[trigger] commit_views(prev_cur)[j]
                        == commit_views(cur_orig).skip(k)[j]);
                assert(commit_views(cur_orig).skip(k + 1) =~= commit_views(cur@));
            }
            if !contains_id(&out, &c.id) {
                let ghost prev_out = out@;
                out.push(c);
                assert(commit_views(out@).drop_last() =~= commit_views(prev_out));
                assert(commit_views(out@) =~= dedup_commits(seen));
            } else {
                assert(commit_views(out@) =~= dedup_commits(seen));
            }
        }
        proof {
            assert(commit_views(cur_orig).take(cur_orig.len() as int) =~= commit_views(cur_orig));
            assert(orig_lists.take(i + 1).drop_last() =~= orig_lists.take(i));
            assert(orig_lists.take(i + 1).last() == orig_lists[i]);
            assert(flat_views(orig_lists.take(i + 1)) == flat_views(orig_lists.take(i))
                + commit_views(orig_lists[i]@));
            assert(seen =~= flat_views(orig_lists.take(i + 1)));
            i = i + 1;
        }
    }
    proof {
        assert(orig_lists.take(i) =~= orig_lists);
    }
    out
}

} // verus!
