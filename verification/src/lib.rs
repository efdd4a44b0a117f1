//! Estimation of per-author working time from the commit history of a
//! version-controlled source tree.
//!
//! The crate collects the commits reachable from a set of branch references,
//! filters them by time bounds and a merge-commit policy, groups them by
//! canonical author identity, and converts each author's chronological
//! timestamp sequence into an estimated work duration via a session-gap
//! heuristic, followed by deterministic ranking.

pub mod aliases;
pub mod analyze;
pub mod calendar;
pub mod collect;
pub mod commit;
pub mod config;
pub mod dates;
pub mod estimate;
pub mod filter;
pub mod strings;
pub mod time_bound;
pub mod totals;

use vstd::prelude::*;

verus! {

/// The kind of branch reference to analyze: a local branch (under
/// `refs/heads/`) or a remote-tracking branch (under `refs/remotes/`).
#[derive(Clone, Copy, Debug, PartialEq, Eq, Structural)]
pub enum BranchKind {
    Local,
    Remote,
}

/// What a malformed input was expected to be.
#[derive(Clone, Copy, Debug, PartialEq, Eq, Structural)]
pub enum ParseKind {
    /// A time bound: one of the symbolic tokens or a `YYYY-MM-DD` date.
    TimeBound,
    /// An email alias pair, `SECONDARY=PRIMARY`.
    EmailAlias,
    /// A branch kind name, `local` or `remote`.
    BranchType,
}

/// The failures an analysis run can end with.  Every failure is terminal:
/// either a complete estimate list is produced or the run fails with exactly
/// one of these.
#[derive(Debug)]
pub enum Error {
    /// No repository is discoverable from the given path.
    RepositoryNotFound,
    /// Reference enumeration or commit traversal failed in the backend.
    RepositoryAccess,
    /// A malformed textual input, carried along with the offending text.
    Parse(ParseKind, String),
    /// Collection and filtering yielded zero commits; carries the requested
    /// branch and its kind when one was specified.
    NoMatchingCommits(Option<(String, BranchKind)>),
}

} // verus!
