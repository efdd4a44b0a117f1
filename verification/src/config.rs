//! The analysis configuration, consumed read-only by the pipeline.

use vstd::prelude::*;
use crate::aliases::AliasTable;
use crate::strings::{chars_of, chars_eq};
use crate::time_bound::CommitTimeBound;
use crate::{BranchKind, Error, ParseKind};

verus! {

/// The values one analysis run is configured with: the session-gap
/// threshold and session-start addition (both in minutes), the since/until
/// time bounds, the merge-inclusion flag, the email alias table, and the
/// branch selector with its kind.
pub struct Configuration {
    pub max_commit_diff: u32,
    pub first_commit_addition: u32,
    pub since: CommitTimeBound,
    pub until: CommitTimeBound,
    pub merge_requests: bool,
    pub email_aliases: AliasTable,
    pub branch: Option<String>,
    pub branch_type: BranchKind,
}

/// Parses a branch kind name: exactly `local` or `remote`; any other text
/// is rejected, reported with the offending input.
pub fn parse_branch_kind(s: &str) -> (r: Result<BranchKind, Error>)
    ensures
        s@ == "local"@ ==> r == Ok::<BranchKind, Error>(BranchKind::Local),
        s@ == "remote"@ ==> r == Ok::<BranchKind, Error>(BranchKind::Remote),
        !(s@ == "local"@) && !(s@ == "remote"@) ==> (r matches Err(e) && (e matches Error::Parse(
            k,
            t,
        ) && k == ParseKind::BranchType && t@ == s@)),
{
    proof {
        reveal_strlit("local");
        reveal_strlit("remote");
        assert("local"@.len() == 5);
        assert("remote"@.len() == 6);
    }
    let sc = chars_of(s);
    if chars_eq(&sc, &chars_of("local")) {
        Ok(BranchKind::Local)
    } else if chars_eq(&sc, &chars_of("remote")) {
        Ok(BranchKind::Remote)
    } else {
        Err(Error::Parse(ParseKind::BranchType, s.to_owned()))
    }
}

} // verus!
