//! The commit record consumed by the analysis, and the per-author estimate
//! record it produces.

use vstd::prelude::*;

verus! {

/// One commit of the analyzed history, as read from the version-control
/// backend: its unique id, author identity, timestamp (seconds since the
/// epoch, as recorded), and the first line of its message.
#[derive(Debug)]
pub struct Commit {
    pub id: Vec<u8>,
    pub author_name: Option<String>,
    pub author_email: Option<String>,
    pub timestamp: i64,
    pub summary: Option<String>,
}

/// The mathematical model of a [`Commit`].
pub struct CommitView {
    pub id: Seq<u8>,
    pub author_name: Option<Seq<char>>,
    pub author_email: Option<Seq<char>>,
    pub timestamp: i64,
    pub summary: Option<Seq<char>>,
}

pub open spec fn view_opt_string(s: Option<String>) -> Option<Seq<char>> {
    match s {
        Some(x) => Some(x@),
        None => None,
    }
}

impl View for Commit {
    type V = CommitView;

    open spec fn view(&self) -> CommitView {
        CommitView {
            id: self.id@,
            author_name: view_opt_string(self.author_name),
            author_email: view_opt_string(self.author_email),
            timestamp: self.timestamp,
            summary: view_opt_string(self.summary),
        }
    }
}

/// The models of a sequence of commits.
pub open spec fn commit_views(s: Seq<Commit>) -> Seq<CommitView> {
    s.map_values(|c: Commit| c@)
}

/// The estimate produced for one canonical author identity: the identity's
/// canonical email (absent for the bucket of email-less commits), a display
/// name, the total estimated work duration in seconds, and the number of
/// commits attributed to the identity.
#[derive(Debug)]
pub struct CommitHours {
    pub email: Option<String>,
    pub author_name: Option<String>,
    pub duration_seconds: i128,
    pub commit_count: usize,
}

/// The mathematical model of a [`CommitHours`].
pub struct CommitHoursView {
    pub email: Option<Seq<char>>,
    pub author_name: Option<Seq<char>>,
    pub duration_seconds: int,
    pub commit_count: int,
}

impl View for CommitHours {
    type V = CommitHoursView;

    open spec fn view(&self) -> CommitHoursView {
        CommitHoursView {
            email: view_opt_string(self.email),
            author_name: view_opt_string(self.author_name),
            duration_seconds: self.duration_seconds as int,
            commit_count: self.commit_count as int,
        }
    }
}

/// The models of a sequence of estimates.
pub open spec fn hours_views(s: Seq<CommitHours>) -> Seq<CommitHoursView> {
    s.map_values(|h: CommitHours| h@)
}

impl CommitHours {
    /// The estimated duration in whole minutes (truncated), the unit used
    /// by the reporting layer.
    pub fn duration_minutes(&self) -> (r: i128)
        requires
            self.duration_seconds >= 0,
        ensures
            r == self@.duration_seconds / 60,
    {
        let m: u128 = (self.duration_seconds as u128) / 60;
        assert(m == self@.duration_seconds / 60);
        m as i128
    }
}

} // verus!
