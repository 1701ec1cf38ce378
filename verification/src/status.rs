//! The states a download passes through.

use vstd::prelude::*;
use crate::text::str_eq;

verus! {

/// Where a download stands in its life.
#[derive(Debug, Clone, Copy, PartialEq, Eq, Structural)]
pub enum DownloadStatus {
    Pending,
    Queued,
    Downloading,
    Paused,
    Completed,
    Failed,
    Cancelled,
}

/// The lower-case name under which a status is stored and sent.
pub open spec fn status_name(status: DownloadStatus) -> Seq<char> {
    match status {
        DownloadStatus::Pending => "pending"@,
        DownloadStatus::Queued => "queued"@,
        DownloadStatus::Downloading => "downloading"@,
        DownloadStatus::Paused => "paused"@,
        DownloadStatus::Completed => "completed"@,
        DownloadStatus::Failed => "failed"@,
        DownloadStatus::Cancelled => "cancelled"@,
    }
}

/// The status that a stored name stands for; an unknown name reads as
/// `Pending`.
pub open spec fn status_named(name: Seq<char>) -> DownloadStatus {
    if name == "queued"@ {
        DownloadStatus::Queued
    } else if name == "downloading"@ {
        DownloadStatus::Downloading
    } else if name == "paused"@ {
        DownloadStatus::Paused
    } else if name == "completed"@ {
        DownloadStatus::Completed
    } else if name == "failed"@ {
        DownloadStatus::Failed
    } else if name == "cancelled"@ {
        DownloadStatus::Cancelled
    } else {
        DownloadStatus::Pending
    }
}

impl DownloadStatus {
    /// A terminal status is never left again.
    pub open spec fn terminal(self) -> bool {
        self == DownloadStatus::Completed || self == DownloadStatus::Failed || self
            == DownloadStatus::Cancelled
    }

    /// Work in one of these states is taken up again after a restart.
    pub open spec fn resumable(self) -> bool {
        self == DownloadStatus::Pending || self == DownloadStatus::Queued || self
            == DownloadStatus::Downloading
    }

    pub fn as_str(&self) -> (name: &'static str)
        ensures
            name@ == status_name(*self),
    {
        match self {
            DownloadStatus::Pending => "pending",
            DownloadStatus::Queued => "queued",
            DownloadStatus::Downloading => "downloading",
            DownloadStatus::Paused => "paused",
            DownloadStatus::Completed => "completed",
            DownloadStatus::Failed => "failed",
            DownloadStatus::Cancelled => "cancelled",
        }
    }

    pub fn from_str(s: &str) -> (status: DownloadStatus)
        ensures
            status == status_named(s@),
    {
        if str_eq(s, "queued") {
            DownloadStatus::Queued
        } else if str_eq(s, "downloading") {
            DownloadStatus::Downloading
        } else if str_eq(s, "paused") {
            DownloadStatus::Paused
        } else if str_eq(s, "completed") {
            DownloadStatus::Completed
        } else if str_eq(s, "failed") {
            DownloadStatus::Failed
        } else if str_eq(s, "cancelled") {
            DownloadStatus::Cancelled
        } else {
            DownloadStatus::Pending
        }
    }

    pub fn is_terminal(&self) -> (out: bool)
        ensures
            out == self.terminal(),
    {
        match self {
            DownloadStatus::Completed | DownloadStatus::Failed | DownloadStatus::Cancelled => true,
            _ => false,
        }
    }

    pub fn is_resumable(&self) -> (out: bool)
        ensures
            out == self.resumable(),
    {
        match self {
            DownloadStatus::Pending | DownloadStatus::Queued | DownloadStatus::Downloading => true,
            _ => false,
        }
    }
}

/// Writing a status down and reading it back gives the same status.
pub proof fn lemma_status_name_round_trip(status: DownloadStatus)
    ensures
        status_named(status_name(status)) == status,
{
    reveal_strlit("pending");
    reveal_strlit("queued");
    reveal_strlit("downloading");
    reveal_strlit("paused");
    reveal_strlit("completed");
    reveal_strlit("failed");
    reveal_strlit("cancelled");
    let name = status_name(status);
    assert(name.len() > 0);
    assert("pending"@[0] == 'p' && "pending"@[1] == 'e');
    assert("paused"@[0] == 'p' && "paused"@[1] == 'a');
    assert("queued"@[0] == 'q');
    assert("downloading"@[0] == 'd');
    assert("completed"@[0] == 'c' && "completed"@[1] == 'o');
    assert("cancelled"@[0] == 'c' && "cancelled"@[1] == 'a');
    assert("failed"@[0] == 'f');
}

} // verus!
