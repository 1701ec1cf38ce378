//! The record of one download and the events that report on it.

use vstd::prelude::*;
use crate::outside::{fresh_uuid, uuid_text};
use crate::status::DownloadStatus;

verus! {

/// One download: what to fetch, where to put it, and how far it has come.
/// Times are milliseconds since the Unix epoch.
#[derive(Debug, Clone)]
pub struct DownloadRecord {
    pub id: String,
    pub url: String,
    pub filename: String,
    pub file_type: String,
    pub destination: String,
    pub total_size: Option<u64>,
    pub downloaded_size: u64,
    pub status: DownloadStatus,
    pub error_message: Option<String>,
    pub created_at: i64,
    pub started_at: Option<i64>,
    pub completed_at: Option<i64>,
}

/// A report on a download's progress, sent to whoever listens and never
/// stored.
#[derive(Debug, Clone)]
pub struct ProgressUpdate {
    pub id: String,
    pub downloaded: u64,
    pub total: Option<u64>,
    pub speed: u64,
    pub status: DownloadStatus,
    pub error: Option<String>,
}

/// A byte count held to the declared size, where one is known.
pub open spec fn capped(downloaded: u64, total: Option<u64>) -> u64 {
    match total {
        Some(t) => if downloaded > t {
            t
        } else {
            downloaded
        },
        None => downloaded,
    }
}

/// Holds a byte count to the declared size, where one is known.
pub fn cap(downloaded: u64, total: Option<u64>) -> (out: u64)
    ensures
        out == capped(downloaded, total),
{
    match total {
        Some(t) => if downloaded > t {
            t
        } else {
            downloaded
        },
        None => downloaded,
    }
}

/// A time that is set once: the old one where there is one.
pub open spec fn set_once(old_time: Option<i64>, now: i64) -> Option<i64> {
    match old_time {
        Some(t) => Some(t),
        None => Some(now),
    }
}

impl DownloadRecord {
    /// What must hold of every record: no more bytes than the declared
    /// size, an error text only on a failed download, an end time only on a
    /// finished one.
    pub open spec fn consistent(self) -> bool {
        &&& self.total_size matches Some(total) ==> self.downloaded_size <= total
        &&& self.error_message is Some ==> self.status == DownloadStatus::Failed
        &&& self.completed_at is Some ==> self.status.terminal()
    }

    /// The record of a download that has just been asked for.
    pub open spec fn fresh(
        id: String,
        created_at: i64,
        url: String,
        filename: String,
        file_type: String,
        destination: String,
    ) -> DownloadRecord {
        DownloadRecord {
            id,
            url,
            filename,
            file_type,
            destination,
            total_size: None,
            downloaded_size: 0,
            status: DownloadStatus::Pending,
            error_message: None,
            created_at,
            started_at: None,
            completed_at: None,
        }
    }

    /// The record once it waits in the queue.
    pub open spec fn as_queued(self) -> DownloadRecord {
        DownloadRecord { status: DownloadStatus::Queued, ..self }
    }

    /// The record once its transfer begins, at byte zero.
    pub open spec fn as_started(self, now: i64) -> DownloadRecord {
        DownloadRecord {
            status: DownloadStatus::Downloading,
            downloaded_size: 0,
            started_at: set_once(self.started_at, now),
            ..self
        }
    }

    /// The record once its transfer has ended in `status`, with `downloaded`
    /// bytes written. The declared size is kept where it was known and
    /// learned from `total` where not; a completed download counts as whole.
    pub open spec fn as_finished(
        self,
        status: DownloadStatus,
        error: Option<String>,
        downloaded: u64,
        total: Option<u64>,
        now: i64,
    ) -> DownloadRecord {
        let known = match self.total_size {
            Some(t) => Some(t),
            None => total,
        };
        DownloadRecord {
            status,
            error_message: if status == DownloadStatus::Failed {
                error
            } else {
                None
            },
            total_size: known,
            downloaded_size: match known {
                Some(t) => if status == DownloadStatus::Completed {
                    t
                } else {
                    capped(downloaded, known)
                },
                None => downloaded,
            },
            completed_at: set_once(self.completed_at, now),
            ..self
        }
    }

    /// Builds the record of a new download from its identity and time of
    /// creation.
    pub fn with_identity(
        id: String,
        created_at: i64,
        url: String,
        filename: String,
        file_type: String,
        destination: String,
    ) -> (out: DownloadRecord)
        ensures
            out == DownloadRecord::fresh(id, created_at, url, filename, file_type, destination),
            out.consistent(),
    {
        DownloadRecord {
            id,
            url,
            filename,
            file_type,
            destination,
            total_size: None,
            downloaded_size: 0,
            status: DownloadStatus::Pending,
            error_message: None,
            created_at,
            started_at: None,
            completed_at: None,
        }
    }

    /// Builds the record of a new download, created at `created_at`, under
    /// a fresh random identifier.
    pub fn new(
        url: String,
        filename: String,
        file_type: String,
        destination: String,
        created_at: i64,
    ) -> (out: DownloadRecord)
        ensures
            out == DownloadRecord::fresh(
                out.id,
                created_at,
                url,
                filename,
                file_type,
                destination,
            ),
            uuid_text(out.id@),
            out.consistent(),
    {
        let id = fresh_uuid();
        DownloadRecord::with_identity(id, created_at, url, filename, file_type, destination)
    }

    /// Marks the record as waiting.
    pub fn mark_queued(self) -> (out: DownloadRecord)
        requires
            !self.status.terminal(),
        ensures
            out == self.as_queued(),
            self.consistent() ==> out.consistent(),
    {
        let mut out = self;
        out.status = DownloadStatus::Queued;
        out
    }

    /// Marks the record as downloading, from byte zero.
    pub fn mark_started(self, now: i64) -> (out: DownloadRecord)
        requires
            !self.status.terminal(),
        ensures
            out == self.as_started(now),
            self.consistent() ==> out.consistent(),
    {
        let mut out = self;
        out.status = DownloadStatus::Downloading;
        out.downloaded_size = 0;
        if out.started_at.is_none() {
            out.started_at = Some(now);
        }
        out
    }

    /// Marks the record as finished.
    pub fn mark_finished(
        self,
        status: DownloadStatus,
        error: Option<String>,
        downloaded: u64,
        total: Option<u64>,
        now: i64,
    ) -> (out: DownloadRecord)
        requires
            status.terminal(),
            !self.status.terminal(),
        ensures
            out == self.as_finished(status, error, downloaded, total, now),
            out.consistent(),
            out.status.terminal(),
    {
        let mut out = self;
        let known = match out.total_size {
            Some(t) => Some(t),
            None => total,
        };
        out.status = status;
        out.error_message = match status {
            DownloadStatus::Failed => error,
            _ => None,
        };
        out.total_size = known;
        out.downloaded_size = match known {
            Some(t) => match status {
                DownloadStatus::Completed => t,
                _ => cap(downloaded, known),
            },
            None => downloaded,
        };
        if out.completed_at.is_none() {
            out.completed_at = Some(now);
        }
        out
    }

    /// Whether the record holds what every record must.
    pub fn is_consistent(&self) -> (out: bool)
        ensures
            out == self.consistent(),
    {
        let sizes = match self.total_size {
            Some(total) => self.downloaded_size <= total,
            None => true,
        };
        let error = self.error_message.is_none() || self.status == DownloadStatus::Failed;
        let ended = self.completed_at.is_none() || self.status.is_terminal();
        sizes && error && ended
    }
}

impl ProgressUpdate {
    /// The report that opens a transfer: downloading, nothing written yet.
    pub open spec fn opening(record: DownloadRecord) -> ProgressUpdate {
        ProgressUpdate {
            id: record.id,
            downloaded: 0,
            total: record.total_size,
            speed: 0,
            status: DownloadStatus::Downloading,
            error: None,
        }
    }

    /// The report that closes a transfer, read off the finished record.
    pub open spec fn closing(record: DownloadRecord) -> ProgressUpdate {
        ProgressUpdate {
            id: record.id,
            downloaded: record.downloaded_size,
            total: record.total_size,
            speed: 0,
            status: record.status,
            error: record.error_message,
        }
    }

    /// Builds the report that opens the transfer of `record`.
    pub fn first(record: &DownloadRecord) -> (out: ProgressUpdate)
        ensures
            out == ProgressUpdate::opening(*record),
    {
        ProgressUpdate {
            id: record.id.clone(),
            downloaded: 0,
            total: record.total_size,
            speed: 0,
            status: DownloadStatus::Downloading,
            error: None,
        }
    }

    /// Builds the report that closes the transfer of `record`.
    pub fn last(record: &DownloadRecord) -> (out: ProgressUpdate)
        ensures
            out == ProgressUpdate::closing(*record),
    {
        ProgressUpdate {
            id: record.id.clone(),
            downloaded: record.downloaded_size,
            total: record.total_size,
            speed: 0,
            status: record.status,
            error: record.error_message.clone(),
        }
    }
}

} // verus!
