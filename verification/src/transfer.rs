//! One transfer, step by step: what to do with each thing that happens
//! while a download runs, and what to report.

use vstd::prelude::*;
use vstd::string::*;
use crate::record::{cap, capped, DownloadRecord, ProgressUpdate};
use crate::status::DownloadStatus;
use crate::text::{decimal, decimal_string};

verus! {

/// The least time between two progress reports of one transfer, in
/// milliseconds.
pub const PROGRESS_INTERVAL_MS: u64 = 200;

/// The marker that a transfer writes behind the file name while it runs.
pub const TEMP_SUFFIX: &'static str = ".part";

/// Why a transfer ended without its file.
#[derive(Debug)]
pub enum TransferError {
    /// The server answered with a status outside 200 to 299.
    Status(u16),
    /// The network failed.
    Transport(String),
    /// The disk failed.
    Io(String),
    /// The user stopped the download.
    Cancelled,
}

/// How a transfer ended: the bytes written, the declared size, and the
/// error, if it failed.
#[derive(Debug)]
pub struct TransferReport {
    pub downloaded: u64,
    pub total: Option<u64>,
    pub error: Option<TransferError>,
}

/// What the network hands a transfer next.
#[derive(Debug)]
pub enum StreamItem {
    /// A chunk of that many bytes.
    Chunk(u64),
    /// The end of the body.
    End,
    /// A failure, with its text.
    Failed(String),
}

/// What happened to a transfer.
#[derive(Debug)]
pub enum TransferEvent {
    /// The user asked for the download to stop.
    Cancelled,
    /// A chunk of that many bytes was appended to the temporary file.
    Chunk(u64),
    /// The body ended.
    End,
    /// The network failed.
    StreamFailed(String),
    /// Writing to the temporary file failed.
    WriteFailed(String),
}

/// What is to be done next for a transfer.
#[derive(Debug)]
pub enum TransferAction {
    /// Read on; publish the report, where there is one.
    Continue(Option<ProgressUpdate>),
    /// Flush and close the temporary file and give it its final name.
    Finish,
    /// Close and delete the temporary file; the transfer has failed.
    Abort(TransferError),
}

/// A running transfer.
#[derive(Debug)]
pub struct Transfer {
    pub id: String,
    pub downloaded: u64,
    pub total: Option<u64>,
    pub last_report_ms: u64,
}

/// Bytes per second over the time since the transfer began; zero where no
/// time has passed, and the largest number where it does not fit.
pub open spec fn average_speed(downloaded: u64, elapsed_ms: u64) -> u64 {
    if elapsed_ms == 0 {
        0
    } else if downloaded * 1000 / (elapsed_ms as int) > u64::MAX {
        u64::MAX
    } else {
        (downloaded * 1000 / (elapsed_ms as int)) as u64
    }
}

/// Computes `average_speed`.
pub fn speed(downloaded: u64, elapsed_ms: u64) -> (out: u64)
    ensures
        out == average_speed(downloaded, elapsed_ms),
{
    if elapsed_ms == 0 {
        0
    } else {
        let scaled: u128 = (downloaded as u128) * 1000;
        let rate: u128 = scaled / (elapsed_ms as u128);
        if rate > u64::MAX as u128 {
            u64::MAX
        } else {
            rate as u64
        }
    }
}

/// The name of the file that a transfer writes to until it is whole.
pub fn temp_name(filename: &str) -> (out: String)
    ensures
        out@ == filename@ + TEMP_SUFFIX@,
{
    String::from_str(filename).concat(TEMP_SUFFIX)
}

/// Which of two things that happen at once counts: a request to stop comes
/// before whatever the network delivered.
pub fn arbitrate(stop_requested: bool, item: StreamItem) -> (out: TransferEvent)
    ensures
        stop_requested ==> out == TransferEvent::Cancelled,
        !stop_requested ==> out == match item {
            StreamItem::Chunk(len) => TransferEvent::Chunk(len),
            StreamItem::End => TransferEvent::End,
            StreamItem::Failed(text) => TransferEvent::StreamFailed(text),
        },
{
    if stop_requested {
        TransferEvent::Cancelled
    } else {
        match item {
            StreamItem::Chunk(len) => TransferEvent::Chunk(len),
            StreamItem::End => TransferEvent::End,
            StreamItem::Failed(text) => TransferEvent::StreamFailed(text),
        }
    }
}

impl TransferError {
    /// The status that a download ends in after this error.
    pub open spec fn final_status(self) -> DownloadStatus {
        match self {
            TransferError::Cancelled => DownloadStatus::Cancelled,
            _ => DownloadStatus::Failed,
        }
    }

    /// The text that describes this error.
    pub open spec fn text(self) -> Seq<char> {
        match self {
            TransferError::Status(code) => "HTTP error: "@ + decimal(code as nat),
            TransferError::Transport(reason) => "Download error: "@ + reason@,
            TransferError::Io(reason) => reason@,
            TransferError::Cancelled => "Download cancelled"@,
        }
    }

    /// The status that a download ends in after this error.
    pub fn status(&self) -> (out: DownloadStatus)
        ensures
            out == self.final_status(),
            out.terminal(),
            out != DownloadStatus::Completed,
    {
        match self {
            TransferError::Cancelled => DownloadStatus::Cancelled,
            _ => DownloadStatus::Failed,
        }
    }

    /// Describes this error in words.
    pub fn message(&self) -> (out: String)
        ensures
            out@ == self.text(),
    {
        match self {
            TransferError::Status(code) => {
                let number = decimal_string(*code as u64);
                String::from_str("HTTP error: ").concat(number.as_str())
            },
            TransferError::Transport(reason) => String::from_str("Download error: ").concat(
                reason.as_str(),
            ),
            TransferError::Io(reason) => reason.clone(),
            TransferError::Cancelled => String::from_str("Download cancelled"),
        }
    }
}

impl TransferReport {
    /// The status that the download ends in.
    pub open spec fn final_status(self) -> DownloadStatus {
        match self.error {
            Some(error) => error.final_status(),
            None => DownloadStatus::Completed,
        }
    }

    /// The error text that the record keeps.
    pub open spec fn error_text(self) -> Option<Seq<char>> {
        match self.error {
            Some(error) => Some(error.text()),
            None => None,
        }
    }
}

impl Transfer {
    /// The transfer of `record` as it stands after the server's answer:
    /// nothing written, the size as the record knows it or as the server
    /// declares it.
    pub open spec fn opened(record: DownloadRecord, content_length: Option<u64>) -> Transfer {
        Transfer {
            id: record.id,
            downloaded: 0,
            total: match record.total_size {
                Some(t) => Some(t),
                None => content_length,
            },
            last_report_ms: 0,
        }
    }

    /// The report on this transfer at a moment.
    pub open spec fn progress(self, elapsed_ms: u64) -> ProgressUpdate {
        ProgressUpdate {
            id: self.id,
            downloaded: capped(self.downloaded, self.total),
            total: self.total,
            speed: average_speed(self.downloaded, elapsed_ms),
            status: DownloadStatus::Downloading,
            error: None,
        }
    }

    /// A report is due at a moment.
    pub open spec fn report_due(self, elapsed_ms: u64) -> bool {
        elapsed_ms >= self.last_report_ms && elapsed_ms - self.last_report_ms
            >= PROGRESS_INTERVAL_MS
    }

    /// Opens the transfer of `record` on the server's answer. A status
    /// outside 200 to 299 is a failure that names the status.
    pub fn begin(record: &DownloadRecord, http_status: u16, content_length: Option<u64>) -> (out:
        Result<Transfer, TransferError>)
        ensures
            200 <= http_status <= 299 ==> out == Ok::<Transfer, TransferError>(
                Transfer::opened(*record, content_length),
            ),
            !(200 <= http_status <= 299) ==> out == Err::<Transfer, TransferError>(
                TransferError::Status(http_status),
            ),
    {
        if http_status < 200 || http_status > 299 {
            return Err(TransferError::Status(http_status));
        }
        let total = match record.total_size {
            Some(t) => Some(t),
            None => content_length,
        };
        Ok(Transfer { id: record.id.clone(), downloaded: 0, total, last_report_ms: 0 })
    }

    /// Takes one event, `elapsed_ms` milliseconds after the transfer began,
    /// and says what to do next. The byte count only grows; a report is made
    /// after a chunk when the last one is `PROGRESS_INTERVAL_MS` old.
    pub fn step(&mut self, event: TransferEvent, elapsed_ms: u64) -> (out: TransferAction)
        requires
            event matches TransferEvent::Chunk(len) ==> old(self).downloaded + len <= u64::MAX,
        ensures
            final(self).id == old(self).id,
            final(self).total == old(self).total,
            final(self).downloaded >= old(self).downloaded,
            match event {
                TransferEvent::Chunk(len) => {
                    &&& final(self).downloaded == old(self).downloaded + len
                    &&& old(self).report_due(elapsed_ms) ==> {
                        &&& out == TransferAction::Continue(
                            Some(final(self).progress(elapsed_ms)),
                        )
                        &&& final(self).last_report_ms == elapsed_ms
                    }
                    &&& !old(self).report_due(elapsed_ms) ==> {
                        &&& out == TransferAction::Continue(None)
                        &&& final(self).last_report_ms == old(self).last_report_ms
                    }
                },
                TransferEvent::End => out == TransferAction::Finish && *final(self) == *old(self),
                TransferEvent::Cancelled => out == TransferAction::Abort(TransferError::Cancelled)
                    && *final(self) == *old(self),
                TransferEvent::StreamFailed(reason) => out == TransferAction::Abort(
                    TransferError::Transport(reason),
                ) && *final(self) == *old(self),
                TransferEvent::WriteFailed(reason) => out == TransferAction::Abort(
                    TransferError::Io(reason),
                ) && *final(self) == *old(self),
            },
    {
        match event {
            TransferEvent::Chunk(len) => {
                self.downloaded = self.downloaded + len;
                if elapsed_ms >= self.last_report_ms && elapsed_ms - self.last_report_ms
                    >= PROGRESS_INTERVAL_MS {
                    self.last_report_ms = elapsed_ms;
                    let report = ProgressUpdate {
                        id: self.id.clone(),
                        downloaded: cap(self.downloaded, self.total),
                        total: self.total,
                        speed: speed(self.downloaded, elapsed_ms),
                        status: DownloadStatus::Downloading,
                        error: None,
                    };
                    TransferAction::Continue(Some(report))
                } else {
                    TransferAction::Continue(None)
                }
            },
            TransferEvent::End => TransferAction::Finish,
            TransferEvent::Cancelled => TransferAction::Abort(TransferError::Cancelled),
            TransferEvent::StreamFailed(reason) => TransferAction::Abort(
                TransferError::Transport(reason),
            ),
            TransferEvent::WriteFailed(reason) => TransferAction::Abort(TransferError::Io(reason)),
        }
    }

    /// Sums the transfer up once it has ended, with the error that ended it
    /// or none.
    pub fn report(&self, error: Option<TransferError>) -> (out: TransferReport)
        ensures
            out == (TransferReport { downloaded: self.downloaded, total: self.total, error }),
    {
        TransferReport { downloaded: self.downloaded, total: self.total, error }
    }
}

/// A capped byte count grows with the bytes written and never passes the
/// declared size.
pub proof fn lemma_capped_monotone(earlier: u64, later: u64, total: Option<u64>)
    requires
        earlier <= later,
    ensures
        capped(earlier, total) <= capped(later, total),
        total matches Some(t) ==> capped(later, total) <= t,
{
}

/// Through any one step the reported byte count does not fall.
pub proof fn lemma_reports_do_not_fall(before: Transfer, after: Transfer, at: u64, then: u64)
    requires
        after.downloaded >= before.downloaded,
        after.total == before.total,
    ensures
        after.progress(then).downloaded >= before.progress(at).downloaded,
{
}

} // verus!
