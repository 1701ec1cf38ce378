//! When a download runs and when it waits: submitting, finishing,
//! cancelling, and changing the limit.

use vstd::prelude::*;
use crate::manager::{CancelOutcome, DownloadManager, ManagerState};
use crate::record::{capped, DownloadRecord, ProgressUpdate};
use crate::status::DownloadStatus;
use crate::text::opt_text;
use crate::transfer::TransferReport;

verus! {

/// A download that has just been started: its record, and the report that
/// opens its transfer.
#[derive(Debug)]
pub struct Started {
    pub record: DownloadRecord,
    pub event: ProgressUpdate,
}

/// What became of a submitted download.
#[derive(Debug)]
pub enum Submission {
    /// It runs.
    Started(Started),
    /// It waits in the queue, with status `Queued`.
    Queued,
}

/// What the end of a transfer led to: the finished record, the report that
/// closes the transfer, and the waiting download that took the free place,
/// if one did.
#[derive(Debug)]
pub struct Completion {
    pub record: DownloadRecord,
    pub event: ProgressUpdate,
    pub next: Option<Started>,
}

/// What a request to cancel led to.
#[derive(Debug)]
pub enum Cancellation {
    /// The download runs: its transfer is to be told to stop.
    Signalled,
    /// The download waited: it has left the queue and ended as cancelled.
    Removed(DownloadRecord, ProgressUpdate),
    /// No such download runs or waits.
    NotFound,
}

/// The start of `record` at `now`.
pub open spec fn start_of(record: DownloadRecord, now: i64) -> Started {
    Started {
        record: record.as_started(now),
        event: ProgressUpdate::opening(record.as_started(now)),
    }
}

/// The state with one more running id.
pub open spec fn with_active(state: ManagerState, id: Seq<char>) -> ManagerState {
    ManagerState { active: state.active.insert(id), ..state }
}

/// The state after a download was submitted: it runs where a place is free,
/// and joins the end of the queue where none is.
pub open spec fn after_submit(state: ManagerState, record: DownloadRecord) -> ManagerState {
    if state.active.len() < state.limit {
        with_active(state, record.id@)
    } else {
        ManagerState { queue: state.queue.push(record.as_queued()), ..state }
    }
}

/// A waiting download can start: there is one, and a place is free.
pub open spec fn promotes(state: ManagerState) -> bool {
    state.queue.len() > 0 && state.active.len() < state.limit
}

/// The state after the oldest waiting download started, if one could.
pub open spec fn after_promote(state: ManagerState) -> ManagerState {
    if promotes(state) {
        ManagerState {
            active: state.active.insert(state.queue.first().id@),
            queue: state.queue.drop_first(),
            ..state
        }
    } else {
        state
    }
}

/// The state after the transfer of `id` ended: its place is given up, and
/// the oldest waiting download takes it unless the limit forbids.
pub open spec fn after_complete(state: ManagerState, id: Seq<char>) -> ManagerState {
    after_promote(ManagerState { active: state.active.remove(id), ..state })
}

/// The state after a request to cancel `id`: a running download stays
/// registered until its transfer ends; a waiting one leaves the queue.
pub open spec fn after_cancel(state: ManagerState, id: Seq<char>) -> ManagerState {
    if !state.active.contains(id) && state.is_queued(id) {
        ManagerState { queue: state.queue.remove(state.position(id)), ..state }
    } else {
        state
    }
}

/// How many waiting downloads start when all that can start do.
pub open spec fn startable(state: ManagerState) -> nat {
    if state.queue.len() <= state.free_slots() {
        state.queue.len()
    } else {
        state.free_slots()
    }
}

/// The state after every waiting download that can start has started.
pub open spec fn after_start_waiting(state: ManagerState) -> ManagerState {
    ManagerState {
        active: state.active.union(state.queued_ids().take(startable(state) as int).to_set()),
        queue: state.queue.skip(startable(state) as int),
        ..state
    }
}

/// Registers `record` as running and marks it as downloading from byte
/// zero.
pub fn start_download(manager: &mut DownloadManager, record: DownloadRecord, now: i64) -> (out:
    Started)
    requires
        old(manager).wf(),
        !old(manager)@.is_queued(record.id@),
        !record.status.terminal(),
    ensures
        final(manager).wf(),
        final(manager)@ == with_active(old(manager)@, record.id@),
        out == start_of(record, now),
{
    manager.add_active(record.id.clone());
    let record = record.mark_started(now);
    let event = ProgressUpdate::first(&record);
    Started { record, event }
}

/// Takes in a download: it starts at once where fewer downloads run than
/// the limit allows, and waits at the end of the queue where not.
pub fn submit(manager: &mut DownloadManager, record: DownloadRecord, now: i64) -> (out:
    Submission)
    requires
        old(manager).wf(),
        !old(manager)@.tracks(record.id@),
        !record.status.terminal(),
    ensures
        final(manager).wf(),
        final(manager)@ == after_submit(old(manager)@, record),
        old(manager)@.active.len() < old(manager)@.limit ==> out == Submission::Started(
            start_of(record, now),
        ),
        old(manager)@.active.len() >= old(manager)@.limit ==> out is Queued,
        old(manager)@.within_limit() ==> final(manager)@.within_limit(),
{
    if manager.has_free_slot() {
        Submission::Started(start_download(manager, record, now))
    } else {
        manager.enqueue(record.mark_queued());
        Submission::Queued
    }
}

/// Closes the books on a transfer that has ended. The download leaves the
/// registry and its record takes the final status (with the error text
/// where it failed). Then the oldest waiting download starts, unless the
/// queue is empty or as many downloads still run as the limit allows: at
/// most one start for one ending.
pub fn complete(
    manager: &mut DownloadManager,
    record: DownloadRecord,
    report: TransferReport,
    now: i64,
) -> (out: Completion)
    requires
        old(manager).wf(),
        !record.status.terminal(),
    ensures
        final(manager).wf(),
        final(manager)@ == after_complete(old(manager)@, record.id@),
        out.record == record.as_finished(
            report.final_status(),
            out.record.error_message,
            report.downloaded,
            report.total,
            now,
        ),
        opt_text(out.record.error_message) == (if report.final_status()
            == DownloadStatus::Failed {
            report.error_text()
        } else {
            None
        }),
        out.record.consistent(),
        out.event == ProgressUpdate::closing(out.record),
        out.next == (if promotes(
            ManagerState { active: old(manager)@.active.remove(record.id@), ..old(manager)@ },
        ) {
            Some(start_of(old(manager)@.queue.first(), now))
        } else {
            None
        }),
        old(manager)@.active.contains(record.id@) && old(manager)@.within_limit()
            && old(manager)@.queue.len() > 0 ==> out.next is Some,
        final(manager)@.active.len() <= old(manager)@.active.len()
            || final(manager)@.within_limit(),
{
    manager.remove_active(record.id.as_str());
    let status = match &report.error {
        Some(error) => error.status(),
        None => DownloadStatus::Completed,
    };
    let message = match &report.error {
        Some(error) => Some(error.message()),
        None => None,
    };
    let done = record.mark_finished(status, message, report.downloaded, report.total, now);
    let event = ProgressUpdate::last(&done);
    let next = if manager.has_free_slot() {
        match manager.dequeue() {
            Some(waiting) => Some(start_download(manager, waiting, now)),
            None => None,
        }
    } else {
        None
    };
    Completion { record: done, event, next }
}

/// Cancels a download. A running one is left to its transfer, which is to
/// be told to stop; a waiting one leaves the queue and ends as cancelled;
/// any other id is not found.
pub fn cancel(manager: &mut DownloadManager, id: &str, now: i64) -> (out: Cancellation)
    requires
        old(manager).wf(),
    ensures
        final(manager).wf(),
        final(manager)@ == after_cancel(old(manager)@, id@),
        old(manager)@.active.contains(id@) ==> out is Signalled,
        !old(manager)@.tracks(id@) ==> out is NotFound,
        !old(manager)@.active.contains(id@) && old(manager)@.is_queued(id@) ==> {
            &&& out matches Cancellation::Removed(record, event)
            &&& record == old(manager)@.queue[old(manager)@.position(id@)].as_finished(
                DownloadStatus::Cancelled,
                None,
                old(manager)@.queue[old(manager)@.position(id@)].downloaded_size,
                None,
                now,
            )
            &&& event == ProgressUpdate::closing(record)
            &&& !final(manager)@.tracks(id@)
        },
{
    match manager.cancel(id) {
        CancelOutcome::Signal => Cancellation::Signalled,
        CancelOutcome::Removed(waiting) => {
            let written = waiting.downloaded_size;
            let done = waiting.mark_finished(DownloadStatus::Cancelled, None, written, None, now);
            let event = ProgressUpdate::last(&done);
            Cancellation::Removed(done, event)
        },
        CancelOutcome::NotFound => Cancellation::NotFound,
    }
}

/// Starts waiting downloads, oldest first, for as long as one waits and
/// fewer run than the limit allows.
pub fn start_waiting(manager: &mut DownloadManager, now: i64) -> (out: Vec<Started>)
    requires
        old(manager).wf(),
    ensures
        final(manager).wf(),
        final(manager)@ == after_start_waiting(old(manager)@),
        out@.len() == startable(old(manager)@),
        forall|i: int|
            0 <= i < out@.len() ==> #[trigger] out@[i] == start_of(old(manager)@.queue[i], now),
        old(manager)@.active.subset_of(final(manager)@.active),
        final(manager)@.active.len() == old(manager)@.active.len() + out@.len(),
        old(manager)@.within_limit() ==> final(manager)@.within_limit(),
{
    let ghost before = manager@;
    let ghost ids = before.queued_ids();
    let ghost goal = startable(before);
    let mut out: Vec<Started> = Vec::new();
    proof {
        assert(ids.take(0).to_set() =~= Set::<Seq<char>>::empty());
        assert(before.active.union(ids.take(0).to_set()) =~= before.active);
        assert(before.queue.skip(0) =~= before.queue);
    }
    while manager.has_free_slot()
        invariant
            manager.wf(),
            before.coherent(),
            ids == before.queued_ids(),
            goal == startable(before),
            out@.len() <= goal,
            manager@.limit == before.limit,
            manager@.queue == before.queue.skip(out@.len() as int),
            manager@.active == before.active.union(ids.take(out@.len() as int).to_set()),
            manager@.active.len() == before.active.len() + out@.len(),
            forall|i: int|
                0 <= i < out@.len() ==> #[trigger] out@[i] == start_of(before.queue[i], now),
        ensures
            manager.wf(),
            out@.len() == goal,
            manager@.limit == before.limit,
            manager@.queue == before.queue.skip(out@.len() as int),
            manager@.active == before.active.union(ids.take(out@.len() as int).to_set()),
            manager@.active.len() == before.active.len() + out@.len(),
            forall|i: int|
                0 <= i < out@.len() ==> #[trigger] out@[i] == start_of(before.queue[i], now),
        decreases before.queue.len() - out@.len(),
    {
        let ghost done = out@.len() as int;
        match manager.dequeue() {
            Some(waiting) => {
                let started = start_download(manager, waiting, now);
                out.push(started);
                proof {
                    assert(waiting == before.queue[done]);
                    assert(ids[done] == waiting.id@);
                    assert(before.queue.skip(done).drop_first() =~= before.queue.skip(done + 1));
                    assert(ids.take(done + 1) =~= ids.take(done).push(ids[done]));
                    ids.take(done).lemma_push_to_set_commute(ids[done]);
                    assert(manager@.active =~= before.active.union(
                        ids.take(done + 1).to_set(),
                    ));
                }
            },
            None => {
                break ;
            },
        }
    }
    out
}

impl DownloadManager {
    /// Update max concurrent downloads. Nothing that runs is touched,
    /// whichever way the limit moves; where the new limit leaves places
    /// free, waiting downloads start at once, oldest first, as many as there
    /// are places.
    pub fn set_max_concurrent(&mut self, max: usize, now: i64) -> (out: Vec<Started>)
        requires
            old(self).wf(),
        ensures
            final(self).wf(),
            final(self)@ == after_start_waiting(
                ManagerState { limit: max as nat, ..old(self)@ },
            ),
            out@.len() == startable(ManagerState { limit: max as nat, ..old(self)@ }),
            forall|i: int|
                0 <= i < out@.len() ==> #[trigger] out@[i] == start_of(old(self)@.queue[i], now),
            old(self)@.active.subset_of(final(self)@.active),
            final(self)@.active.len() == old(self)@.active.len() + out@.len(),
            max >= old(self)@.active.len() ==> final(self)@.within_limit(),
            max <= old(self)@.active.len() ==> out@.len() == 0
                && final(self)@.active == old(self)@.active
                && final(self)@.queue == old(self)@.queue,
    {
        self.set_limit(max);
        let out = start_waiting(self, now);
        proof {
            if max <= old(self)@.active.len() {
                assert(self@.active =~= old(self)@.active);
                assert(old(self)@.queue.skip(0) =~= old(self)@.queue);
            }
        }
        out
    }
}

/// The report that closes a completed download shows the whole declared
/// size, where one is known, and so no less than any report made while the
/// transfer ran; the finished record holds what every record must.
pub proof fn lemma_completed_report_is_whole(
    record: DownloadRecord,
    downloaded: u64,
    total: Option<u64>,
    earlier: u64,
    now: i64,
)
    requires
        record.total_size is Some || total is Some,
    ensures
        ({
            let done = record.as_finished(DownloadStatus::Completed, None, downloaded, total, now);
            &&& done.total_size is Some
            &&& ProgressUpdate::closing(done).downloaded == done.total_size->0
            &&& ProgressUpdate::closing(done).downloaded >= capped(earlier, done.total_size)
            &&& done.consistent()
        }),
{
}

} // verus!
