//! The engine's state: the limit on concurrent downloads, the registry of
//! running downloads and the queue of waiting ones.

use std::collections::VecDeque;
use vstd::prelude::*;
use vstd::string::*;
use crate::record::DownloadRecord;
use crate::text::{lemma_remove_to_set, texts};

verus! {

/// The engine's state as mathematics: the limit, the set of running ids and
/// the waiting records, oldest first.
pub struct ManagerState {
    pub limit: nat,
    pub active: Set<Seq<char>>,
    pub queue: Seq<DownloadRecord>,
}

impl ManagerState {
    /// The ids of the waiting records, oldest first.
    pub open spec fn queued_ids(self) -> Seq<Seq<char>> {
        self.queue.map_values(|r: DownloadRecord| r.id@)
    }

    pub open spec fn is_queued(self, id: Seq<char>) -> bool {
        self.queued_ids().contains(id)
    }

    /// The id is running or waiting.
    pub open spec fn tracks(self, id: Seq<char>) -> bool {
        self.active.contains(id) || self.is_queued(id)
    }

    /// Where a waiting id stands in the queue.
    pub open spec fn position(self, id: Seq<char>) -> int {
        self.queued_ids().index_of(id)
    }

    /// A record that may stand in the queue: it does not run, and it has
    /// not ended.
    pub open spec fn may_wait(self, record: DownloadRecord) -> bool {
        !self.active.contains(record.id@) && !record.status.terminal()
    }

    /// No id waits twice, none both runs and waits, and nothing that has
    /// ended waits.
    pub open spec fn coherent(self) -> bool {
        &&& self.active.finite()
        &&& self.queued_ids().no_duplicates()
        &&& forall|i: int| 0 <= i < self.queue.len() ==> #[trigger] self.may_wait(self.queue[i])
    }

    /// How many more downloads may start.
    pub open spec fn free_slots(self) -> nat {
        if self.limit > self.active.len() {
            (self.limit - self.active.len()) as nat
        } else {
            0
        }
    }

    pub open spec fn within_limit(self) -> bool {
        self.active.len() <= self.limit
    }
}

/// Holds the limit on concurrent downloads, the ids of the running ones and
/// the queue of the waiting ones.
pub struct DownloadManager {
    max_concurrent: usize,
    active: Vec<String>,
    queue: VecDeque<DownloadRecord>,
}

/// A snapshot of the engine's load.
#[derive(Debug, Clone, Copy, PartialEq, Eq, Structural)]
pub struct DownloadStats {
    pub active: usize,
    pub queued: usize,
    pub max_concurrent: usize,
}

/// What a request to cancel came to.
pub enum CancelOutcome {
    /// The download runs: its transfer is to be told to stop.
    Signal,
    /// The download waited and has left the queue.
    Removed(DownloadRecord),
    /// The download neither runs nor waits.
    NotFound,
}

impl View for DownloadManager {
    type V = ManagerState;

    closed spec fn view(&self) -> ManagerState {
        ManagerState {
            limit: self.max_concurrent as nat,
            active: texts(self.active@).to_set(),
            queue: self.queue@,
        }
    }
}

/// In a list without duplicates, a value is found at one index only.
proof fn lemma_index_of_unique(ids: Seq<Seq<char>>, i: int)
    requires
        ids.no_duplicates(),
        0 <= i < ids.len(),
    ensures
        ids.index_of(ids[i]) == i,
{
    let j = ids.index_of(ids[i]);
    assert(0 <= j < ids.len() && ids[j] == ids[i]);
}

impl DownloadManager {
    /// The registry lists no id twice.
    pub closed spec fn distinct(&self) -> bool {
        texts(self.active@).no_duplicates()
    }

    /// The state is sound: see `ManagerState::coherent`.
    pub open spec fn wf(&self) -> bool {
        self.distinct() && self@.coherent()
    }

    /// Create a new download manager
    pub fn new(max_concurrent: usize) -> (out: DownloadManager)
        ensures
            out.wf(),
            out@ == (ManagerState {
                limit: max_concurrent as nat,
                active: Set::empty(),
                queue: Seq::empty(),
            }),
    {
        let out = DownloadManager { max_concurrent, active: Vec::new(), queue: VecDeque::new() };
        proof {
            assert(texts(out.active@) =~= Seq::<Seq<char>>::empty());
            assert(texts(out.active@).to_set() =~= Set::<Seq<char>>::empty());
            assert(out@.queued_ids() =~= Seq::<Seq<char>>::empty());
        }
        out
    }

    fn find_active(&self, id: &String) -> (out: Option<usize>)
        ensures
            match out {
                Some(i) => i < self.active.len() && texts(self.active@)[i as int] == id@,
                None => !texts(self.active@).contains(id@),
            },
    {
        let mut i: usize = 0;
        while i < self.active.len()
            invariant
                i <= self.active.len(),
                forall|j: int| 0 <= j < i ==> texts(self.active@)[j] != id@,
            decreases self.active.len() - i,
        {
            if self.active[i] == *id {
                return Some(i);
            }
            i = i + 1;
        }
        None
    }

    fn find_queued(&self, id: &String) -> (out: Option<usize>)
        ensures
            match out {
                Some(i) => i < self.queue@.len() && self@.queued_ids()[i as int] == id@,
                None => !self@.is_queued(id@),
            },
    {
        let mut i: usize = 0;
        while i < self.queue.len()
            invariant
                i <= self.queue@.len(),
                forall|j: int| 0 <= j < i ==> self@.queued_ids()[j] != id@,
            decreases self.queue@.len() - i,
        {
            if self.queue[i].id == *id {
                return Some(i);
            }
            i = i + 1;
        }
        None
    }

    /// Add a download to the active set
    pub fn add_active(&mut self, id: String)
        requires
            old(self).wf(),
            !old(self)@.is_queued(id@),
        ensures
            final(self).wf(),
            final(self)@ == (ManagerState {
                active: old(self)@.active.insert(id@),
                ..old(self)@
            }),
    {
        let ghost before = texts(self.active@);
        match self.find_active(&id) {
            Some(_) => {
                assert(before.to_set().insert(id@) =~= before.to_set());
            },
            None => {
                self.active.push(id);
                proof {
                    assert(texts(self.active@) =~= before.push(id@));
                    before.lemma_push_to_set_commute(id@);
                    assert forall|i: int| 0 <= i < self.queue@.len() implies #[trigger] self@.may_wait(
                        self.queue@[i],
                    ) by {
                        assert(old(self)@.queued_ids()[i] == self.queue@[i].id@);
                        assert(old(self)@.may_wait(self.queue@[i]));
                    }
                }
            },
        }
    }

    /// Remove a download from the active set
    pub fn remove_active(&mut self, id: &str)
        requires
            old(self).wf(),
        ensures
            final(self).wf(),
            final(self)@ == (ManagerState {
                active: old(self)@.active.remove(id@),
                ..old(self)@
            }),
    {
        let ghost before = texts(self.active@);
        let key = String::from_str(id);
        match self.find_active(&key) {
            Some(i) => {
                self.active.remove(i);
                proof {
                    assert(texts(self.active@) =~= before.remove(i as int));
                    lemma_remove_to_set(before, i as int);
                    assert forall|j: int| 0 <= j < self.queue@.len() implies #[trigger] self@.may_wait(
                        self.queue@[j],
                    ) by {
                        assert(old(self)@.may_wait(self.queue@[j]));
                    }
                }
            },
            None => {
                assert(before.to_set().remove(id@) =~= before.to_set());
            },
        }
    }

    /// Check if a download is active
    pub fn is_active(&self, id: &str) -> (out: bool)
        ensures
            out == self@.active.contains(id@),
    {
        let key = String::from_str(id);
        self.find_active(&key).is_some()
    }

    /// Check if a download waits in the queue
    pub fn is_queued(&self, id: &str) -> (out: bool)
        ensures
            out == self@.is_queued(id@),
    {
        let key = String::from_str(id);
        self.find_queued(&key).is_some()
    }

    /// Take a waiting download out of the queue, wherever it stands.
    pub fn remove_from_queue(&mut self, id: &str) -> (out: Option<DownloadRecord>)
        requires
            old(self).wf(),
        ensures
            final(self).wf(),
            final(self)@.limit == old(self)@.limit,
            final(self)@.active == old(self)@.active,
            !final(self)@.is_queued(id@),
            match out {
                Some(record) => {
                    &&& old(self)@.is_queued(id@)
                    &&& record == old(self)@.queue[old(self)@.position(id@)]
                    &&& record.id@ == id@
                    &&& !record.status.terminal()
                    &&& final(self)@.queue == old(self)@.queue.remove(old(self)@.position(id@))
                },
                None => !old(self)@.is_queued(id@) && final(self)@.queue == old(self)@.queue,
            },
    {
        let key = String::from_str(id);
        let ghost ids = self@.queued_ids();
        match self.find_queued(&key) {
            Some(i) => {
                proof {
                    lemma_index_of_unique(ids, i as int);
                }
                let out = self.queue.remove(i);
                proof {
                    assert(self@.queued_ids() =~= ids.remove(i as int));
                    lemma_remove_to_set(ids, i as int);
                    ids.remove_ensures(i as int);
                    assert(!ids.remove(i as int).to_set().contains(id@));
                    assert forall|j: int| 0 <= j < self.queue@.len() implies #[trigger] self@.may_wait(
                        self.queue@[j],
                    ) by {
                        if j < i {
                            assert(self.queue@[j] == old(self)@.queue[j]);
                            assert(old(self)@.may_wait(old(self)@.queue[j]));
                        } else {
                            assert(self.queue@[j] == old(self)@.queue[j + 1]);
                            assert(old(self)@.may_wait(old(self)@.queue[j + 1]));
                        }
                    }
                    assert(old(self)@.may_wait(old(self)@.queue[i as int]));
                }
                out
            },
            None => None,
        }
    }

    /// Cancel a download: a running one is to be signalled, a waiting one
    /// leaves the queue.
    pub fn cancel(&mut self, id: &str) -> (out: CancelOutcome)
        requires
            old(self).wf(),
        ensures
            final(self).wf(),
            final(self)@.limit == old(self)@.limit,
            final(self)@.active == old(self)@.active,
            !final(self)@.is_queued(id@),
            old(self)@.active.contains(id@) ==> out is Signal && final(self)@ == old(self)@,
            !old(self)@.tracks(id@) ==> out is NotFound && final(self)@ == old(self)@,
            out matches CancelOutcome::Removed(record) ==> record.id@ == id@
                && !record.status.terminal(),
            !old(self)@.active.contains(id@) && old(self)@.is_queued(id@) ==> {
                &&& out == CancelOutcome::Removed(old(self)@.queue[old(self)@.position(id@)])
                &&& final(self)@.queue == old(self)@.queue.remove(old(self)@.position(id@))
            },
    {
        if self.is_active(id) {
            proof {
                if self@.is_queued(id@) {
                    let i = self@.position(id@);
                    assert(self@.queued_ids()[i] == self@.queue[i].id@);
                    assert(self@.may_wait(self@.queue[i]));
                }
            }
            CancelOutcome::Signal
        } else {
            match self.remove_from_queue(id) {
                Some(record) => CancelOutcome::Removed(record),
                None => CancelOutcome::NotFound,
            }
        }
    }

    /// Add a download to the queue
    pub fn enqueue(&mut self, download: DownloadRecord)
        requires
            old(self).wf(),
            !old(self)@.tracks(download.id@),
            !download.status.terminal(),
        ensures
            final(self).wf(),
            final(self)@ == (ManagerState {
                queue: old(self)@.queue.push(download),
                ..old(self)@
            }),
    {
        let ghost ids = self@.queued_ids();
        self.queue.push_back(download);
        proof {
            assert(self@.queued_ids() =~= ids.push(download.id@));
            assert forall|j: int| 0 <= j < self.queue@.len() implies #[trigger] self@.may_wait(
                self.queue@[j],
            ) by {
                if j < ids.len() {
                    assert(self.queue@[j] == old(self)@.queue[j]);
                    assert(old(self)@.may_wait(old(self)@.queue[j]));
                }
            }
        }
    }

    /// Get next download from queue
    pub fn dequeue(&mut self) -> (out: Option<DownloadRecord>)
        requires
            old(self).wf(),
        ensures
            final(self).wf(),
            final(self)@.limit == old(self)@.limit,
            final(self)@.active == old(self)@.active,
            match out {
                Some(record) => {
                    &&& old(self)@.queue.len() > 0
                    &&& record == old(self)@.queue.first()
                    &&& final(self)@.queue == old(self)@.queue.drop_first()
                    &&& !final(self)@.tracks(record.id@)
                    &&& !record.status.terminal()
                },
                None => old(self)@.queue.len() == 0 && final(self)@.queue == old(self)@.queue,
            },
    {
        let ghost ids = self@.queued_ids();
        let out = self.queue.pop_front();
        proof {
            if out is Some {
                assert(self@.queue =~= old(self)@.queue.drop_first());
                assert(self@.queued_ids() =~= ids.remove(0));
                lemma_remove_to_set(ids, 0);
                assert(!ids.remove(0).to_set().contains(ids[0]));
                assert(ids[0] == old(self)@.queue[0].id@);
                assert forall|j: int| 0 <= j < self.queue@.len() implies #[trigger] self@.may_wait(
                    self.queue@[j],
                ) by {
                    assert(self.queue@[j] == old(self)@.queue[j + 1]);
                    assert(old(self)@.may_wait(old(self)@.queue[j + 1]));
                }
                assert(old(self)@.may_wait(old(self)@.queue[0]));
            }
        }
        out
    }

    /// Get queue length
    pub fn queue_len(&self) -> (out: usize)
        ensures
            out == self@.queue.len(),
    {
        self.queue.len()
    }

    /// Get active download count
    pub fn active_count(&self) -> (out: usize)
        requires
            self.wf(),
        ensures
            out == self@.active.len(),
    {
        proof {
            texts(self.active@).unique_seq_to_set();
        }
        self.active.len()
    }

    /// The limit on concurrent downloads
    pub fn max_concurrent(&self) -> (out: usize)
        ensures
            out == self@.limit,
    {
        self.max_concurrent
    }

    /// Whether one more download may start
    pub fn has_free_slot(&self) -> (out: bool)
        requires
            self.wf(),
        ensures
            out == (self@.active.len() < self@.limit),
            out == (self@.free_slots() > 0),
    {
        self.active_count() < self.max_concurrent
    }

    /// Sets the limit and nothing else. What waits is started by the
    /// scheduler, which alone calls this.
    pub(crate) fn set_limit(&mut self, max: usize)
        ensures
            final(self)@ == (ManagerState { limit: max as nat, ..old(self)@ }),
            old(self).wf() ==> final(self).wf(),
    {
        self.max_concurrent = max;
        proof {
            if old(self).wf() {
                assert forall|j: int| 0 <= j < self.queue@.len() implies #[trigger] self@.may_wait(
                    self.queue@[j],
                ) by {
                    assert(old(self)@.may_wait(self.queue@[j]));
                }
            }
        }
    }

    /// Get current statistics
    pub fn stats(&self) -> (out: DownloadStats)
        requires
            self.wf(),
        ensures
            out.active == self@.active.len(),
            out.queued == self@.queue.len(),
            out.max_concurrent == self@.limit,
    {
        DownloadStats {
            active: self.active_count(),
            queued: self.queue_len(),
            max_concurrent: self.max_concurrent,
        }
    }
}

} // verus!
