//! Taking up unfinished work after a restart.

use vstd::prelude::*;
use vstd::multiset::Multiset;
use crate::manager::{DownloadManager, ManagerState};
use crate::record::DownloadRecord;
use crate::scheduler::{after_submit, start_of, submit, Started, Submission};
use crate::status::DownloadStatus;

verus! {

/// How many records at the head of `list` were created before `time`.
pub open spec fn lead(list: Seq<DownloadRecord>, time: i64) -> nat
    decreases list.len(),
{
    if list.len() > 0 && list.first().created_at < time {
        1 + lead(list.drop_first(), time)
    } else {
        0
    }
}

/// `list` with `record` put in where its time of creation places it, if it
/// is to be taken up again at all.
pub open spec fn place(record: DownloadRecord, list: Seq<DownloadRecord>) -> Seq<DownloadRecord> {
    if record.status.resumable() {
        list.insert(lead(list, record.created_at) as int, record)
    } else {
        list
    }
}

/// The records that are to be taken up again (pending, queued or
/// downloading), oldest first; records of one time of creation keep the
/// order they came in.
pub open spec fn pending_in_order(records: Seq<DownloadRecord>) -> Seq<DownloadRecord>
    decreases records.len(),
{
    if records.len() == 0 {
        Seq::empty()
    } else {
        place(records.first(), pending_in_order(records.drop_first()))
    }
}

/// Each record was created no later than the next.
pub open spec fn oldest_first(list: Seq<DownloadRecord>) -> bool {
    forall|i: int, j: int|
        0 <= i < j < list.len() ==> (#[trigger] list[i]).created_at <= (
        #[trigger] list[j]).created_at
}

/// A record is taken up unless it already runs or waits, or has ended.
pub open spec fn taken_up(state: ManagerState, record: DownloadRecord) -> bool {
    !state.tracks(record.id@) && !record.status.terminal()
}

/// The state after one record was offered for taking up.
pub open spec fn after_take_up(state: ManagerState, record: DownloadRecord) -> ManagerState {
    if taken_up(state, record) {
        after_submit(state, record)
    } else {
        state
    }
}

/// The state after the records were offered one by one, in order.
pub open spec fn after_resume(state: ManagerState, pending: Seq<DownloadRecord>) -> ManagerState
    decreases pending.len(),
{
    if pending.len() == 0 {
        state
    } else {
        after_resume(after_take_up(state, pending.first()), pending.drop_first())
    }
}

/// The downloads that start when the records are offered one by one.
pub open spec fn resumed(state: ManagerState, pending: Seq<DownloadRecord>, now: i64) -> Seq<
    Started,
>
    decreases pending.len(),
{
    if pending.len() == 0 {
        Seq::empty()
    } else {
        let first = pending.first();
        let rest = resumed(after_take_up(state, first), pending.drop_first(), now);
        if taken_up(state, first) && state.active.len() < state.limit {
            seq![start_of(first, now)] + rest
        } else {
            rest
        }
    }
}

/// A download that starts from the beginning: marked as downloading, no
/// byte counted, and an opening report of zero bytes under its own id.
pub open spec fn starts_afresh(started: Started) -> bool {
    &&& started.record.status == DownloadStatus::Downloading
    &&& started.record.downloaded_size == 0
    &&& started.event.id == started.record.id
    &&& started.event.status == DownloadStatus::Downloading
    &&& started.event.downloaded == 0
}

/// Whatever is taken up, and whatever was counted for it before, every
/// download that starts does so from byte zero: nothing resumes part-way.
pub proof fn lemma_resumed_start_afresh(state: ManagerState, pending: Seq<DownloadRecord>, now: i64)
    ensures
        forall|j: int|
            0 <= j < resumed(state, pending, now).len() ==> starts_afresh(
                #[trigger] resumed(state, pending, now)[j],
            ),
    decreases pending.len(),
{
    if pending.len() > 0 {
        let first = pending.first();
        let rest = resumed(after_take_up(state, first), pending.drop_first(), now);
        lemma_resumed_start_afresh(after_take_up(state, first), pending.drop_first(), now);
        assert(starts_afresh(start_of(first, now)));
        assert forall|j: int| 0 <= j < resumed(state, pending, now).len() implies starts_afresh(
            #[trigger] resumed(state, pending, now)[j],
        ) by {
            if taken_up(state, first) && state.active.len() < state.limit {
                if j > 0 {
                    assert(resumed(state, pending, now)[j] == rest[j - 1]);
                }
            }
        }
    }
}

/// What `lead` counts: the records before it are older than `time`, the
/// one at it is not.
pub proof fn lemma_lead(list: Seq<DownloadRecord>, time: i64)
    ensures
        lead(list, time) <= list.len(),
        forall|i: int| 0 <= i < lead(list, time) ==> (#[trigger] list[i]).created_at < time,
        lead(list, time) < list.len() ==> list[lead(list, time) as int].created_at >= time,
    decreases list.len(),
{
    if list.len() > 0 && list.first().created_at < time {
        let rest = list.drop_first();
        lemma_lead(rest, time);
        assert forall|i: int| 0 <= i < lead(list, time) implies (#[trigger] list[i]).created_at
            < time by {
            if i > 0 {
                assert(list[i] == rest[i - 1]);
            }
        }
        if lead(list, time) < list.len() {
            assert(list[lead(list, time) as int] == rest[lead(rest, time) as int]);
        }
    }
}

/// The records picked for taking up stand oldest first, each of them is
/// one that can be taken up, and together they are exactly those of the
/// given records that can.
pub proof fn lemma_pending_in_order(records: Seq<DownloadRecord>)
    ensures
        oldest_first(pending_in_order(records)),
        forall|i: int|
            0 <= i < pending_in_order(records).len() ==> (#[trigger] pending_in_order(
                records,
            )[i]).status.resumable(),
        pending_in_order(records).to_multiset() == records.filter(
            |r: DownloadRecord| r.status.resumable(),
        ).to_multiset(),
    decreases records.len(),
{
    broadcast use vstd::seq_lib::group_to_multiset_ensures;

    let wanted = |r: DownloadRecord| r.status.resumable();
    if records.len() == 0 {
        assert(records.filter(wanted) =~= Seq::<DownloadRecord>::empty()) by {
            reveal(Seq::filter);
        }
    } else {
        let first = records.first();
        let rest = records.drop_first();
        let sorted = pending_in_order(rest);
        lemma_pending_in_order(rest);
        assert(records =~= seq![first] + rest);
        Seq::filter_distributes_over_add(seq![first], rest, wanted);
        vstd::seq_lib::lemma_multiset_commutative(seq![first].filter(wanted), rest.filter(wanted));
        assert(seq![first].filter(wanted) =~= if wanted(first) {
            seq![first]
        } else {
            Seq::<DownloadRecord>::empty()
        }) by {
            reveal(Seq::filter);
            assert(seq![first].drop_last() =~= Seq::<DownloadRecord>::empty());
            assert(seq![first].drop_last().filter(wanted) =~= Seq::<DownloadRecord>::empty());
        }
        if first.status.resumable() {
            let at = lead(sorted, first.created_at) as int;
            lemma_lead(sorted, first.created_at);
            let out = sorted.insert(at, first);
            assert forall|i: int, j: int| 0 <= i < j < out.len() implies (#[trigger] out[i]).created_at
                <= (#[trigger] out[j]).created_at by {
                if j < at {
                    assert(out[i] == sorted[i] && out[j] == sorted[j]);
                } else if j == at {
                    assert(out[i] == sorted[i]);
                } else if i < at {
                    assert(out[i] == sorted[i] && out[j] == sorted[j - 1]);
                    if at < sorted.len() {
                        assert(sorted[at].created_at <= sorted[j - 1].created_at || at == j - 1);
                    }
                } else if i == at {
                    assert(out[j] == sorted[j - 1]);
                    assert(sorted[at].created_at <= sorted[j - 1].created_at || at == j - 1);
                } else {
                    assert(out[i] == sorted[i - 1] && out[j] == sorted[j - 1]);
                }
            }
            assert forall|i: int| 0 <= i < out.len() implies (#[trigger] out[i]).status.resumable() by {
                if i < at {
                    assert(out[i] == sorted[i]);
                } else if i > at {
                    assert(out[i] == sorted[i - 1]);
                }
            }
            assert(seq![first].to_multiset() =~= Multiset::<DownloadRecord>::empty().insert(first))
                by {
                assert(seq![first] =~= Seq::<DownloadRecord>::empty().push(first));
            }
            assert(out.to_multiset() =~= records.filter(wanted).to_multiset());
        } else {
            assert(seq![first].filter(wanted) + rest.filter(wanted) =~= rest.filter(wanted));
        }
    }
}

fn lead_of(list: &Vec<DownloadRecord>, time: i64) -> (out: usize)
    ensures
        out == lead(list@, time),
        out <= list@.len(),
{
    let mut at: usize = 0;
    assert(list@.skip(0) =~= list@);
    while at < list.len() && list[at].created_at < time
        invariant
            at <= list@.len(),
            lead(list@, time) == at + lead(list@.skip(at as int), time),
        decreases list@.len() - at,
    {
        assert(list@.skip(at as int).drop_first() =~= list@.skip(at + 1));
        at = at + 1;
    }
    at
}

/// Picks the records that are to be taken up again and puts them in the
/// order of their creation.
pub fn pending_downloads(records: Vec<DownloadRecord>) -> (out: Vec<DownloadRecord>)
    ensures
        out@ == pending_in_order(records@),
{
    let ghost all = records@;
    let mut rest = records;
    let mut out: Vec<DownloadRecord> = Vec::new();
    assert(all.skip(all.len() as int) =~= Seq::<DownloadRecord>::empty());
    assert(all.take(all.len() as int) =~= all);
    while rest.len() > 0
        invariant
            rest@.len() <= all.len(),
            rest@ == all.take(rest@.len() as int),
            out@ == pending_in_order(all.skip(rest@.len() as int)),
        decreases rest@.len(),
    {
        let ghost n = rest@.len() as int;
        match rest.pop() {
            Some(record) => {
                proof {
                    assert(record == all[n - 1]);
                    assert(all.skip(n - 1).first() == record);
                    assert(all.skip(n - 1).drop_first() =~= all.skip(n));
                    assert(rest@ =~= all.take(n - 1));
                }
                if record.status.is_resumable() {
                    let at = lead_of(&out, record.created_at);
                    out.insert(at, record);
                }
            },
            None => {},
        }
    }
    assert(all.skip(0) =~= all);
    out
}

/// Offers the records one by one, in the order given: each one that neither
/// runs nor waits yet and has not ended is submitted like a new download,
/// so that it starts from byte zero where a place is free and waits where
/// none is.
pub fn resume_pending(manager: &mut DownloadManager, pending: Vec<DownloadRecord>, now: i64) -> (out:
    Vec<Started>)
    requires
        old(manager).wf(),
    ensures
        final(manager).wf(),
        final(manager)@ == after_resume(old(manager)@, pending@),
        out@ == resumed(old(manager)@, pending@, now),
        forall|j: int| 0 <= j < out@.len() ==> starts_afresh(#[trigger] out@[j]),
        old(manager)@.within_limit() ==> final(manager)@.within_limit(),
        old(manager)@.active.subset_of(final(manager)@.active),
{
    proof {
        lemma_resumed_start_afresh(manager@, pending@, now);
    }
    let ghost before = manager@;
    let ghost all = pending@;
    let mut rest = pending;
    let mut out: Vec<Started> = Vec::new();
    proof {
        assert(Seq::<Started>::empty() + resumed(before, all, now) =~= resumed(before, all, now));
    }
    while rest.len() > 0
        invariant
            manager.wf(),
            after_resume(before, all) == after_resume(manager@, rest@),
            resumed(before, all, now) == out@ + resumed(manager@, rest@, now),
            before.within_limit() ==> manager@.within_limit(),
            before.active.subset_of(manager@.active),
        decreases rest@.len(),
    {
        let ghost state = manager@;
        let ghost remaining = rest@;
        let ghost so_far = out@;
        let record = rest.remove(0);
        proof {
            assert(record == remaining.first());
            assert(rest@ =~= remaining.drop_first());
        }
        let known = manager.is_active(record.id.as_str()) || manager.is_queued(
            record.id.as_str(),
        );
        if !known && !record.status.is_terminal() {
            match submit(manager, record, now) {
                Submission::Started(started) => {
                    out.push(started);
                    proof {
                        assert(out@ + resumed(manager@, rest@, now) =~= so_far + (seq![
                            start_of(record, now),
                        ] + resumed(manager@, rest@, now)));
                    }
                },
                Submission::Queued => {},
            }
        }
    }
    proof {
        assert(out@ + Seq::<Started>::empty() =~= out@);
    }
    out
}

/// Takes up again, after a restart, what was unfinished: of the records
/// loaded from the store, those that were pending, queued or downloading
/// are submitted like new downloads, oldest first. What had ended stays as
/// it is.
pub fn resume_incomplete_downloads(manager: &mut DownloadManager, records: Vec<DownloadRecord>, now: i64) -> (out:
    Vec<Started>)
    requires
        old(manager).wf(),
    ensures
        final(manager).wf(),
        final(manager)@ == after_resume(old(manager)@, pending_in_order(records@)),
        out@ == resumed(old(manager)@, pending_in_order(records@), now),
        forall|j: int| 0 <= j < out@.len() ==> starts_afresh(#[trigger] out@[j]),
        old(manager)@.within_limit() ==> final(manager)@.within_limit(),
        old(manager)@.active.subset_of(final(manager)@.active),
{
    let pending = pending_downloads(records);
    resume_pending(manager, pending, now)
}

/// A download that was interrupted while it ran starts over when it is
/// taken up: where a place is free it is the one download started, marked
/// as downloading, with no byte counted, and its opening report shows zero
/// bytes.
pub proof fn lemma_interrupted_download_restarts(
    state: ManagerState,
    record: DownloadRecord,
    now: i64,
)
    requires
        record.status == DownloadStatus::Downloading,
        !state.tracks(record.id@),
        state.active.len() < state.limit,
    ensures
        resumed(state, pending_in_order(seq![record]), now) == seq![start_of(record, now)],
        after_resume(state, pending_in_order(seq![record])).active == state.active.insert(
            record.id@,
        ),
        start_of(record, now).record.status == DownloadStatus::Downloading,
        start_of(record, now).record.downloaded_size == 0,
        start_of(record, now).event.downloaded == 0,
        start_of(record, now).event.status == DownloadStatus::Downloading,
{
    let one = seq![record];
    assert(one.drop_first() =~= Seq::<DownloadRecord>::empty());
    assert(pending_in_order(one.drop_first()) =~= Seq::<DownloadRecord>::empty());
    assert(lead(Seq::<DownloadRecord>::empty(), record.created_at) == 0);
    assert(pending_in_order(one) =~= one) by {
        assert(one.first() == record);
        assert(Seq::<DownloadRecord>::empty().insert(0, record) =~= one);
    }
    assert(resumed(after_take_up(state, record), one.drop_first(), now) =~= Seq::<
        Started,
    >::empty());
    assert(seq![start_of(record, now)] + Seq::<Started>::empty() =~= seq![start_of(record, now)]);
    assert(after_resume(after_take_up(state, record), one.drop_first()) == after_take_up(
        state,
        record,
    ));
}

/// The ids of a list of records.
pub open spec fn ids_of(list: Seq<DownloadRecord>) -> Seq<Seq<char>> {
    list.map_values(|r: DownloadRecord| r.id@)
}

/// How many of `count` offered records start in `state`.
pub open spec fn filled(state: ManagerState, count: nat) -> nat {
    if count <= state.free_slots() {
        count
    } else {
        state.free_slots()
    }
}

/// Where the records offered are new to the engine, differ in their ids and
/// have not ended, taking them up fills the free places in the order given
/// and queues the rest behind what already waits: as many start as places
/// are free, no more.
pub proof fn lemma_resume_fills_free_places(
    state: ManagerState,
    pending: Seq<DownloadRecord>,
    now: i64,
)
    requires
        state.active.finite(),
        ids_of(pending).no_duplicates(),
        forall|i: int| 0 <= i < pending.len() ==> taken_up(state, #[trigger] pending[i]),
    ensures
        resumed(state, pending, now) == pending.take(
            filled(state, pending.len()) as int,
        ).map_values(|r: DownloadRecord| start_of(r, now)),
        after_resume(state, pending).queue == state.queue + pending.skip(
            filled(state, pending.len()) as int,
        ).map_values(|r: DownloadRecord| r.as_queued()),
        after_resume(state, pending).active == state.active.union(
            ids_of(pending.take(filled(state, pending.len()) as int)).to_set(),
        ),
        after_resume(state, pending).limit == state.limit,
    decreases pending.len(),
{
    let starts = |r: DownloadRecord| start_of(r, now);
    let waits = |r: DownloadRecord| r.as_queued();
    let k = filled(state, pending.len()) as int;
    if pending.len() == 0 {
        assert(pending.take(0).map_values(starts) =~= Seq::<Started>::empty());
        assert(state.queue + pending.skip(0).map_values(waits) =~= state.queue);
        assert(state.active.union(ids_of(pending.take(0)).to_set()) =~= state.active);
    } else {
        let first = pending.first();
        let rest = pending.drop_first();
        let next = after_take_up(state, first);
        assert(taken_up(state, first));
        assert(ids_of(pending)[0] == first.id@);
        assert(ids_of(rest) =~= ids_of(pending).drop_first());
        assert forall|i: int| 0 <= i < rest.len() implies taken_up(next, #[trigger] rest[i]) by {
            assert(rest[i] == pending[i + 1]);
            assert(taken_up(state, pending[i + 1]));
            assert(ids_of(pending)[i + 1] == rest[i].id@);
            assert(rest[i].id@ != first.id@);
            if state.active.len() >= state.limit {
                assert(next.queued_ids() =~= state.queued_ids().push(first.id@));
                if next.is_queued(rest[i].id@) {
                    let at = choose|at: int|
                        0 <= at < next.queued_ids().len() && next.queued_ids()[at] == rest[i].id@;
                    if at < state.queued_ids().len() {
                        assert(state.queued_ids()[at] == rest[i].id@);
                    }
                }
            }
        }
        lemma_resume_fills_free_places(next, rest, now);
        let k1 = filled(next, rest.len()) as int;
        if state.active.len() < state.limit {
            assert(k1 == k - 1);
            assert(pending.take(k).map_values(starts) =~= seq![start_of(first, now)] + rest.take(
                k1,
            ).map_values(starts));
            assert(pending.skip(k) =~= rest.skip(k1));
            assert(ids_of(pending.take(k)) =~= seq![first.id@] + ids_of(rest.take(k1)));
            assert(after_resume(state, pending).active =~= state.active.union(
                ids_of(pending.take(k)).to_set(),
            )) by {
                let front = ids_of(pending.take(k));
                let back = ids_of(rest.take(k1));
                assert forall|x: Seq<char>| front.contains(x) <==> (x == first.id@ || back.contains(
                    x,
                )) by {
                    if front.contains(x) {
                        let at = choose|at: int| 0 <= at < front.len() && front[at] == x;
                        if at > 0 {
                            assert(back[at - 1] == x);
                        }
                    }
                    if back.contains(x) {
                        let at = choose|at: int| 0 <= at < back.len() && back[at] == x;
                        assert(front[at + 1] == x);
                    }
                    if x == first.id@ {
                        assert(front[0] == x);
                    }
                }
            }
        } else {
            assert(k == 0 && k1 == 0);
            assert(pending.take(0).map_values(starts) =~= Seq::<Started>::empty());
            assert(rest.take(0).map_values(starts) =~= Seq::<Started>::empty());
            assert(state.queue + pending.skip(0).map_values(waits) =~= state.queue.push(
                first.as_queued(),
            ) + rest.skip(0).map_values(waits));
            assert(ids_of(pending.take(0)).to_set() =~= Set::<Seq<char>>::empty());
            assert(ids_of(rest.take(0)).to_set() =~= Set::<Seq<char>>::empty());
            assert(after_resume(state, pending).active =~= state.active.union(
                ids_of(pending.take(0)).to_set(),
            ));
        }
    }
}

/// Every record picked for taking up is one of the records given.
pub proof fn lemma_pending_members(records: Seq<DownloadRecord>)
    ensures
        forall|i: int|
            0 <= i < pending_in_order(records).len() ==> records.contains(
                #[trigger] pending_in_order(records)[i],
            ),
    decreases records.len(),
{
    if records.len() > 0 {
        let first = records.first();
        let rest = records.drop_first();
        let sorted = pending_in_order(rest);
        let out = pending_in_order(records);
        lemma_pending_members(rest);
        lemma_lead(sorted, first.created_at);
        let at = lead(sorted, first.created_at) as int;
        assert forall|i: int| 0 <= i < out.len() implies records.contains(#[trigger] out[i]) by {
            let from = if !first.status.resumable() || i < at {
                i
            } else {
                i - 1
            };
            if first.status.resumable() && i == at {
                assert(records[0] == out[i]);
            } else {
                assert(out[i] == sorted[from]);
                assert(rest.contains(sorted[from]));
                let k = choose|k: int| 0 <= k < rest.len() && rest[k] == sorted[from];
                assert(records[k + 1] == out[i]);
            }
        }
    }
}

/// Records that differ in their ids still do once picked and put in order.
pub proof fn lemma_pending_ids_distinct(records: Seq<DownloadRecord>)
    requires
        ids_of(records).no_duplicates(),
    ensures
        ids_of(pending_in_order(records)).no_duplicates(),
    decreases records.len(),
{
    if records.len() > 0 {
        let first = records.first();
        let rest = records.drop_first();
        let sorted = pending_in_order(rest);
        let out = pending_in_order(records);
        assert(ids_of(rest) =~= ids_of(records).drop_first());
        lemma_pending_ids_distinct(rest);
        lemma_pending_members(rest);
        lemma_lead(sorted, first.created_at);
        if first.status.resumable() {
            let at = lead(sorted, first.created_at) as int;
            assert forall|k: int| 0 <= k < sorted.len() implies (#[trigger] sorted[k]).id@
                != first.id@ by {
                assert(rest.contains(sorted[k]));
                let m = choose|m: int| 0 <= m < rest.len() && rest[m] == sorted[k];
                assert(ids_of(records)[m + 1] == sorted[k].id@);
                assert(ids_of(records)[0] == first.id@);
            }
            assert forall|a: int, b: int| 0 <= a < out.len() && 0 <= b < out.len() && a != b implies ids_of(
                out,
            )[a] != ids_of(out)[b] by {
                let from_a = if a < at {
                    a
                } else {
                    a - 1
                };
                let from_b = if b < at {
                    b
                } else {
                    b - 1
                };
                if a == at {
                    assert(out[b] == sorted[from_b]);
                } else if b == at {
                    assert(out[a] == sorted[from_a]);
                } else {
                    assert(out[a] == sorted[from_a] && out[b] == sorted[from_b]);
                    assert(ids_of(sorted)[from_a] != ids_of(sorted)[from_b]);
                }
            }
        }
    }
}

/// After a restart, each of the oldest unfinished downloads for which a
/// place is free is started again from byte zero, whatever was counted for
/// it before: it runs, it is marked as downloading with no byte counted,
/// and its opening report shows zero bytes. This holds for any list of
/// stored records that differ in their ids and are new to the engine.
pub proof fn lemma_oldest_unfinished_restart(
    state: ManagerState,
    records: Seq<DownloadRecord>,
    now: i64,
    i: int,
)
    requires
        state.active.finite(),
        ids_of(records).no_duplicates(),
        forall|k: int| 0 <= k < records.len() ==> !state.tracks((#[trigger] records[k]).id@),
        0 <= i < filled(state, pending_in_order(records).len()),
    ensures
        pending_in_order(records)[i].status.resumable(),
        resumed(state, pending_in_order(records), now)[i] == start_of(
            pending_in_order(records)[i],
            now,
        ),
        starts_afresh(resumed(state, pending_in_order(records), now)[i]),
        resumed(state, pending_in_order(records), now)[i].record.id
            == pending_in_order(records)[i].id,
        after_resume(state, pending_in_order(records)).active.contains(
            pending_in_order(records)[i].id@,
        ),
        resumed(state, pending_in_order(records), now).len() == filled(
            state,
            pending_in_order(records).len(),
        ),
{
    let pending = pending_in_order(records);
    let count = filled(state, pending.len()) as int;
    lemma_pending_in_order(records);
    lemma_pending_members(records);
    lemma_pending_ids_distinct(records);
    assert forall|k: int| 0 <= k < pending.len() implies taken_up(state, #[trigger] pending[k]) by {
        assert(records.contains(pending[k]));
        let m = choose|m: int| 0 <= m < records.len() && records[m] == pending[k];
        assert(!state.tracks(records[m].id@));
        assert(pending[k].status.resumable());
    }
    lemma_resume_fills_free_places(state, pending, now);
    assert(pending.take(count)[i] == pending[i]);
    assert(ids_of(pending.take(count))[i] == pending[i].id@);
    assert(ids_of(pending.take(count)).to_set().contains(pending[i].id@));
}

} // verus!
