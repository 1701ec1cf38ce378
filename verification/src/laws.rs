//! What holds of the engine over time, proved on its states.

use vstd::prelude::*;
use crate::manager::ManagerState;
use crate::record::DownloadRecord;
use crate::text::lemma_remove_to_set;
use crate::scheduler::{
    after_cancel, after_complete, after_start_waiting, after_submit, promotes, startable,
};

verus! {

/// One thing that can happen to the engine.
pub enum Step {
    /// A download is submitted.
    Submit(DownloadRecord),
    /// The transfer of the download with this id ends, however it ends.
    Complete(Seq<char>),
    /// The download with this id is cancelled.
    Cancel(Seq<char>),
    /// The limit on concurrent downloads is set.
    SetLimit(nat),
}

/// The step is one the engine accepts: a submitted download is new to it
/// and has not ended.
pub open spec fn admissible(state: ManagerState, step: Step) -> bool {
    match step {
        Step::Submit(record) => !state.tracks(record.id@) && !record.status.terminal(),
        _ => true,
    }
}

/// The state after a step.
pub open spec fn after(state: ManagerState, step: Step) -> ManagerState {
    match step {
        Step::Submit(record) => after_submit(state, record),
        Step::Complete(id) => after_complete(state, id),
        Step::Cancel(id) => after_cancel(state, id),
        Step::SetLimit(max) => after_start_waiting(ManagerState { limit: max, ..state }),
    }
}

/// The state after a run of steps.
pub open spec fn run(state: ManagerState, steps: Seq<Step>) -> ManagerState
    decreases steps.len(),
{
    if steps.len() == 0 {
        state
    } else {
        after(run(state, steps.drop_last()), steps.last())
    }
}

/// Both ids wait, the first ahead of the second.
pub open spec fn waits_before(state: ManagerState, first: Seq<char>, second: Seq<char>) -> bool {
    exists|i: int, j: int|
        0 <= i < j < state.queue.len() && (#[trigger] state.queue[i]).id@ == first && (
        #[trigger] state.queue[j]).id@ == second
}

/// The step submits a download under this id.
pub open spec fn submits(step: Step, id: Seq<char>) -> bool {
    step matches Step::Submit(record) && record.id@ == id
}

/// While the limit stays as it is, no step takes the number of running
/// downloads over it.
pub proof fn lemma_step_keeps_limit(state: ManagerState, step: Step)
    requires
        state.active.finite(),
        state.within_limit(),
        !(step is SetLimit),
    ensures
        after(state, step).active.finite(),
        after(state, step).within_limit(),
        after(state, step).limit == state.limit,
{
}

/// From a state within the limit, a run of submissions, endings and
/// cancellations never has more downloads running than the limit allows.
pub proof fn lemma_run_keeps_limit(start: ManagerState, steps: Seq<Step>)
    requires
        start.active.finite(),
        start.within_limit(),
        forall|k: int| 0 <= k < steps.len() ==> !(#[trigger] steps[k] is SetLimit),
    ensures
        run(start, steps).active.finite(),
        run(start, steps).within_limit(),
        run(start, steps).limit == start.limit,
    decreases steps.len(),
{
    if steps.len() > 0 {
        let earlier = steps.drop_last();
        assert forall|k: int| 0 <= k < earlier.len() implies !(#[trigger] earlier[k] is SetLimit) by {
            assert(earlier[k] == steps[k]);
        }
        lemma_run_keeps_limit(start, earlier);
        lemma_step_keeps_limit(run(start, earlier), steps.last());
    }
}

/// Under a limit that stays as it is, the number of running downloads is
/// within the limit at every moment of a run that starts with nothing
/// running.
pub proof fn lemma_active_never_exceeds_limit(limit: nat, steps: Seq<Step>, moment: int)
    requires
        0 <= moment <= steps.len(),
        forall|k: int| 0 <= k < steps.len() ==> !(#[trigger] steps[k] is SetLimit),
    ensures
        run(
            ManagerState { limit, active: Set::empty(), queue: Seq::empty() },
            steps.take(moment),
        ).within_limit(),
{
    let start = ManagerState { limit, active: Set::empty(), queue: Seq::empty() };
    let upto = steps.take(moment);
    assert forall|k: int| 0 <= k < upto.len() implies !(#[trigger] upto[k] is SetLimit) by {
        assert(upto[k] == steps[k]);
    }
    lemma_run_keeps_limit(start, upto);
}

/// A change of the limit leaves every running download running; a limit no
/// higher than the number of running downloads starts nothing and leaves
/// the queue as it is.
pub proof fn lemma_limit_change_spares_running(state: ManagerState, max: nat)
    requires
        state.active.finite(),
    ensures
        state.active.subset_of(after(state, Step::SetLimit(max)).active),
        max <= state.active.len() ==> after(state, Step::SetLimit(max)).active == state.active
            && after(state, Step::SetLimit(max)).queue == state.queue,
{
    let changed = ManagerState { limit: max, ..state };
    if max <= state.active.len() {
        assert(startable(changed) == 0);
        assert(state.queued_ids().take(0).to_set() =~= Set::<Seq<char>>::empty());
        assert(after_start_waiting(changed).active =~= state.active);
        assert(state.queue.skip(0) =~= state.queue);
    }
}

/// When a transfer ends while others wait, exactly one waiting download
/// starts, the oldest: it takes the place that became free, and the others
/// wait on in their order.
pub proof fn lemma_ending_starts_exactly_one(state: ManagerState, id: Seq<char>)
    requires
        state.coherent(),
        state.within_limit(),
        state.active.contains(id),
        state.queue.len() > 0,
    ensures
        after_complete(state, id).queue == state.queue.drop_first(),
        after_complete(state, id).active == state.active.remove(id).insert(
            state.queue.first().id@,
        ),
        after_complete(state, id).active.len() == state.active.len(),
{
    assert(state.may_wait(state.queue[0]));
}

/// An id that neither runs nor waits stays out until a download is
/// submitted under it: nothing but a submission brings an id in.
pub proof fn lemma_untracked_stays_out(state: ManagerState, step: Step, id: Seq<char>)
    requires
        !state.tracks(id),
        !submits(step, id),
    ensures
        !after(state, step).tracks(id),
{
    let ids = state.queued_ids();
    lemma_unqueued_stays_out(state, step, id);
    match step {
        Step::Complete(done) => {
            let mid = ManagerState { active: state.active.remove(done), ..state };
            if promotes(mid) {
                assert(ids[0] == state.queue.first().id@);
            }
        },
        Step::SetLimit(max) => {
            let changed = ManagerState { limit: max, ..state };
            let count = startable(changed) as int;
            if ids.take(count).to_set().contains(id) {
                let k = choose|k: int| 0 <= k < ids.take(count).len() && ids.take(count)[k] == id;
                assert(ids[k] == id);
            }
        },
        _ => {},
    }
}

/// A waiting download that is cancelled leaves the engine, and no run of
/// steps brings it back to run or wait unless it is submitted anew.
pub proof fn lemma_cancelled_waiting_never_starts(
    state: ManagerState,
    id: Seq<char>,
    steps: Seq<Step>,
)
    requires
        state.coherent(),
        state.is_queued(id),
        forall|k: int| 0 <= k < steps.len() ==> !submits(#[trigger] steps[k], id),
    ensures
        !run(after_cancel(state, id), steps).tracks(id),
    decreases steps.len(),
{
    let ids = state.queued_ids();
    let at = state.position(id);
    assert(0 <= at < ids.len() && ids[at] == id);
    assert(state.may_wait(state.queue[at]));
    assert(state.queue[at].id@ == id);
    if steps.len() == 0 {
        let next = after_cancel(state, id);
        assert(next.queued_ids() =~= ids.remove(at));
        if next.is_queued(id) {
            let k = choose|k: int| 0 <= k < next.queued_ids().len() && next.queued_ids()[k] == id;
            if k < at {
                assert(ids[k] == id);
            } else {
                assert(ids[k + 1] == id);
            }
        }
    } else {
        let earlier = steps.drop_last();
        assert forall|k: int| 0 <= k < earlier.len() implies !submits(#[trigger] earlier[k], id) by {
            assert(earlier[k] == steps[k]);
        }
        lemma_cancelled_waiting_never_starts(state, id, earlier);
        lemma_untracked_stays_out(run(after_cancel(state, id), earlier), steps.last(), id);
    }
}

/// The queue is first in, first out: of two waiting downloads, no step lets
/// the later one start while the earlier one still waits, and while both
/// wait the earlier one stays ahead.
pub proof fn lemma_queue_order_kept(
    state: ManagerState,
    step: Step,
    first: Seq<char>,
    second: Seq<char>,
)
    requires
        state.coherent(),
        admissible(state, step),
        waits_before(state, first, second),
    ensures
        after(state, step).active.contains(second) ==> !after(state, step).is_queued(first),
        after(state, step).is_queued(first) && after(state, step).is_queued(second)
            ==> waits_before(after(state, step), first, second),
{
    let next = after(state, step);
    let ids = state.queued_ids();
    let (i, j) = choose|i: int, j: int|
        0 <= i < j < state.queue.len() && (#[trigger] state.queue[i]).id@ == first && (
        #[trigger] state.queue[j]).id@ == second;
    assert(ids[i] == first && ids[j] == second);
    assert(state.may_wait(state.queue[i]) && state.may_wait(state.queue[j]));
    match step {
        Step::Submit(record) => {
            if state.active.len() >= state.limit {
                assert(next.queue[i] == state.queue[i] && next.queue[j] == state.queue[j]);
            } else {
                assert(next.queue[i] == state.queue[i] && next.queue[j] == state.queue[j]);
            }
        },
        Step::Complete(done) => {
            let mid = ManagerState { active: state.active.remove(done), ..state };
            if promotes(mid) {
                assert(ids[0] == state.queue.first().id@);
                assert(next.queued_ids() =~= ids.drop_first());
                if i == 0 {
                    if next.is_queued(first) {
                        let k = choose|k: int|
                            0 <= k < next.queued_ids().len() && next.queued_ids()[k] == first;
                        assert(ids[k + 1] == first);
                    }
                } else {
                    assert(next.queue[i - 1] == state.queue[i] && next.queue[j - 1]
                        == state.queue[j]);
                }
            } else {
                assert(next.queue[i] == state.queue[i] && next.queue[j] == state.queue[j]);
            }
        },
        Step::Cancel(gone) => {
            if !state.active.contains(gone) && state.is_queued(gone) {
                let at = state.position(gone);
                assert(0 <= at < ids.len() && ids[at] == gone);
                assert(next.queued_ids() =~= ids.remove(at));
                if at == i {
                    if next.is_queued(first) {
                        let k = choose|k: int|
                            0 <= k < next.queued_ids().len() && next.queued_ids()[k] == first;
                        if k < at {
                            assert(ids[k] == first);
                        } else {
                            assert(ids[k + 1] == first);
                        }
                    }
                } else if at == j {
                    if next.is_queued(second) {
                        let k = choose|k: int|
                            0 <= k < next.queued_ids().len() && next.queued_ids()[k] == second;
                        if k < at {
                            assert(ids[k] == second);
                        } else {
                            assert(ids[k + 1] == second);
                        }
                    }
                } else {
                    let ni = if at < i {
                        i - 1
                    } else {
                        i
                    };
                    let nj = if at < j {
                        j - 1
                    } else {
                        j
                    };
                    assert(next.queue[ni] == state.queue[i] && next.queue[nj] == state.queue[j]);
                }
            } else {
                assert(next.queue[i] == state.queue[i] && next.queue[j] == state.queue[j]);
            }
        },
        Step::SetLimit(max) => {
            let changed = ManagerState { limit: max, ..state };
            let count = startable(changed) as int;
            assert(next.queued_ids() =~= ids.skip(count));
            if ids.take(count).to_set().contains(second) {
                let k = choose|k: int|
                    0 <= k < ids.take(count).len() && ids.take(count)[k] == second;
                assert(ids[k] == second);
                assert(k == j);
            }
            if next.is_queued(first) {
                let k = choose|k: int|
                    0 <= k < next.queued_ids().len() && next.queued_ids()[k] == first;
                assert(ids[k + count] == first);
                assert(k + count == i);
                assert(next.queue[i - count] == state.queue[i] && next.queue[j - count]
                    == state.queue[j]);
            }
        },
    }
}

/// Every step of the run is one the engine accepts in the state it meets.
pub open spec fn admissible_run(start: ManagerState, steps: Seq<Step>) -> bool
    decreases steps.len(),
{
    steps.len() == 0 || (admissible_run(start, steps.drop_last()) && admissible(
        run(start, steps.drop_last()),
        steps.last(),
    ))
}

/// An id that does not wait stays out of the queue until a download is
/// submitted under it.
pub proof fn lemma_unqueued_stays_out(state: ManagerState, step: Step, id: Seq<char>)
    requires
        !state.is_queued(id),
        !submits(step, id),
    ensures
        !after(state, step).is_queued(id),
{
    let next = after(state, step);
    let ids = state.queued_ids();
    if next.is_queued(id) {
        let k = choose|k: int| 0 <= k < next.queued_ids().len() && next.queued_ids()[k] == id;
        match step {
            Step::Submit(record) => {
                if state.active.len() >= state.limit {
                    assert(next.queued_ids() =~= ids.push(record.id@));
                    if k < ids.len() {
                        assert(ids[k] == id);
                    }
                }
            },
            Step::Complete(done) => {
                let mid = ManagerState { active: state.active.remove(done), ..state };
                if promotes(mid) {
                    assert(next.queued_ids() =~= ids.drop_first());
                    assert(ids[k + 1] == id);
                }
            },
            Step::Cancel(gone) => {
                if !state.active.contains(gone) && state.is_queued(gone) {
                    let at = state.position(gone);
                    assert(next.queued_ids() =~= ids.remove(at));
                    if k < at {
                        assert(ids[k] == id);
                    } else {
                        assert(ids[k + 1] == id);
                    }
                }
            },
            Step::SetLimit(max) => {
                let changed = ManagerState { limit: max, ..state };
                let count = startable(changed) as int;
                assert(next.queued_ids() =~= ids.skip(count));
                assert(ids[k + count] == id);
            },
        }
    }
}

/// A step that the engine accepts leaves its state sound: still no id
/// waits twice, none both runs and waits, and nothing that has ended waits.
pub proof fn lemma_step_keeps_coherent(state: ManagerState, step: Step)
    requires
        state.coherent(),
        admissible(state, step),
    ensures
        after(state, step).coherent(),
{
    let next = after(state, step);
    let ids = state.queued_ids();
    match step {
        Step::Submit(record) => {
            if state.active.len() < state.limit {
                assert forall|i: int| 0 <= i < next.queue.len() implies #[trigger] next.may_wait(
                    next.queue[i],
                ) by {
                    assert(state.may_wait(state.queue[i]));
                    assert(ids[i] == state.queue[i].id@);
                }
            } else {
                assert(next.queued_ids() =~= ids.push(record.id@));
                assert forall|i: int| 0 <= i < next.queue.len() implies #[trigger] next.may_wait(
                    next.queue[i],
                ) by {
                    if i < state.queue.len() {
                        assert(next.queue[i] == state.queue[i]);
                        assert(state.may_wait(state.queue[i]));
                    }
                }
            }
        },
        Step::Complete(done) => {
            let mid = ManagerState { active: state.active.remove(done), ..state };
            if promotes(mid) {
                assert(ids[0] == state.queue.first().id@);
                assert(next.queued_ids() =~= ids.remove(0));
                lemma_remove_to_set(ids, 0);
                assert forall|i: int| 0 <= i < next.queue.len() implies #[trigger] next.may_wait(
                    next.queue[i],
                ) by {
                    assert(next.queue[i] == state.queue[i + 1]);
                    assert(state.may_wait(state.queue[i + 1]));
                    assert(ids[i + 1] == state.queue[i + 1].id@);
                }
            } else {
                assert forall|i: int| 0 <= i < next.queue.len() implies #[trigger] next.may_wait(
                    next.queue[i],
                ) by {
                    assert(state.may_wait(state.queue[i]));
                }
            }
        },
        Step::Cancel(gone) => {
            if !state.active.contains(gone) && state.is_queued(gone) {
                let at = state.position(gone);
                assert(0 <= at < ids.len() && ids[at] == gone);
                assert(next.queued_ids() =~= ids.remove(at));
                lemma_remove_to_set(ids, at);
                assert forall|i: int| 0 <= i < next.queue.len() implies #[trigger] next.may_wait(
                    next.queue[i],
                ) by {
                    if i < at {
                        assert(next.queue[i] == state.queue[i]);
                        assert(state.may_wait(state.queue[i]));
                    } else {
                        assert(next.queue[i] == state.queue[i + 1]);
                        assert(state.may_wait(state.queue[i + 1]));
                    }
                }
            }
        },
        Step::SetLimit(max) => {
            let changed = ManagerState { limit: max, ..state };
            let count = startable(changed) as int;
            assert(next.queued_ids() =~= ids.skip(count));
            assert(ids.take(count).to_set().finite()) by {
                vstd::seq_lib::seq_to_set_is_finite(ids.take(count));
            }
            assert forall|i: int| 0 <= i < next.queue.len() implies #[trigger] next.may_wait(
                next.queue[i],
            ) by {
                assert(next.queue[i] == state.queue[i + count]);
                assert(state.may_wait(state.queue[i + count]));
                assert(ids[i + count] == state.queue[i + count].id@);
                if ids.take(count).to_set().contains(state.queue[i + count].id@) {
                    let k = choose|k: int|
                        0 <= k < ids.take(count).len() && ids.take(count)[k] == state.queue[i
                            + count].id@;
                    assert(ids[k] == ids[i + count]);
                }
            }
        },
    }
}

/// A run of steps that the engine accepts leaves its state sound.
pub proof fn lemma_run_keeps_coherent(start: ManagerState, steps: Seq<Step>)
    requires
        start.coherent(),
        admissible_run(start, steps),
    ensures
        run(start, steps).coherent(),
    decreases steps.len(),
{
    if steps.len() > 0 {
        lemma_run_keeps_coherent(start, steps.drop_last());
        lemma_step_keeps_coherent(run(start, steps.drop_last()), steps.last());
    }
}

/// How two downloads stand to each other once the first waited ahead of
/// the second: the first still waits ahead, or it has left the queue, or
/// the second has left the engine.
pub open spec fn in_order(state: ManagerState, first: Seq<char>, second: Seq<char>) -> bool {
    waits_before(state, first, second) || !state.is_queued(first) || !state.tracks(second)
}

/// The queue is first in, first out over time: of two downloads that wait,
/// the later one never runs while the earlier one still waits, whatever
/// happens in between, as long as neither is submitted anew.
pub proof fn lemma_queue_is_fifo(
    start: ManagerState,
    steps: Seq<Step>,
    first: Seq<char>,
    second: Seq<char>,
)
    requires
        start.coherent(),
        waits_before(start, first, second),
        admissible_run(start, steps),
        forall|k: int|
            0 <= k < steps.len() ==> !submits(#[trigger] steps[k], first) && !submits(
                steps[k],
                second,
            ),
    ensures
        in_order(run(start, steps), first, second),
        run(start, steps).active.contains(second) ==> !run(start, steps).is_queued(first),
        run(start, steps).is_queued(first) && run(start, steps).is_queued(second)
            ==> waits_before(run(start, steps), first, second),
    decreases steps.len(),
{
    let last_state = run(start, steps);
    lemma_run_keeps_coherent(start, steps);
    if steps.len() > 0 {
        let earlier = steps.drop_last();
        let before = run(start, earlier);
        let step = steps.last();
        assert forall|k: int| 0 <= k < earlier.len() implies !submits(
            #[trigger] earlier[k],
            first,
        ) && !submits(earlier[k], second) by {
            assert(earlier[k] == steps[k]);
        }
        lemma_queue_is_fifo(start, earlier, first, second);
        lemma_run_keeps_coherent(start, earlier);
        if waits_before(before, first, second) {
            lemma_queue_order_kept(before, step, first, second);
            if last_state.is_queued(first) && !last_state.is_queued(second) {
                assert(!last_state.tracks(second));
            }
        } else if !before.is_queued(first) {
            lemma_unqueued_stays_out(before, step, first);
        } else {
            lemma_untracked_stays_out(before, step, second);
        }
    }
    if waits_before(last_state, first, second) {
        let (i, j) = choose|i: int, j: int|
            0 <= i < j < last_state.queue.len() && (#[trigger] last_state.queue[i]).id@ == first
                && (#[trigger] last_state.queue[j]).id@ == second;
        assert(last_state.may_wait(last_state.queue[j]));
    }
    if last_state.is_queued(second) && last_state.active.contains(second) {
        let k = last_state.position(second);
        assert(last_state.queued_ids()[k] == last_state.queue[k].id@);
        assert(last_state.may_wait(last_state.queue[k]));
    }
}

/// A download that is submitted while another waits and no place is free
/// takes its place in the queue behind the one that waits.
pub proof fn lemma_later_submission_waits_behind(
    state: ManagerState,
    record: DownloadRecord,
    waiting: Seq<char>,
)
    requires
        state.is_queued(waiting),
        state.active.len() >= state.limit,
        !state.tracks(record.id@),
    ensures
        waits_before(after(state, Step::Submit(record)), waiting, record.id@),
{
    let next = after(state, Step::Submit(record));
    let at = state.position(waiting);
    assert(0 <= at < state.queued_ids().len() && state.queued_ids()[at] == waiting);
    assert(next.queue[at] == state.queue[at]);
    assert(next.queue[state.queue.len() as int] == record.as_queued());
    assert(next.queue[at].id@ == waiting && next.queue[state.queue.len() as int].id@
        == record.id@);
}

} // verus!
