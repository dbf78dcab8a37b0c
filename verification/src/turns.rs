//! What holds of the event loop over several steps: a request and its
//! completion, a wake-up and its poll, a pass over the tasks that have yielded.

use crate::completion::{Cause, Cqe, TaskInfo};
use crate::model::{Phase, PollFrame, RuntimeView, WakeUp};
use crate::runtime::{Dispatch, Step};
use crate::sqe::Sqe;
use crate::task_slab::SlabIdx;
use crate::user_data::UserDataPayload;
use vstd::prelude::*;

verus! {

impl<F> RuntimeView<F> {
    /// The task in progress knows the number of the system call it waits for.
    pub open spec fn in_step(self) -> bool {
        self.polling() ==> self.current().tag.syscall_nb == self.task(
            self.current_idx(),
        ).syscall_nb
    }

    /// The tasks that the pass in progress over the yielded ones has still to
    /// poll, in order.
    pub open spec fn due(self) -> Seq<SlabIdx> {
        match self.phase {
            Phase::Yield { left } => self.yields.take(left as int),
            _ => Seq::empty(),
        }
    }
}

/// Every poll starts with the number its task waits for, whatever it was that
/// brought the poll about.
pub proof fn law_polls_start_in_step<F>(v: RuntimeView<F>, cqe: Cqe)
    requires
        v.wf(),
        !v.polling(),
    ensures
        v.stepped().in_step(),
        v.accepts(cqe) ==> v.dispatched(cqe).in_step(),
{
}

/// A new task starts with the number it waits for, and when its poll is over the
/// poll that it had interrupted is taken up again as it was.
pub proof fn law_spawn_nests<F>(v: RuntimeView<F>, future: F, left: F, done: bool)
    requires
        v.wf(),
        v.has_room(),
    ensures
        ({
            let k = v.slab.next_slot();
            let w = v.registered(future).poll_begun(
                k,
                PollFrame {
                    info: TaskInfo::without_cqe(SlabIdx(k), 0, i32::MAX, Cause::Start),
                    release: true,
                },
            );
            &&& w.wf()
            &&& w.in_step()
            &&& w.current_idx() == k
            &&& w.poll_ended(left, done).wf()
            &&& w.poll_ended(left, done).polls == v.polls
            &&& forall|j: u32| #[trigger]
                v.live(j) ==> w.poll_ended(left, done).task(j) == v.task(j)
        }),
{
    let k = v.slab.next_slot();
    let frame = PollFrame {
        info: TaskInfo::without_cqe(SlabIdx(k), 0, i32::MAX, Cause::Start),
        release: true,
    };
    crate::model::law_register(v, future);
    crate::task_slab::law_insert(
        v.slab,
        crate::task::TaskView {
            slab_idx: Some(SlabIdx(k)),
            ..crate::task::TaskView::fresh(future)
        },
    );
    crate::model::law_begin_poll(v.registered(future), k, frame);
    let w = v.registered(future).poll_begun(k, frame);
    crate::model::law_end_poll(w, left, done);
    assert(w.poll_ended(left, done).polls =~= v.polls);
}

/// A completion with the number its task waits for polls the task, once for
/// every completion of a request that completes more than once. The task sees
/// the result, the flags and the position that the request carried. The reference
/// of the request goes with its last completion, and not before the poll is over.
pub proof fn law_awaited_completion_polls<F>(
    v: RuntimeView<F>,
    payload: UserDataPayload,
    future: F,
    cqe: Cqe,
    left: F,
    done: bool,
)
    requires
        v.wf(),
        !v.polling(),
        v.held_outside(payload.task_idx.0),
        v.task(payload.task_idx.0).future == Some(future),
        !v.task(payload.task_idx.0).done,
        !v.waits(cqe),
        v.task(payload.task_idx.0).syscall_nb == payload.syscall_nb,
        cqe.user_data == crate::user_data::pack(payload),
    ensures
        ({
            let k = payload.task_idx.0;
            let x = v.dispatched(cqe);
            &&& v.accepts(cqe)
            &&& v.dispatch_outcome(cqe) == Dispatch::Poll(future)
            &&& x.wf()
            &&& x.polling()
            &&& x.current_idx() == k
            &&& x.current().result == cqe.result
            &&& x.current().flags == cqe.flags
            &&& x.current().response_gen == payload.response_gen
            &&& x.current().cause == Cause::Completion
            &&& x.in_step()
            &&& x.task(k).rc == v.task(k).rc
            &&& x.task(k).syscall_nb == (if crate::task::is_multiple(payload.syscall_nb) {
                payload.syscall_nb as int
            } else {
                payload.syscall_nb + 1
            })
            &&& x.poll_ended(left, done).wf()
            &&& !x.poll_ended(left, done).polling()
            &&& x.poll_ended(left, done).task(k).rc == v.task(k).rc - (
            if crate::completion::more_to_come(cqe.flags) {
                0int
            } else {
                1
            })
        }),
{
    let k = payload.task_idx.0;
    assert(v.slot_ok(k));
    assert(v.slab.tasks.contains_key(k));
    crate::user_data::law_user_data_round_trip(payload, cqe.user_data);
    crate::user_data::law_task_word_is_not_internal(payload);
    crate::model::law_dispatch(v, cqe);
    let x = v.dispatched(cqe);
    crate::model::law_end_poll(x, left, done);
}

/// A completion with any other number than the one its task waits for polls
/// nothing, be it older, newer, or different in its mark alone. All it does is give
/// the reference of its request back, if it is the last one of it.
pub proof fn law_mismatch_is_ignored<F>(v: RuntimeView<F>, cqe: Cqe)
    requires
        v.wf(),
        !v.polling(),
        v.accepts(cqe),
        !v.waits(cqe),
        !crate::user_data::is_internal(cqe.user_data),
        crate::user_data::unpack(cqe.user_data).syscall_nb != v.task(
            crate::user_data::unpack(cqe.user_data).task_idx.0,
        ).syscall_nb,
    ensures
        ({
            let k = crate::user_data::unpack(cqe.user_data).task_idx.0;
            let x = v.dispatched(cqe);
            &&& v.dispatch_outcome(cqe) !is Poll
            &&& !x.polling()
            &&& crate::completion::more_to_come(cqe.flags) ==> x == v
            &&& !crate::completion::more_to_come(cqe.flags) ==> x == v.released(k)
                && x.task(k).rc == v.task(k).rc - 1
        }),
{
    let k = crate::user_data::unpack(cqe.user_data).task_idx.0;
    if !crate::completion::more_to_come(cqe.flags) {
        crate::model::law_release(v, k);
    }
}

/// A completion touches no task but the one its word names, and never the ring
/// through which read slots are lent.
pub proof fn law_completion_spares_other_tasks<F>(v: RuntimeView<F>, cqe: Cqe, j: u32)
    requires
        v.wf(),
        !v.polling(),
        v.accepts(cqe),
        v.live(j),
        j != crate::user_data::unpack(cqe.user_data).task_idx.0,
    ensures
        v.dispatched(cqe).live(j),
        v.dispatched(cqe).task(j) == v.task(j),
        v.dispatched(cqe).ring == v.ring,
        v.dispatched(cqe).polling() ==> v.dispatched(cqe).current_idx() != j,
{
}

/// The completion of a write that a task did not wait for gives one reference to
/// the slot back and touches nothing else. Any other internal completion touches
/// nothing at all.
pub proof fn law_internal_completion<F>(v: RuntimeView<F>, cqe: Cqe, abs_idx: u32)
    ensures
        cqe.user_data == crate::user_data::INTERNAL_FLAG + abs_idx ==> v.dispatched(cqe) == (
        RuntimeView { pool: v.pool.released(abs_idx), ..v }),
        cqe.user_data >= crate::user_data::RWBUF_WRITE_UDATA ==> v.dispatched(cqe) == v,
{
}

/// The completion of a request finds the task that made it: the task is still
/// there, its future is polled, it sees the result, and it has moved on to its
/// next number. When that poll is over, the reference of the request is gone.
pub proof fn law_completion_reaches_its_task<F>(
    v: RuntimeView<F>,
    sqe: Sqe,
    future: F,
    cqe: Cqe,
    left: F,
    done: bool,
)
    requires
        v.wf(),
        v.may_submit(1),
        v.polls.len() == 1,
        v.in_step(),
        !v.waits(cqe),
        !crate::task::is_multiple(v.current().tag.syscall_nb),
        cqe.user_data == v.current_udata(false, 0),
        !crate::completion::more_to_come(cqe.flags),
    ensures
        ({
            let k = v.current_idx();
            let w = v.submitted(sqe, false).poll_ended(future, false);
            let x = w.dispatched(cqe);
            &&& w.accepts(cqe)
            &&& w.compared(cqe) is Normal
            &&& w.dispatch_outcome(cqe) == Dispatch::Poll(future)
            &&& x.wf()
            &&& x.polling()
            &&& x.current_idx() == k
            &&& x.current().result == cqe.result
            &&& x.current().flags == cqe.flags
            &&& x.in_step()
            &&& x.task(k).syscall_nb == v.task(k).syscall_nb + 1
            &&& x.poll_ended(left, done).task(k).rc == w.task(k).rc - 1
        }),
{
    let k = v.current_idx();
    let s = v.submitted(sqe, false);
    let w = s.poll_ended(future, false);
    crate::model::law_polled_task_is_held(v);
    crate::model::law_submit(v, sqe, false);
    crate::model::law_end_poll(s, future, false);
    assert(w.polls =~= Seq::empty());
    assert(s.polls =~= w.polls.push(s.polls.last()));
    crate::refs::lemma_count_push(w.polls, s.polls.last(), k);
    let payload = UserDataPayload {
        task_idx: v.current().tag.task_idx,
        response_gen: 0,
        syscall_nb: v.current().tag.syscall_nb,
    };
    law_awaited_completion_polls(w, payload, future, cqe, left, done);
}

/// As long as a task is woken, the loop polls woken tasks; so a chain of wake-ups
/// is worked off before the loop goes on, however long it becomes.
pub proof fn law_wakes_are_drained<F>(v: RuntimeView<F>)
    requires
        v.phase is Wake,
    ensures
        v.wakes.len() > 0 ==> v.stepped().phase is Wake && v.stepped().wakes == v.wakes.skip(1),
        v.stepped().phase !is Wake ==> {
            &&& v.wakes.len() == 0
            &&& v.stepped().wakes.len() == 0
            &&& !v.has_ready()
        },
{
}

/// The loop waits in the kernel only if no task is woken, none has yielded, and no
/// postponed completion can be taken in.
pub proof fn law_no_wait_while_tasks_can_run<F>(v: RuntimeView<F>, step: Step<F>)
    requires
        crate::runtime::step_fits(v, step),
        step is Submit,
    ensures
        v.phase is Enter,
        step->wait ==> v.wakes.len() == 0 && v.yields.len() == 0 && !v.has_ready(),
{
}

/// A wake-up polls its task with the result it carries. The reference that the
/// waker held stays counted while the task waits on the list and while it is
/// polled, and goes when the poll is over.
pub proof fn law_wake_up_is_delivered<F>(v: RuntimeView<F>, future: F, left: F, done: bool)
    requires
        v.wf(),
        !v.polling(),
        v.phase is Wake,
        v.wakes.len() > 0,
        v.task(v.wakes[0].task_idx.0).future == Some(future),
        !v.task(v.wakes[0].task_idx.0).done,
    ensures
        ({
            let k = v.wakes[0].task_idx.0;
            let x = v.stepped();
            &&& crate::runtime::step_fits(v, Step::Poll(future))
            &&& x.current_idx() == k
            &&& x.current().result == v.wakes[0].result
            &&& x.current().cause == v.wakes[0].cause
            &&& x.in_step()
            &&& x.task(k).rc == v.task(k).rc
            &&& x.poll_ended(left, done).wf()
            &&& x.poll_ended(left, done).task(k).rc == v.task(k).rc - 1
        }),
{
    let k = v.wakes[0].task_idx.0;
    crate::model::lemma_wake_taken(v);
    crate::model::law_resume(v.wake_taken(), k, v.wake_info(v.wakes[0]), true);
    crate::model::law_end_poll(v.stepped(), left, done);
}

/// A waker holds a reference of its own: whether it is used or given up, the
/// references that were there before are all that is left in the end.
pub proof fn law_waker_is_balanced<F>(v: RuntimeView<F>)
    requires
        v.wf(),
        v.may_submit(1),
    ensures
        v.retained(v.current_idx()).held_outside(v.current_idx()),
        v.retained(v.current_idx()).released(v.current_idx()) == v,
{
    let k = v.current_idx();
    crate::model::law_polled_task_is_held(v);
    crate::model::law_retain(v, k);
    assert(v.retained(k).released(k).slab.tasks =~= v.slab.tasks);
}

/// A pass over the yielded tasks is a snapshot: it polls the tasks that had
/// yielded when it began, each as often as it had yielded, and in that order. A
/// task that yields meanwhile waits for the next turn.
pub proof fn law_yield_pass_is_a_snapshot<F>(v: RuntimeView<F>, idx: SlabIdx)
    requires
        v.wf(),
        v.yields.len() <= usize::MAX,
    ensures
        v.phase is Wake && v.stepped().phase is Yield ==> v.stepped().due() == v.yields,
        v.phase is Yield ==> {
            &&& (RuntimeView { yields: v.yields.push(idx), ..v }).due() == v.due()
            &&& v.due().len() > 0 ==> {
                &&& v.step_outcome() == Some(v.resume_outcome(v.due()[0].0, true))
                &&& v.stepped().due() == v.due().skip(1)
            }
            &&& v.due().len() == 0 ==> v.step_outcome() is None && v.stepped().phase is Enter
                && v.stepped().yields == v.yields
        },
{
    if v.phase is Wake && v.stepped().phase is Yield {
        assert(v.stepped().due() =~= v.yields);
    }
    if v.phase is Yield {
        assert((RuntimeView { yields: v.yields.push(idx), ..v }).due() =~= v.due());
        if v.due().len() > 0 {
            assert(v.stepped().due() =~= v.due().skip(1));
        }
    }
}

/// The loop is done exactly if no task has a reference left.
pub proof fn law_done_when_no_task_is_referred_to<F>(v: RuntimeView<F>, step: Step<F>)
    requires
        v.wf(),
        v.phase is Enter,
        crate::runtime::step_fits(v, step),
    ensures
        step is Done <==> forall|k: u32| #[trigger] v.live(k) ==> v.task(k).rc == 0,
{
    crate::model::law_sweep(v);
    let w = v.swept();
    crate::task_slab::law_slots_add_up(w.slab);
    if w.idle() {
        assert(w.slab.tasks.dom() =~= Set::empty());
        assert forall|k: u32| #[trigger] v.live(k) implies v.task(k).rc == 0 by {
            assert(!w.live(k));
        }
    } else if forall|k: u32| #[trigger] v.live(k) ==> v.task(k).rc == 0 {
        assert forall|k: u32| !w.slab.tasks.dom().contains(k) by {
            assert(!w.live(k));
        }
        assert(w.slab.tasks.dom() =~= Set::empty());
    }
}

/// A task that waits for something stays: as long as one reference is left that
/// is not the runtime's own, no sweep removes the task.
pub proof fn law_awaited_task_is_kept<F>(v: RuntimeView<F>, k: u32)
    requires
        v.wf(),
        v.held_outside(k),
    ensures
        v.swept().live(k),
        v.swept().held_outside(k),
        v.swept().task(k) == v.task(k),
{
    crate::model::law_sweep(v);
    assert(v.swept().live(k));
}

/// A completion for a task that waits for a committed answer to be written, or to
/// be polled for its end, is kept, and nothing else changes.
pub proof fn law_completion_waits_for_the_write<F>(v: RuntimeView<F>, cqe: Cqe)
    requires
        v.waits(cqe),
    ensures
        v.dispatch_outcome(cqe) is Handled,
        v.dispatched(cqe) == (RuntimeView { postponed: v.postponed.push(cqe), ..v }),
{
}

/// A completion that was kept is taken in once its task is free again, before the
/// loop goes on, and just as if it had come then. Those of one task are taken in
/// in the order in which they came.
pub proof fn law_kept_completion_is_taken_in<F>(v: RuntimeView<F>)
    requires
        v.wf(),
        !v.polling(),
        v.phase is Wake,
        v.wakes.len() == 0,
        v.has_ready(),
        v.accepts(v.ready()),
    ensures
        v.postponed.contains(v.ready()),
        !v.on_hold(v.ready()),
        v.stepped() == v.ready_taken().handled(v.ready()),
        v.step_outcome() == Some(v.ready_taken().handle_outcome(v.ready())),
        v.stepped().phase is Wake,
        forall|j: int|
            0 <= j < v.ready_from(0) ==> crate::user_data::unpack(
                (#[trigger] v.postponed[j]).user_data,
            ).task_idx != crate::user_data::unpack(v.ready().user_data).task_idx
                || crate::user_data::is_internal(v.ready().user_data),
{
    crate::model::lemma_ready_from(v, 0);
    assert(v.postponed[v.ready_from(0)] == v.ready());
}

} // verus!
