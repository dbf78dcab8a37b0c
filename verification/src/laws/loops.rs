//! Tasks, wakers and the event loop.

use crate::buf_pool::{PoolView, RwBuffer, WBuffer};
use crate::calls::accept::AcceptStream;
use crate::calls::read::{read_stream, ReadStream};
use crate::completion::{Cause, Cqe, TaskInfo};
use crate::model::{Phase, RuntimeView};
use crate::runtime::{block_on, submission_failed, Dispatch, Runtime, Step, Waker, WriteTicket};
use crate::sqe::Sqe;
use crate::stream::{Next, Progress, Stream, StreamExt};
use crate::task::TaskView;
use crate::task_slab::SlabIdx;
use vstd::prelude::*;

verus! {

/// A task that holds `future` has been taken in, in slot `k`: the first free one, or the first
/// that is new after the slots were doubled. No other task has changed, nor anything else.
pub open spec fn taken_in<F>(v: RuntimeView<F>, w: RuntimeView<F>, future: F, k: u32) -> bool {
    &&& !v.slab.tasks.contains_key(k)
    &&& w == (RuntimeView { slab: w.slab, ..v })
    &&& w.slab.tasks == v.slab.tasks.insert(
        k,
        TaskView {
            future: Some(future),
            done: false,
            rc: 1,
            syscall_nb: 0,
            writes: 0,
            slab_idx: Some(SlabIdx(k)),
        },
    )
    &&& v.slab.free.len() > 0 ==> {
        &&& k == v.slab.free[0]
        &&& w.slab.len == v.slab.len
        &&& w.slab.free == v.slab.free.subrange(1, v.slab.free.len() as int)
    }
    &&& v.slab.free.len() == 0 ==> {
        &&& k == v.slab.len
        &&& w.slab.len == 2 * v.slab.len
        &&& w.slab.free.len() == v.slab.len - 1
        &&& forall|i: int| 0 <= i < w.slab.free.len() ==> #[trigger] w.slab.free[i] == k + 1 + i
    }
}

proof fn lemma_taken_in<F>(v: RuntimeView<F>, future: F)
    requires
        v.wf(),
        v.has_room(),
    ensures
        taken_in(v, v.registered(future), future, v.slab.next_slot()),
{
    crate::model::law_register(v, future);
    assert(v.registered(future).slab.free.len() >= 0);
    if v.slab.free.len() == 0 {
        assert(v.slab.len <= 0x4000_0000);
    }
}

/// The first poll of task `k` has begun: its future is out, and it knows that it starts.
pub open spec fn started<F>(v: RuntimeView<F>, w: RuntimeView<F>, k: u32) -> bool {
    let t = v.slab.tasks[k];
    let n = v.polls.len() as int;
    &&& w.polls.len() == n + 1
    &&& forall|i: int| 0 <= i < n ==> #[trigger] w.polls[i] == v.polls[i]
    &&& crate::laws::plain_info(k, 0, i32::MAX, Cause::Start, w.polls[n].info)
    &&& w.polls[n].release
    &&& w == (RuntimeView {
        polls: w.polls,
        ..crate::laws::with_record(v, k, TaskView { future: None, ..t })
    })
}

/// A task is taken in with one reference, in a slot of its own.
pub proof fn law_task_is_taken_in<F>(rt: &mut Runtime<F>, future: F, idx: SlabIdx)
    requires
        old(rt).wf(),
        old(rt)@.has_room(),
        call_ensures(Runtime::<F>::register_future, (rt, future), idx),
    ensures
        taken_in(old(rt)@, final(rt)@, future, idx.0),
{
    lemma_taken_in(old(rt)@, future);
}

/// The first poll of a task hands its future out.
pub proof fn law_first_poll<F>(rt: &mut Runtime<F>, idx: SlabIdx, future: F)
    requires
        call_ensures(Runtime::<F>::begin_initial_poll, (rt, idx), future),
    ensures
        old(rt)@.slab.tasks[idx.0].future == Some(future),
        started(old(rt)@, final(rt)@, idx.0),
{
}

/// A spawned task is taken in and its first poll begins, with the future that was given; and
/// so it is with the first task of the loop, which starts a turn.
pub proof fn law_spawn<F>(
    a: &mut Runtime<F>,
    future: F,
    first: F,
    b: &mut Runtime<F>,
    other: F,
    second: F,
)
    requires
        old(a).wf(),
        old(a)@.has_room(),
        call_ensures(Runtime::<F>::spawn, (a, future), first),
        old(b).wf(),
        old(b)@.has_room(),
        call_ensures(block_on::<F>, (b, other), second),
    ensures
        first == future,
        exists|m: RuntimeView<F>, k: u32|
            taken_in(old(a)@, m, future, k) && #[trigger] started(m, final(a)@, k),
        second == other,
        exists|m: RuntimeView<F>, k: u32|
            taken_in((RuntimeView { phase: Phase::Wake, ..old(b)@ }), m, other, k)
                && #[trigger] started(m, final(b)@, k),
{
    let v = old(a)@;
    lemma_taken_in(v, future);
    assert(started(v.registered(future), final(a)@, v.slab.next_slot()));
    let u = RuntimeView { phase: Phase::Wake, ..old(b)@ };
    crate::model::lemma_same_slots(old(b)@, u);
    lemma_taken_in(u, other);
    assert(started(u.registered(other), final(b)@, u.slab.next_slot()));
}

/// When a poll ends, its future is back, with the word on whether it has completed, and the
/// poll around it, if any, is taken up again as it was. The reference of the poll goes, if the
/// poll has one; exactly with the last one the future is handed out to be dropped.
pub proof fn law_poll_ends<F>(rt: &mut Runtime<F>, future: F, done: bool, dropped: Option<F>)
    requires
        old(rt).wf(),
        old(rt)@.polls.len() > 0,
        call_ensures(Runtime::<F>::end_poll, (rt, future, done), dropped),
    ensures
        ({
            let v = old(rt)@;
            let k = crate::laws::me(v);
            let t = v.slab.tasks[k];
            let n = v.polls.len() - 1;
            let back = RuntimeView {
                polls: v.polls.subrange(0, n),
                ..crate::laws::with_record(v, k, TaskView { future: Some(future), done, ..t })
            };
            if v.polls[n].release {
                &&& t.rc == 1 ==> dropped == Some(future)
                &&& t.rc > 1 ==> dropped is None
                &&& final(rt)@ == crate::laws::one_less(back, k)
            } else {
                &&& dropped is None
                &&& final(rt)@ == back
            }
        }),
{
    let v = old(rt)@;
    crate::model::law_polled_task_is_held(v);
    let back = v.future_returned(future, done);
    crate::laws::lemma_released(back, crate::laws::me(v));
}

/// What the task in progress is told is what its poll was begun with.
pub proof fn law_task_in_progress<F>(
    rt: &Runtime<F>,
    polling: bool,
    info: TaskInfo,
    result: i32,
    flags: u32,
    completion: bool,
    buf_idx: u32,
    written: bool,
)
    requires
        call_ensures(Runtime::<F>::is_polling, (rt,), polling),
        call_ensures(Runtime::<F>::current_task, (rt,), info),
        call_ensures(Runtime::<F>::current_result, (rt,), result),
        call_ensures(Runtime::<F>::current_cqe_flags, (rt,), flags),
        call_ensures(Runtime::<F>::is_completion, (rt,), completion),
        call_ensures(Runtime::<F>::is_written, (rt, buf_idx), written),
    ensures
        polling <==> rt@.polls.len() > 0,
        info == rt@.polls[rt@.polls.len() - 1].info,
        result == info.result,
        flags == info.flags,
        completion <==> info.cause == Cause::Completion,
        written <==> info.cause == Cause::Written(buf_idx),
{
}

/// What is asked about tasks is answered from the slab and the counts.
pub proof fn law_room_and_references<F>(
    rt: &Runtime<F>,
    count: u32,
    room: bool,
    n: usize,
    can: bool,
)
    requires
        rt.wf(),
        call_ensures(Runtime::<F>::count, (rt,), count),
        call_ensures(Runtime::<F>::has_room, (rt,), room),
        call_ensures(Runtime::<F>::can_submit, (rt, n), can),
    ensures
        count + rt@.slab.free.len() == rt@.slab.len,
        room <==> rt@.slab.free.len() > 0 || rt@.slab.len <= 0x4000_0000,
        can <==> rt@.polls.len() > 0 && rt@.slab.tasks[crate::laws::me(rt@)].rc + n <= 0xFFFF,
{
    crate::task_slab::law_slots_add_up(rt@.slab);
}

/// A waker of the task in progress adds one reference to it. Used, it puts one wake-up with its
/// result behind all others; given up, it takes its reference back.
pub proof fn law_wakers<F>(
    a: &mut Runtime<F>,
    waker: Waker,
    b: &mut Runtime<F>,
    used: Waker,
    result: i32,
    c: &mut Runtime<F>,
    unused: Waker,
    dropped: Option<F>,
)
    requires
        old(a).wf(),
        crate::laws::requests::can_ask(old(a)@),
        call_ensures(Runtime::<F>::waker, (a,), waker),
        call_ensures(Runtime::<F>::wake, (b, used, result), ()),
        old(c).wf(),
        old(c)@.held_outside(unused@),
        call_ensures(Runtime::<F>::drop_waker, (c, unused), dropped),
    ensures
        ({
            let t = old(a)@.slab.tasks[crate::laws::me(old(a)@)];
            &&& waker@ == crate::laws::me(old(a)@)
            &&& final(a)@ == crate::laws::with_record(
                old(a)@,
                waker@,
                TaskView { rc: (t.rc + 1) as u16, ..t },
            )
        }),
        ({
            let n = old(b)@.wakes.len() as int;
            let w = final(b)@;
            &&& w == (RuntimeView { wakes: w.wakes, ..old(b)@ })
            &&& w.wakes.len() == n + 1
            &&& forall|i: int| 0 <= i < n ==> #[trigger] w.wakes[i] == old(b)@.wakes[i]
            &&& w.wakes[n].task_idx.0 == used@
            &&& w.wakes[n].result == result
            &&& w.wakes[n].cause == Cause::Woken
        }),
        final(c)@ == crate::laws::one_less(old(c)@, unused@),
        old(c)@.slab.tasks[unused@].rc == 1 ==> dropped == old(c)@.slab.tasks[unused@].future,
        old(c)@.slab.tasks[unused@].rc > 1 ==> dropped is None,
{
    crate::laws::lemma_released(old(c)@, unused@);
}

/// A task that yields gets one reference more, and stands once more at the end of the list.
pub proof fn law_yield<F>(rt: &mut Runtime<F>)
    requires
        old(rt).wf(),
        crate::laws::requests::can_ask(old(rt)@),
        call_ensures(Runtime::<F>::yield_now, (rt,), ()),
    ensures
        ({
            let v = old(rt)@;
            let k = crate::laws::me(v);
            let t = v.slab.tasks[k];
            final(rt)@ == (RuntimeView {
                yields: v.yields.push(SlabIdx(k)),
                ..crate::laws::with_record(v, k, TaskView { rc: (t.rc + 1) as u16, ..t })
            })
        }),
{
}

/// A write that begins counts for the task in progress, with a reference; one that is given up
/// takes both back.
pub proof fn law_write_begins_or_is_given_up<F>(
    a: &mut Runtime<F>,
    buf_idx: u32,
    ticket: WriteTicket,
    b: &mut Runtime<F>,
    other: WriteTicket,
    dropped: Option<F>,
    writing: bool,
)
    requires
        old(a).wf(),
        crate::laws::requests::can_ask(old(a)@),
        call_ensures(Runtime::<F>::begin_write, (a, buf_idx), ticket),
        old(b).wf(),
        old(b)@.writing(other@.task),
        call_ensures(Runtime::<F>::is_writing, (&*old(b), &other), writing),
        call_ensures(Runtime::<F>::drop_write, (b, other), dropped),
    ensures
        ({
            let v = old(a)@;
            let t = v.slab.tasks[crate::laws::me(v)];
            &&& ticket@.task == crate::laws::me(v)
            &&& ticket@.buf_idx == buf_idx
            &&& t.writes < 0xFFFF
            &&& final(a)@ == crate::laws::with_record(
                v,
                ticket@.task,
                TaskView { rc: (t.rc + 1) as u16, writes: (t.writes + 1) as u16, ..t },
            )
        }),
        ({
            let v = old(b)@;
            let t = v.slab.tasks[other@.task];
            &&& writing
            &&& t.rc == 1 ==> dropped == t.future
            &&& t.rc > 1 ==> dropped is None
            &&& final(b)@ == crate::laws::one_less(
                crate::laws::with_record(
                    v,
                    other@.task,
                    TaskView { writes: (t.writes - 1) as u16, ..t },
                ),
                other@.task,
            )
        }),
{
    crate::model::law_polled_task_is_held(old(a)@);
    assert(old(a)@.slot_ok(crate::laws::me(old(a)@)));
    assert(old(b)@.slot_ok(other@.task));
    crate::laws::lemma_released(old(b)@.write_dropped(other@.task), other@.task);
}

/// A request of no task is queued last, and a write slot is handed out as the pool does it;
/// nothing else changes.
pub proof fn law_queue_and_pool<F>(
    a: &mut Runtime<F>,
    sqe: Sqe,
    b: &mut Runtime<F>,
    buf: WBuffer<1>,
)
    requires
        call_ensures(Runtime::<F>::sqe_queue_push, (a, sqe), ()),
        old(b).wf(),
        old(b)@.pool.free.len() > 0,
        call_ensures(Runtime::<F>::alloc_write_buffer, (b,), buf),
    ensures
        final(a)@ == (RuntimeView { pending: old(a)@.pending.push(sqe), ..old(a)@ }),
        buf@ == old(b)@.pool.free[0],
        final(b)@ == (RuntimeView {
            pool: PoolView {
                free: old(b)@.pool.free.subrange(1, old(b)@.pool.free.len() as int),
                rc: old(b)@.pool.rc.update(buf@ - old(b)@.pool.read_count, 1),
                ..old(b)@.pool
            },
            ..old(b)@
        }),
{
}

/// What running task `k` asks for: to poll its future; or, if that has completed and `release`
/// takes the last reference, to drop it; or nothing.
pub open spec fn asks<F>(v: RuntimeView<F>, k: u32, release: bool, step: Step<F>) -> bool {
    let t = v.slab.tasks[k];
    if !t.done {
        step == Step::Poll(t.future->0)
    } else if release && t.rc == 1 {
        step == Step::Drop(t.future->0)
    } else {
        step == Step::<F>::Continue
    }
}

/// As long as tasks are woken, a step takes the first of them off the list and runs it, with the
/// result and the cause that it was woken with.
pub proof fn law_step_runs_the_woken<F>(rt: &mut Runtime<F>, step: Step<F>)
    requires
        old(rt).wf(),
        old(rt)@.polls.len() == 0,
        old(rt)@.phase is Wake,
        old(rt)@.wakes.len() > 0,
        call_ensures(Runtime::<F>::step, (rt,), step),
    ensures
        ({
            let v = old(rt)@;
            let first = v.wakes[0];
            let k = first.task_idx.0;
            let taken = RuntimeView { wakes: v.wakes.subrange(1, v.wakes.len() as int), ..v };
            &&& v.slab.tasks.contains_key(k)
            &&& asks(v, k, true, step)
            &&& exists|info: TaskInfo|
                crate::laws::plain_info(
                    k,
                    v.slab.tasks[k].syscall_nb,
                    first.result,
                    first.cause,
                    info,
                ) && #[trigger] crate::laws::runs(taken, final(rt)@, k, info, true)
        }),
{
    let v = old(rt)@;
    let k = v.wakes[0].task_idx.0;
    crate::model::lemma_wake_taken(v);
    assert(v.slot_ok(k));
    assert(v.wake_taken().slot_ok(k));
    crate::laws::lemma_released(v.wake_taken(), k);
    assert(crate::laws::runs(v.wake_taken(), final(rt)@, k, v.wake_info(v.wakes[0]), true));
    assert(v.wake_taken().wakes == v.wakes.subrange(1, v.wakes.len() as int));
}

/// When no task is woken, a step takes in the first of the kept completions whose task has no
/// answer being written; if there is none, it goes on to the tasks that have yielded.
pub proof fn law_step_takes_in_the_kept<F>(rt: &mut Runtime<F>, step: Step<F>, i: int)
    requires
        old(rt).wf(),
        old(rt)@.polls.len() == 0,
        old(rt)@.phase is Wake,
        old(rt)@.wakes.len() == 0,
        old(rt)@.yields.len() <= usize::MAX,
        0 <= i <= old(rt)@.postponed.len(),
        forall|j: int| 0 <= j < i ==> crate::laws::busy(old(rt)@, #[trigger] old(rt)@.postponed[j]),
        i < old(rt)@.postponed.len() ==> !crate::laws::busy(old(rt)@, old(rt)@.postponed[i]),
        call_ensures(Runtime::<F>::step, (rt,), step),
    ensures
        ({
            let v = old(rt)@;
            let w = final(rt)@;
            if i == v.postponed.len() {
                &&& step is Continue
                &&& w == (RuntimeView { phase: w.phase, ..v })
                &&& w.phase matches Phase::Yield { left } && left == v.yields.len()
            } else {
                let cqe = v.postponed[i];
                let taken = RuntimeView { postponed: v.postponed.remove(i), ..v };
                if v.accepts(cqe) {
                    &&& crate::laws::took(taken, w, cqe)
                    &&& answers(v, cqe, step)
                } else {
                    w == taken && step is Continue
                }
            }
        }),
{
    let v = old(rt)@;
    assert forall|c: Cqe| crate::laws::busy(v, c) <==> #[trigger] v.on_hold(c) by {
        crate::laws::lemma_busy(v, c);
    }
    crate::model::lemma_ready_from(v, 0);
    assert(v.ready_from(0) == i) by {
        if v.ready_from(0) < i {
            assert(v.on_hold(v.postponed[v.ready_from(0)]));
        }
        if v.ready_from(0) > i {
            assert(v.on_hold(v.postponed[i]));
        }
    }
    if i < v.postponed.len() && v.accepts(v.ready()) {
        let taken = v.ready_taken();
        crate::model::lemma_same_slots(v, taken);
        assert(taken.accepts(v.ready()));
        crate::laws::lemma_took(taken, v.ready());
        lemma_answers(v, v.ready(), step);
    }
}

/// What a completion that is taken in asks for.
pub open spec fn answers<F>(v: RuntimeView<F>, cqe: Cqe, step: Step<F>) -> bool {
    let k = crate::laws::whose(cqe);
    let t = v.slab.tasks[k];
    let last = cqe.flags & 2 == 0;
    if cqe.user_data >> 63 == 1 {
        step == Step::<F>::Continue
    } else if ((cqe.user_data >> 16) & 0xFFFF) as u16 == t.syscall_nb {
        asks(v, k, last, step)
    } else if last && t.rc == 1 {
        step == Step::Drop(t.future->0)
    } else {
        step == Step::<F>::Continue
    }
}

proof fn lemma_answers<F>(v: RuntimeView<F>, cqe: Cqe, step: Step<F>)
    requires
        v.wf(),
        v.polls.len() == 0,
        v.accepts(cqe),
        step == crate::runtime::step_of(v.handle_outcome(cqe)),
    ensures
        answers(v, cqe, step),
{
    crate::laws::lemma_whose(cqe);
    assert(v.slot_ok(crate::laws::whose(cqe)));
    crate::laws::lemma_marks(v.slab.tasks[crate::laws::whose(cqe)].syscall_nb);
}

/// In the pass over the yielded tasks a step takes the first of those that are left off the list
/// and runs it; when none is left, the loop goes on to enter the kernel.
pub proof fn law_step_runs_the_yielded<F>(rt: &mut Runtime<F>, step: Step<F>, left: usize)
    requires
        old(rt).wf(),
        old(rt)@.polls.len() == 0,
        old(rt)@.phase == (Phase::Yield { left }),
        call_ensures(Runtime::<F>::step, (rt,), step),
    ensures
        ({
            let v = old(rt)@;
            let w = final(rt)@;
            if left == 0 {
                step is Continue && w == (RuntimeView { phase: Phase::Enter, ..v })
            } else {
                let k = v.yields[0].0;
                let taken = RuntimeView {
                    yields: v.yields.subrange(1, v.yields.len() as int),
                    phase: Phase::Yield { left: (left - 1) as usize },
                    ..v
                };
                &&& v.slab.tasks.contains_key(k)
                &&& asks(v, k, true, step)
                &&& exists|info: TaskInfo|
                    crate::laws::plain_info(
                        k,
                        v.slab.tasks[k].syscall_nb,
                        0,
                        Cause::Yielded,
                        info,
                    ) && #[trigger] crate::laws::runs(taken, w, k, info, true)
            }
        }),
{
    let v = old(rt)@;
    if left > 0 {
        let k = v.yields[0].0;
        crate::model::lemma_yield_taken(v, left);
        assert(v.slot_ok(k));
        assert(v.yield_taken(left).slot_ok(k));
        crate::laws::lemma_released(v.yield_taken(left), k);
        assert(crate::laws::runs(
            v.yield_taken(left),
            final(rt)@,
            k,
            v.yield_info(v.yields[0]),
            true,
        ));
        assert(v.yield_taken(left).yields == v.yields.subrange(1, v.yields.len() as int));
    }
}

/// A step that enters the kernel removes the tasks without a reference, in the order in which they
/// have lost it, and starts the next turn. If no task is left, the loop is done. Else it hands out
/// every request that was queued, each once and in order, and none stays behind; and it waits
/// exactly if nothing could run: no task is woken, none has yielded, and the task of every
/// completion that is kept has an answer being written.
pub proof fn law_step_enters_the_kernel<F>(rt: &mut Runtime<F>, step: Step<F>)
    requires
        old(rt).wf(),
        old(rt)@.polls.len() == 0,
        old(rt)@.phase is Enter,
        call_ensures(Runtime::<F>::step, (rt,), step),
    ensures
        ({
            let v = old(rt)@;
            let w = final(rt)@;
            let n = v.dead.len() as int;
            &&& w == (RuntimeView {
                slab: w.slab,
                dead: Seq::empty(),
                phase: Phase::Wake,
                pending: w.pending,
                ..v
            })
            &&& w.slab.len == v.slab.len
            &&& forall|k: u32| #[trigger]
                w.slab.tasks.contains_key(k) <==> v.slab.tasks.contains_key(k)
                    && v.slab.tasks[k].rc > 0
            &&& forall|k: u32| #[trigger]
                w.slab.tasks.contains_key(k) ==> w.slab.tasks[k] == v.slab.tasks[k]
            &&& w.slab.free.len() == v.slab.free.len() + n
            &&& forall|i: int| 0 <= i < n ==> #[trigger] w.slab.free[i] == v.dead[n - 1 - i].0
            &&& forall|i: int|
                0 <= i < v.slab.free.len() ==> #[trigger] w.slab.free[n + i] == v.slab.free[i]
            &&& step is Done <==> forall|k: u32| #[trigger]
                v.slab.tasks.contains_key(k) ==> v.slab.tasks[k].rc == 0
            &&& step is Done ==> w.pending == v.pending
            &&& step is Done || step is Submit
            &&& step is Submit ==> {
                &&& step->sqes@.len() == v.pending.len()
                &&& forall|i: int|
                    0 <= i < v.pending.len() ==> #[trigger] step->sqes@[i] == v.pending[i]
                &&& w.pending.len() == 0
                &&& step->wait <==> v.wakes.len() == 0 && v.yields.len() == 0 && forall|i: int|
                    0 <= i < v.postponed.len() ==> crate::laws::busy(v, #[trigger] v.postponed[i])
            }
        }),
{
    let v = old(rt)@;
    let w = final(rt)@;
    crate::model::law_sweep(v);
    lemma_swept_free(v, v.dead);
    assert forall|k: u32| #[trigger] w.slab.tasks.contains_key(k) <==> v.slab.tasks.contains_key(k)
        && v.slab.tasks[k].rc > 0 by {
        assert(v.swept().live(k) <==> v.live(k) && v.task(k).rc > 0);
    }
    assert forall|k: u32| #[trigger] w.slab.tasks.contains_key(k) implies w.slab.tasks[k]
        == v.slab.tasks[k] by {
        assert(v.swept().live(k));
    }
    crate::turns::law_done_when_no_task_is_referred_to(v, step);
    assert((forall|k: u32| #[trigger] v.slab.tasks.contains_key(k) ==> v.slab.tasks[k].rc == 0)
        <==> (forall|k: u32| #[trigger] v.live(k) ==> v.task(k).rc == 0)) by {
        if forall|k: u32| #[trigger] v.live(k) ==> v.task(k).rc == 0 {
            assert forall|k: u32| #[trigger]
                v.slab.tasks.contains_key(k) implies v.slab.tasks[k].rc == 0 by {
                assert(v.live(k));
            }
        }
    }
    assert forall|c: Cqe| crate::laws::busy(v, c) <==> #[trigger] v.on_hold(c) by {
        crate::laws::lemma_busy(v, c);
    }
    crate::model::lemma_ready_from(v, 0);
    assert(v.has_ready() <==> !(forall|i: int|
        0 <= i < v.postponed.len() ==> crate::laws::busy(v, #[trigger] v.postponed[i]))) by {
        if v.has_ready() {
            let i = v.ready_from(0);
            assert(!v.on_hold(v.postponed[i]));
        } else {
            assert forall|i: int| 0 <= i < v.postponed.len() implies crate::laws::busy(
                v,
                #[trigger] v.postponed[i],
            ) by {
                assert(v.on_hold(v.postponed[i]));
            }
        }
    }
}

proof fn lemma_swept_free<F>(v: RuntimeView<F>, dead: Seq<SlabIdx>)
    ensures
        ({
            let free = crate::model::removed_all(v.slab, dead).free;
            let n = dead.len() as int;
            &&& crate::model::removed_all(v.slab, dead).len == v.slab.len
            &&& free.len() == v.slab.free.len() + n
            &&& forall|i: int| 0 <= i < n ==> #[trigger] free[i] == dead[n - 1 - i].0
            &&& forall|i: int|
                0 <= i < v.slab.free.len() ==> #[trigger] free[n + i] == v.slab.free[i]
        }),
    decreases dead.len(),
{
    if dead.len() > 0 {
        let rest = dead.drop_last();
        lemma_swept_free(v, rest);
        let before = crate::model::removed_all(v.slab, rest).free;
        let free = crate::model::removed_all(v.slab, dead).free;
        let n = dead.len() as int;
        assert(free =~= seq![dead.last().0] + before);
        assert forall|i: int| 0 <= i < n implies #[trigger] free[i] == dead[n - 1 - i].0 by {
            if i > 0 {
                assert(free[i] == before[i - 1]);
                assert(rest[n - 1 - 1 - (i - 1)] == dead[n - 1 - i]);
            }
        }
        assert forall|i: int| 0 <= i < v.slab.free.len() implies #[trigger] free[n + i]
            == v.slab.free[i] by {
            assert(free[n + i] == before[(n - 1) + i]);
        }
    }
}

/// A request stays in the queue until a step hands it out: no other step, and no completion,
/// takes one away or adds one.
pub proof fn law_queue_is_kept<F>(
    a: &mut Runtime<F>,
    step: Step<F>,
    b: &mut Runtime<F>,
    cqe: &Cqe,
    d: Dispatch<F>,
)
    requires
        call_ensures(Runtime::<F>::step, (a,), step),
        call_ensures(Runtime::<F>::dispatch, (b, cqe), d),
    ensures
        step !is Submit ==> final(a)@.pending == old(a)@.pending,
        step is Submit ==> step->sqes@ == old(a)@.pending && final(a)@.pending.len() == 0,
        final(b)@.pending == old(b)@.pending,
{
}

/// A completion that comes is kept if it has to wait, behind those that are kept already, and
/// else taken in.
pub proof fn law_dispatch<F>(rt: &mut Runtime<F>, cqe: &Cqe, d: Dispatch<F>)
    requires
        old(rt).wf(),
        old(rt)@.polls.len() == 0,
        old(rt)@.accepts(*cqe),
        call_ensures(Runtime::<F>::dispatch, (rt, cqe), d),
    ensures
        ({
            let v = old(rt)@;
            let w = final(rt)@;
            if crate::laws::must_wait(v, *cqe) {
                &&& d is Handled
                &&& w == (RuntimeView { postponed: v.postponed.push(*cqe), ..v })
            } else {
                &&& crate::laws::took(v, w, *cqe)
                &&& d matches Dispatch::Poll(f) ==> answers(v, *cqe, Step::Poll(f))
                &&& d matches Dispatch::Drop(f) ==> answers(v, *cqe, Step::Drop(f))
                &&& d is Handled ==> answers(v, *cqe, Step::Continue)
            }
        }),
{
    let v = old(rt)@;
    crate::laws::lemma_busy(v, *cqe);
    if !v.waits(*cqe) {
        crate::laws::lemma_took(v, *cqe);
        lemma_answers(v, *cqe, crate::runtime::step_of(v.handle_outcome(*cqe)));
    }
}

/// A completion of a request, or a batch of requests, finds the task that has made them. `w` is the
/// state after the request: the task has `n` references more, and its number is marked if the
/// request completes more than once. The task's poll ends; then a completion with the word of the
/// request is accepted, and polls the task with what the completion says.
pub open spec fn asked_for<F>(v: RuntimeView<F>, w: RuntimeView<F>, mark: bool, n: nat) -> bool {
    let t = v.slab.tasks[crate::laws::me(v)];
    &&& n > 0
    &&& t.rc + n <= 0xFFFF
    &&& w == (RuntimeView {
        pending: w.pending,
        ..crate::laws::with_record(
            v,
            crate::laws::me(v),
            TaskView {
                rc: (t.rc + n) as u16,
                syscall_nb: if mark {
                    t.syscall_nb | 0x8000
                } else {
                    t.syscall_nb
                },
                ..t
            },
        )
    })
}

/// See [`asked_for`].
pub proof fn law_completion_polls_who_asked<F>(
    v: RuntimeView<F>,
    mark: bool,
    n: nat,
    a: &mut Runtime<F>,
    future: F,
    dropped: Option<F>,
    b: &mut Runtime<F>,
    cqe: &Cqe,
    gen: u16,
    d: Dispatch<F>,
)
    requires
        v.wf(),
        v.polls.len() == 1,
        crate::laws::my_nb(v) == v.slab.tasks[crate::laws::me(v)].syscall_nb,
        old(a).wf(),
        asked_for(v, old(a)@, mark, n),
        call_ensures(Runtime::<F>::end_poll, (a, future, false), dropped),
        *old(b) == *final(a),
        old(b).wf(),
        crate::laws::carries(
            cqe.user_data,
            crate::laws::me(v),
            if mark {
                crate::laws::my_nb(v) | 0x8000
            } else {
                crate::laws::my_nb(v)
            },
            gen,
        ),
        !crate::laws::must_wait(old(b)@, *cqe),
        call_ensures(Runtime::<F>::dispatch, (b, cqe), d),
    ensures
        dropped is None,
        old(b)@.accepts(*cqe),
        d == Dispatch::Poll(future),
        final(b)@.polls.len() == 1,
        ({
            let info = final(b)@.polls[0].info;
            &&& info.tag.task_idx.0 == crate::laws::me(v)
            &&& info.result == cqe.result
            &&& info.flags == cqe.flags
            &&& info.response_gen == gen
            &&& info.cause == Cause::Completion
            &&& final(b)@.polls[0].release <==> cqe.flags & 2 == 0
            // The task stays in step: what it knows is what it waits for.
            &&& info.tag.syscall_nb == final(b)@.slab.tasks[crate::laws::me(v)].syscall_nb
        }),
{
    let u = old(a)@;
    let k = crate::laws::me(v);
    let nb = crate::laws::my_nb(v);
    let sent = if mark {
        nb | 0x8000
    } else {
        nb
    };
    crate::model::law_polled_task_is_held(v);
    crate::laws::lemma_carries(cqe.user_data, k, sent, gen);
    crate::laws::lemma_marks(sent);
    crate::laws::lemma_marks(nb);
    crate::laws::lemma_busy(old(b)@, *cqe);
    crate::model::law_polled_task_is_held(u);
    crate::model::law_end_poll(u, future, false);
    assert(v.slab.tasks.contains_key(k));
    assert(!crate::user_data::is_internal(cqe.user_data));
    let w = old(b)@;
    assert(w.polls =~= Seq::empty());
    assert(u.polls =~= w.polls.push(u.polls.last()));
    crate::refs::lemma_count_push(w.polls, u.polls.last(), k);
    assert(v.slot_ok(k));
    assert(u.slot_ok(k));
    assert(w.slot_ok(k));
    assert(w.task(k).syscall_nb == sent);
    assert(w.held_outside(k));
    assert(w.task(k).future == Some(future));
    assert(w.compared(*cqe) is Normal || w.compared(*cqe) is Multiple);
}

/// A message reaches the stream that waits for it. A stream of reads is polled for the first time
/// by a task in step, and the poll ends; a completion with the word of the request polls the
/// task, and the stream delivers a buffer with as many bytes as came.
pub proof fn law_message_reaches_the_stream<F>(
    fd: u32,
    s: ReadStream,
    s1: &mut ReadStream,
    a: &mut Runtime<F>,
    first: Progress<Option<RwBuffer<1>>>,
    b: &mut Runtime<F>,
    future: F,
    dropped: Option<F>,
    c: &mut Runtime<F>,
    cqe: &Cqe,
    d: Dispatch<F>,
    s2: &mut ReadStream,
    e: &mut Runtime<F>,
    second: Progress<Option<RwBuffer<1>>>,
)
    requires
        call_ensures(read_stream, (fd,), s),
        *old(s1) == s,
        old(a).wf(),
        old(a)@.polls.len() == 1,
        crate::laws::requests::can_ask(old(a)@),
        crate::laws::my_nb(old(a)@) == old(a)@.slab.tasks[crate::laws::me(old(a)@)].syscall_nb,
        call_ensures(<ReadStream as Stream<F>>::poll_next, (s1, a), first),
        *old(b) == *final(a),
        old(b).wf(),
        call_ensures(Runtime::<F>::end_poll, (b, future, false), dropped),
        *old(c) == *final(b),
        old(c).wf(),
        crate::laws::newest(final(a)@) matches Sqe::RecvMulti { user_data, .. } && user_data
            == cqe.user_data,
        cqe.result > 0,
        !crate::laws::must_wait(old(c)@, *cqe),
        call_ensures(Runtime::<F>::dispatch, (c, cqe), d),
        *old(s2) == *final(s1),
        *old(e) == *final(c),
        call_ensures(<ReadStream as Stream<F>>::poll_next, (s2, e), second),
    ensures
        d == Dispatch::Poll(future),
        second matches Progress::Ready(Some(buf)) && {
            &&& buf.bytes == cqe.result
            &&& buf.fd_idx == fd
            &&& buf.buf_idx == cqe.flags >> 16
        },
{
    let v = old(a)@;
    crate::laws::lemma_words(v, 0);
    crate::laws::lemma_marks(v.slab.tasks[crate::laws::me(v)].syscall_nb);
    assert(asked_for(v, old(b)@, true, 1));
    law_completion_polls_who_asked(v, true, 1, b, future, dropped, c, cqe, 0, d);
    let flags = cqe.flags;
    assert(flags >> 16 == flags / 0x1_0000) by (bit_vector);
}

/// Every answer to a fan-out polls the task that has made it, with the position of its request. The
/// requests are made by a task in step, and the poll ends; a completion with the word of any of
/// them polls the task, and tells it which one it was.
pub proof fn law_answer_reaches_the_fan_out<F>(
    a: &mut Runtime<F>,
    fds: &Vec<u32>,
    slot: &WBuffer<1>,
    len: u32,
    b: &mut Runtime<F>,
    future: F,
    dropped: Option<F>,
    c: &mut Runtime<F>,
    g: int,
    cqe: &Cqe,
    d: Dispatch<F>,
)
    requires
        old(a).wf(),
        old(a)@.polls.len() == 1,
        old(a)@.may_submit(fds@.len()),
        old(a)@.pool.in_use(slot@),
        crate::laws::my_nb(old(a)@) == old(a)@.slab.tasks[crate::laws::me(old(a)@)].syscall_nb,
        call_ensures(Runtime::<F>::submit_multiple_write, (a, fds, slot, len), ()),
        *old(b) == *final(a),
        old(b).wf(),
        call_ensures(Runtime::<F>::end_poll, (b, future, false), dropped),
        *old(c) == *final(b),
        old(c).wf(),
        0 <= g < fds@.len(),
        final(a)@.pending[old(a)@.pending.len() + g] matches Sqe::WriteFixed { user_data, .. }
            && user_data == cqe.user_data,
        !crate::laws::must_wait(old(c)@, *cqe),
        call_ensures(Runtime::<F>::dispatch, (c, cqe), d),
    ensures
        d == Dispatch::Poll(future),
        final(c)@.polls.len() == 1,
        final(c)@.polls[0].info.response_gen == g,
        final(c)@.polls[0].info.result == cqe.result,
        final(c)@.polls[0].info.cause == Cause::Completion,
{
    let v = old(a)@;
    crate::laws::requests::law_fan_out_requests(a, fds, slot, len);
    let sqe = final(a)@.pending[v.pending.len() + g];
    assert(crate::laws::word_of_many(v, cqe.user_data, g as u16));
    assert(asked_for(v, old(b)@, true, fds@.len()));
    law_completion_polls_who_asked(
        v,
        true,
        fds@.len(),
        b,
        future,
        dropped,
        c,
        cqe,
        g as u16,
        d,
    );
}

/// A new runtime has no task and nothing to do. Its pool has 512 read slots and 512 write slots of
/// a page, and every read slot is lent to the kernel, by its number and its address.
pub proof fn law_new_runtime<F>(rt: Runtime<F>, i: int)
    requires
        call_ensures(Runtime::<F>::new, (), rt),
        0 <= i < 512,
    ensures
        rt.wf(),
        forall|k: u32| !rt@.slab.tasks.contains_key(k),
        rt@.slab.len == 16,
        rt@.slab.free.len() == 16,
        i < 16 ==> rt@.slab.free[i] == i,
        rt@.pool.read_count == 512,
        rt@.pool.rc.len() == 512,
        rt@.pool.rc[i] == 0,
        rt@.pool.free.len() == 512,
        rt@.pool.free[i] == 512 + i,
        rt@.pool.mem.len() == 1024 * 4096,
        rt@.ring.entries.len() == 512,
        rt@.ring.tail == 512,
        rt@.ring.entries[i].bid == i,
        rt@.ring.entries[i].len == 4096,
        rt@.ring.entries[i].addr == rt@.pool.base + i * 4096,
        rt@.pending.len() == 0,
        rt@.polls.len() == 0,
        rt@.dead.len() == 0,
        rt@.wakes.len() == 0,
        rt@.yields.len() == 0,
        rt@.postponed.len() == 0,
        rt@.phase is Wake,
{
    assert(0 <= i * 4096 <= 512 * 4096);
}

/// A completion can be dispatched exactly if it answers something: a write slot that has a
/// reference, or a task with a reference that no list, no poll and no write of an answer speaks
/// for. A waker can be used exactly if its task has such a reference. Entering the kernel has
/// failed exactly if there were requests and none was taken.
pub proof fn law_what_can_be_dispatched<F>(
    rt: &Runtime<F>,
    cqe: &Cqe,
    can: bool,
    idx: SlabIdx,
    held: bool,
    waker: &Waker,
    wake: bool,
    ticket: &WriteTicket,
    writing: bool,
    requests: usize,
    submitted: usize,
    failed: bool,
)
    requires
        rt.wf(),
        call_ensures(Runtime::<F>::can_dispatch, (rt, cqe), can),
        call_ensures(Runtime::<F>::is_held_outside, (rt, idx), held),
        call_ensures(Runtime::<F>::can_wake, (rt, waker), wake),
        call_ensures(Runtime::<F>::is_writing, (rt, ticket), writing),
        call_ensures(submission_failed, (requests, submitted), failed),
    ensures
        can <==> if cqe.user_data >> 63 == 0 {
            has_free_reference(rt@, crate::laws::whose(*cqe))
        } else {
            cqe.user_data >> 32 == 0x8000_0000 ==> {
                let i = (cqe.user_data & 0xFFFF_FFFF) - rt@.pool.read_count;
                0 <= i < rt@.pool.rc.len() && rt@.pool.rc[i] > 0
            }
        },
        held <==> has_free_reference(rt@, idx.0),
        wake <==> has_free_reference(rt@, waker@),
        writing <==> rt@.slab.tasks.contains_key(ticket@.task)
            && rt@.slab.tasks[ticket@.task].writes > 0,
        failed <==> requests > 0 && submitted == 0,
{
    crate::laws::lemma_whose(*cqe);
}

/// The task has more references than stand on the lists, belong to polls, or go with writes of
/// committed answers.
pub open spec fn has_free_reference<F>(v: RuntimeView<F>, k: u32) -> bool {
    &&& v.slab.tasks.contains_key(k)
    &&& crate::refs::count_refs(v.wakes, k) + crate::refs::count_refs(v.yields, k)
        + crate::refs::count_refs(v.polls, k) + v.slab.tasks[k].writes < v.slab.tasks[k].rc
}

/// The wait for the next value asks the stream that it was made for, and changes nothing else.
pub proof fn law_next<F>(
    s: &mut AcceptStream,
    n: Next<'_, AcceptStream>,
    m: &mut Next<'_, AcceptStream>,
    rt: &mut Runtime<F>,
    r: Progress<Option<u32>>,
)
    requires
        call_ensures(<AcceptStream as StreamExt<F>>::next, (s,), n),
        *old(m) == n,
        old(rt)@.polls.len() > 0,
        old(s).state is Running,
        old(rt)@.polls.last().info.cause == Cause::Completion,
        old(rt)@.polls.last().info.result >= 0,
        call_ensures(Next::<'_, AcceptStream>::poll::<F>, (m, rt), r),
    ensures
        r matches Progress::Ready(Some(fd)) && fd == old(rt)@.polls.last().info.result,
        final(rt)@ == old(rt)@,
{
}

} // verus!
