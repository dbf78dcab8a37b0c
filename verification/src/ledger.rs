//! The account of references. A task's count of references is the number of its
//! requests whose last completion was not taken in yet, and of what else may run
//! it: wakers, wake-ups, yields, writes of committed answers, the first poll.
//!
//! The account is kept beside the runtime, event by event, by someone who sees
//! what the kernel and the owners of wakers do.

use crate::buf_pool::PoolView;
use crate::buf_ring::RingView;
use crate::completion::{Cause, Cqe, TaskInfo};
use crate::model::{Phase, PollFrame, RuntimeView, WakeUp};
use crate::sqe::Sqe;
use crate::task::TaskView;
use crate::task_slab::SlabIdx;
use vstd::prelude::*;

verus! {

/// How many references to every task are out of the runtime's hands.
pub struct Ledger {
    /// The requests whose last completion was not taken in yet.
    pub requests: spec_fn(u32) -> nat,
    /// The wakers that were neither used nor given up.
    pub wakers: spec_fn(u32) -> nat,
    /// The first polls that are still due.
    pub starts: spec_fn(u32) -> nat,
}

/// What can happen to a runtime.
pub enum Event<F> {
    /// A task is taken in.
    Register(F),
    /// The first poll of a task begins.
    Start(SlabIdx),
    /// The task in progress makes a request.
    Submit(Sqe, bool),
    /// The task in progress makes several requests at once.
    SubmitBatch(Seq<Sqe>),
    /// The task in progress has seen the last of several completions.
    FinishBatch,
    /// The task in progress hands out a waker.
    TakeWaker,
    /// A waker is used.
    Wake(u32, i32),
    /// A waker is given up.
    DropWaker(u32),
    /// The task in progress commits an answer.
    BeginWrite,
    /// The write of a committed answer is over.
    EndWrite(u32, u32, i32),
    /// The write of a committed answer is given up.
    DropWrite(u32),
    /// The task in progress yields.
    Yield,
    /// The innermost poll ends.
    EndPoll(F, bool),
    /// The event loop makes a step.
    Step,
    /// The kernel completes a request.
    Complete(Cqe),
    /// Something changes that no task has a part in: buffers, requests that belong
    /// to no task, or the place in the turn.
    Beside(PoolView, RingView, Seq<Sqe>, Phase),
}

/// The task that a completion belongs to.
pub open spec fn task_of(cqe: Cqe) -> u32 {
    crate::user_data::unpack(cqe.user_data).task_idx.0
}

/// The completion is the last one of a request of task `k`.
pub open spec fn is_last_of(cqe: Cqe, k: u32) -> bool {
    !crate::completion::more_to_come(cqe.flags) && task_of(cqe) == k
}

/// How many completions in `s` are the last ones of requests of task `k`.
pub open spec fn lasts(s: Seq<Cqe>, k: u32) -> nat
    decreases s.len(),
{
    if s.len() == 0 {
        0
    } else {
        lasts(s.drop_last(), k) + crate::refs::one_if(is_last_of(s.last(), k))
    }
}

/// How many polls of task `k` end with giving a reference back.
pub open spec fn releasing(polls: Seq<PollFrame>, k: u32) -> nat
    decreases polls.len(),
{
    if polls.len() == 0 {
        0
    } else {
        releasing(polls.drop_last(), k) + crate::refs::one_if(
            polls.last().release && polls.last().info.tag.task_idx.0 == k,
        )
    }
}

impl Ledger {
    /// Nothing is out of the runtime's hands.
    pub open spec fn empty() -> Self {
        Ledger { requests: |k: u32| 0nat, wakers: |k: u32| 0nat, starts: |k: u32| 0nat }
    }

    /// The references to task `k` that are out of the runtime's hands.
    pub open spec fn out(self, k: u32) -> nat {
        (self.requests)(k) + (self.wakers)(k) + (self.starts)(k)
    }

    /// `n` more requests of task `k`.
    pub open spec fn with_requests(self, k: u32, n: int) -> Self {
        Ledger {
            requests: |j: u32|
                if j == k {
                    ((self.requests)(j) + n) as nat
                } else {
                    (self.requests)(j)
                },
            ..self
        }
    }

    /// `n` more wakers of task `k`.
    pub open spec fn with_wakers(self, k: u32, n: int) -> Self {
        Ledger {
            wakers: |j: u32|
                if j == k {
                    ((self.wakers)(j) + n) as nat
                } else {
                    (self.wakers)(j)
                },
            ..self
        }
    }

    /// `n` more first polls of task `k`.
    pub open spec fn with_starts(self, k: u32, n: int) -> Self {
        Ledger {
            starts: |j: u32|
                if j == k {
                    ((self.starts)(j) + n) as nat
                } else {
                    (self.starts)(j)
                },
            ..self
        }
    }

    /// The account after a completion was taken in: with the last one of a request,
    /// the request is over.
    pub open spec fn taken_in(self, cqe: Cqe) -> Self {
        if !crate::user_data::is_internal(cqe.user_data) && !crate::completion::more_to_come(
            cqe.flags,
        ) {
            self.with_requests(task_of(cqe), -1)
        } else {
            self
        }
    }

    /// The references to task `k` add up, but for `extra` of them: what is out of
    /// the runtime's hands, what stands on its lists, the writes, and the poll in
    /// progress. A poll for a completion that is not the last one has no reference
    /// of its own: it is covered by its request.
    pub open spec fn adds_up<F>(self, v: RuntimeView<F>, k: u32, extra: nat) -> bool {
        if v.live(k) {
            &&& v.task(k).rc == self.out(k) + v.task(k).writes + crate::refs::count_refs(v.wakes, k)
                + crate::refs::count_refs(v.yields, k) + releasing(v.polls, k) + extra
            &&& crate::refs::count_refs(v.polls, k) <= releasing(v.polls, k) + (self.requests)(k)
        } else {
            self.out(k) == 0 && extra == 0
        }
    }

    /// The references to task `j` add up, but for `extra` of them if it is task `k`.
    pub open spec fn adds_up_but<F>(self, v: RuntimeView<F>, j: u32, k: u32, extra: nat) -> bool {
        self.adds_up(
            v,
            j,
            if j == k {
                extra
            } else {
                0
            },
        )
    }

    /// Every completion that is kept belongs to a request that is not over: there
    /// are more of its task than last completions before it.
    pub open spec fn covers(self, kept: Seq<Cqe>) -> bool {
        forall|i: int|
            0 <= i < kept.len() ==> !crate::user_data::is_internal(
                (#[trigger] kept[i]).user_data,
            ) && lasts(kept.take(i), task_of(kept[i])) < (self.requests)(task_of(kept[i]))
    }

    /// The account is right.
    pub open spec fn balanced<F>(self, v: RuntimeView<F>) -> bool {
        &&& forall|k: u32| #[trigger] self.adds_up(v, k, 0)
        &&& self.covers(v.postponed)
    }

    /// The account is right, but for `extra` references to task `k`.
    pub open spec fn balanced_but<F>(self, v: RuntimeView<F>, k: u32, extra: nat) -> bool {
        &&& forall|j: u32| #[trigger] self.adds_up_but(v, j, k, extra)
        &&& self.covers(v.postponed)
    }

    /// The event can happen: wakers are used or given up once, the kernel completes
    /// only requests that it has not completed for the last time, and the operations
    /// of the runtime are called when they may be.
    pub open spec fn allows<F>(self, v: RuntimeView<F>, e: Event<F>) -> bool {
        match e {
            Event::Register(_) => v.has_room(),
            Event::Start(idx) => {
                &&& (self.starts)(idx.0) > 0
                &&& v.task(idx.0).future is Some
                &&& !v.task(idx.0).done
            },
            Event::Submit(_, _) => v.may_submit(1),
            Event::SubmitBatch(sqes) => v.may_submit(sqes.len()),
            Event::FinishBatch => v.polling(),
            Event::TakeWaker => v.may_submit(1),
            Event::Wake(k, _) => (self.wakers)(k) > 0,
            Event::DropWaker(k) => (self.wakers)(k) > 0,
            Event::BeginWrite => v.may_submit(1),
            Event::EndWrite(k, _, _) => v.writing(k),
            Event::DropWrite(k) => v.writing(k),
            Event::Yield => v.may_submit(1),
            Event::EndPoll(_, _) => v.polling(),
            Event::Step => !v.polling() && v.yields.len() <= usize::MAX,
            Event::Complete(cqe) => {
                &&& !v.polling()
                &&& if crate::user_data::is_internal(cqe.user_data) {
                    v.accepts(cqe)
                } else {
                    lasts(v.postponed, task_of(cqe)) < (self.requests)(task_of(cqe))
                }
            },
            Event::Beside(pool, ring, pending, phase) => (RuntimeView {
                pool,
                ring,
                pending,
                phase,
                ..v
            }).wf(),
        }
    }

    /// The account after the event.
    pub open spec fn after<F>(self, v: RuntimeView<F>, e: Event<F>) -> Self {
        match e {
            Event::Register(_) => self.with_starts(v.slab.next_slot(), 1),
            Event::Start(idx) => self.with_starts(idx.0, -1),
            Event::Submit(_, _) => self.with_requests(v.current_idx(), 1),
            Event::SubmitBatch(sqes) => self.with_requests(v.current_idx(), sqes.len() as int),
            Event::TakeWaker => self.with_wakers(v.current_idx(), 1),
            Event::Wake(k, _) => self.with_wakers(k, -1),
            Event::DropWaker(k) => self.with_wakers(k, -1),
            Event::Step => if v.phase is Wake && v.wakes.len() == 0 && v.has_ready() {
                self.taken_in(v.ready())
            } else {
                self
            },
            Event::Complete(cqe) => if v.waits(cqe) {
                self
            } else {
                self.taken_in(cqe)
            },
            _ => self,
        }
    }
}

/// The runtime after the event.
pub open spec fn after<F>(v: RuntimeView<F>, e: Event<F>) -> RuntimeView<F> {
    match e {
        Event::Register(future) => v.registered(future),
        Event::Start(idx) => v.poll_begun(
            idx.0,
            PollFrame {
                info: TaskInfo::without_cqe(idx, 0, i32::MAX, Cause::Start),
                release: true,
            },
        ),
        Event::Submit(sqe, multishot) => v.submitted(sqe, multishot),
        Event::SubmitBatch(sqes) => v.submitted_batch(sqes),
        Event::FinishBatch => v.batch_finished(),
        Event::TakeWaker => v.retained(v.current_idx()),
        Event::Wake(k, result) => RuntimeView {
            wakes: v.wakes.push(WakeUp { task_idx: SlabIdx(k), result, cause: Cause::Woken }),
            ..v
        },
        Event::DropWaker(k) => v.released(k),
        Event::BeginWrite => v.write_begun(),
        Event::EndWrite(k, buf_idx, result) => v.write_ended(k, buf_idx, result),
        Event::DropWrite(k) => v.write_dropped(k).released(k),
        Event::Yield => RuntimeView {
            yields: v.yields.push(SlabIdx(v.current_idx())),
            ..v.retained(v.current_idx())
        },
        Event::EndPoll(future, done) => v.poll_ended(future, done),
        Event::Step => v.stepped(),
        Event::Complete(cqe) => v.dispatched(cqe),
        Event::Beside(pool, ring, pending, phase) => RuntimeView {
            pool,
            ring,
            pending,
            phase,
            ..v
        },
    }
}

proof fn lemma_releasing_push(polls: Seq<PollFrame>, frame: PollFrame, k: u32)
    ensures
        releasing(polls.push(frame), k) == releasing(polls, k) + crate::refs::one_if(
            frame.release && frame.info.tag.task_idx.0 == k,
        ),
{
    assert(polls.push(frame).drop_last() =~= polls);
}

/// What is out of the runtime's hands is not spoken for.
proof fn lemma_held_outside<F>(v: RuntimeView<F>, l: Ledger, k: u32)
    requires
        v.wf(),
        l.balanced(v),
        (l.wakers)(k) > 0 || (l.starts)(k) > 0 || (l.requests)(k) > 0 && !v.polling(),
    ensures
        v.held_outside(k),
{
    assert(l.adds_up(v, k, 0));
}

/// One reference to task `k` that was not accounted for is used to run the task, or
/// none if its request goes on.
proof fn lemma_resumed<F>(v: RuntimeView<F>, l: Ledger, k: u32, info: TaskInfo, release: bool)
    requires
        v.wf(),
        v.held_outside(k),
        !v.polling(),
        info.tag.task_idx == SlabIdx(k),
        l.balanced_but(
            v,
            k,
            if release {
                1
            } else {
                0
            },
        ),
        !release ==> (l.requests)(k) > 0,
    ensures
        l.balanced(v.resumed(k, info, release)),
{
    let w = v.resumed(k, info, release);
    let frame = PollFrame { info, release };
    let extra: nat = if release {
        1
    } else {
        0
    };
    assert forall|j: u32| #[trigger] l.adds_up(w, j, 0) by {
        assert(l.adds_up_but(v, j, k, extra));
        assert(v.slot_ok(j));
        lemma_releasing_push(v.polls, frame, j);
        crate::refs::lemma_count_push(v.polls, frame, j);
    }
}

/// The completion `cqe` of a request that is not over is taken in.
proof fn lemma_handled<F>(v: RuntimeView<F>, l: Ledger, cqe: Cqe)
    requires
        v.wf(),
        !v.polling(),
        v.accepts(cqe),
        forall|k: u32| #[trigger] l.adds_up(v, k, 0),
        !crate::user_data::is_internal(cqe.user_data) ==> (l.requests)(task_of(cqe)) > 0,
        l.taken_in(cqe).covers(v.postponed),
    ensures
        l.taken_in(cqe).balanced(v.handled(cqe)),
{
    let k = task_of(cqe);
    let w = v.handled(cqe);
    let m = l.taken_in(cqe);
    let last = !crate::completion::more_to_come(cqe.flags);
    let extra: nat = if last {
        1
    } else {
        0
    };
    if crate::user_data::is_internal(cqe.user_data) {
        assert forall|j: u32| #[trigger] m.adds_up(w, j, 0) by {
            assert(l.adds_up(v, j, 0));
        }
    } else {
        assert(v.slot_ok(k));
        assert forall|j: u32| #[trigger] m.adds_up_but(v, j, k, extra) by {
            assert(l.adds_up(v, j, 0));
        }
        let t = TaskView { syscall_nb: (v.task(k).syscall_nb + 1) as u16, ..v.task(k) };
        let moved = v.moved_on(k);
        crate::model::lemma_task_changed(v, k, t);
        if v.compared(cqe) is Normal {
            assert forall|j: u32| #[trigger] m.adds_up_but(moved, j, k, extra) by {
                assert(m.adds_up_but(v, j, k, extra));
            }
            lemma_resumed(moved, m, k, v.info_of(cqe), last);
        } else if v.compared(cqe) is Multiple {
            lemma_resumed(v, m, k, v.info_of(cqe), last);
        } else {
            assert forall|j: u32| #[trigger] m.adds_up(w, j, 0) by {
                assert(m.adds_up_but(v, j, k, extra));
            }
        }
    }
}

proof fn lemma_lasts_push(s: Seq<Cqe>, cqe: Cqe, k: u32)
    ensures
        lasts(s.push(cqe), k) == lasts(s, k) + crate::refs::one_if(is_last_of(cqe, k)),
{
    assert(s.push(cqe).drop_last() =~= s);
}

/// Without the completion at position `i`, of which it is the first for its task, a
/// list has one last completion less for that task exactly if it was one.
proof fn lemma_lasts_remove(s: Seq<Cqe>, i: int, n: int, k: u32)
    requires
        0 <= i < n <= s.len(),
    ensures
        lasts(s.take(n), k) == lasts(s.remove(i).take(n - 1), k) + crate::refs::one_if(
            is_last_of(s[i], k),
        ),
    decreases n,
{
    assert(s.take(n) =~= s.take(n - 1).push(s[n - 1]));
    lemma_lasts_push(s.take(n - 1), s[n - 1], k);
    if i == n - 1 {
        assert(s.remove(i).take(n - 1) =~= s.take(n - 1));
    } else {
        lemma_lasts_remove(s, i, n - 1, k);
        assert(s.remove(i).take(n - 1) =~= s.remove(i).take(n - 2).push(s[n - 1]));
        lemma_lasts_push(s.remove(i).take(n - 2), s[n - 1], k);
    }
}

/// Taking the first ready completion off the list leaves the others covered.
proof fn lemma_ready_taken<F>(v: RuntimeView<F>, l: Ledger)
    requires
        v.wf(),
        !v.polling(),
        l.balanced(v),
        v.has_ready(),
    ensures
        (l.requests)(task_of(v.ready())) > 0,
        !crate::user_data::is_internal(v.ready().user_data),
        v.accepts(v.ready()),
        l.taken_in(v.ready()).covers(v.ready_taken().postponed),
{
    crate::model::lemma_ready_from(v, 0);
    let r = v.ready_from(0);
    let s = v.postponed;
    let c = v.ready();
    let k = task_of(c);
    assert(s[r] == c);
    lemma_held_outside(v, l, k);
    let t = s.remove(r);
    let m = l.taken_in(c);
    assert forall|i: int| 0 <= i < t.len() implies !crate::user_data::is_internal(
        (#[trigger] t[i]).user_data,
    ) && lasts(t.take(i), task_of(t[i])) < (m.requests)(task_of(t[i])) by {
        if i < r {
            assert(t[i] == s[i]);
            assert(t.take(i) =~= s.take(i));
            assert(v.on_hold(s[i]));
        } else {
            assert(t[i] == s[i + 1]);
            lemma_lasts_remove(s, r, i + 1, task_of(t[i]));
        }
    }
}

/// The account stays right, whatever happens, and the runtime accepts whatever can
/// happen: a waker can be used or given up, a completion is taken in, also if it was
/// kept for a while.
pub proof fn law_account_stays_right<F>(v: RuntimeView<F>, l: Ledger, e: Event<F>)
    requires
        v.wf(),
        l.balanced(v),
        l.allows(v, e),
    ensures
        after(v, e).wf(),
        l.after(v, e).balanced(after(v, e)),
        e matches Event::Start(idx) ==> v.held_outside(idx.0),
        e matches Event::Wake(k, _) ==> v.held_outside(k),
        e matches Event::DropWaker(k) ==> v.held_outside(k),
        e matches Event::Complete(cqe) ==> v.accepts(cqe),
        e is Step && v.phase is Wake && v.wakes.len() == 0 && v.has_ready() ==> v.accepts(
            v.ready(),
        ),
{
    match e {
        Event::Step => {
            lemma_step(v, l);
        },
        Event::Complete(cqe) => {
            lemma_complete(v, l, cqe);
        },
        Event::Register(future) => {
            lemma_register(v, l, future);
        },
        Event::Start(idx) => {
            lemma_start(v, l, idx);
        },
        Event::EndPoll(future, done) => {
            lemma_end_poll(v, l, future, done);
        },
        Event::Wake(k, _) => {
            lemma_waker_used(v, l, k, e);
        },
        Event::DropWaker(k) => {
            lemma_waker_used(v, l, k, e);
        },
        Event::EndWrite(k, _, _) => {
            lemma_write_over(v, l, k, e);
        },
        Event::DropWrite(k) => {
            lemma_write_over(v, l, k, e);
        },
        Event::FinishBatch => {
            lemma_finish_batch(v, l);
        },
        Event::Beside(_, _, _, _) => {
            assert forall|j: u32| #[trigger] l.adds_up(after(v, e), j, 0) by {
                assert(l.adds_up(v, j, 0));
            }
        },
        _ => {
            lemma_asked(v, l, e);
        },
    }
}

proof fn lemma_asked<F>(v: RuntimeView<F>, l: Ledger, e: Event<F>)
    requires
        v.wf(),
        l.balanced(v),
        l.allows(v, e),
        e is Submit || e is SubmitBatch || e is TakeWaker || e is BeginWrite || e is Yield,
    ensures
        after(v, e).wf(),
        l.after(v, e).balanced(after(v, e)),
{
    let k = v.current_idx();
    let w = after(v, e);
    let m = l.after(v, e);
    crate::model::law_polled_task_is_held(v);
    assert(v.slot_ok(k));
    match e {
        Event::Submit(sqe, multishot) => {
            crate::model::law_submit(v, sqe, multishot);
        },
        Event::SubmitBatch(sqes) => {
            crate::model::law_submit_batch(v, sqes);
        },
        Event::TakeWaker => {
            crate::model::law_retain(v, k);
        },
        Event::BeginWrite => {
            crate::model::law_begin_write(v);
        },
        Event::Yield => {
            crate::model::law_retain(v, k);
            crate::model::law_yield(v.retained(k), SlabIdx(k));
        },
        _ => {},
    }
    assert forall|j: u32| #[trigger] m.adds_up(w, j, 0) by {
        assert(l.adds_up(v, j, 0));
        crate::refs::lemma_count_push(v.yields, SlabIdx(k), j);
    }
    assert(w.postponed == v.postponed);
}

proof fn lemma_waker_used<F>(v: RuntimeView<F>, l: Ledger, k: u32, e: Event<F>)
    requires
        v.wf(),
        l.balanced(v),
        (l.wakers)(k) > 0,
        e == Event::<F>::DropWaker(k) || exists|r: i32| e == Event::<F>::Wake(k, r),
    ensures
        v.held_outside(k),
        after(v, e).wf(),
        l.after(v, e).balanced(after(v, e)),
{
    let w = after(v, e);
    let m = l.after(v, e);
    lemma_held_outside(v, l, k);
    match e {
        Event::Wake(_, result) => {
            let wake = WakeUp { task_idx: SlabIdx(k), result, cause: Cause::Woken };
            crate::model::law_wake(v, wake);
            assert forall|j: u32| #[trigger] m.adds_up(w, j, 0) by {
                assert(l.adds_up(v, j, 0));
                crate::refs::lemma_count_push(v.wakes, wake, j);
            }
        },
        _ => {
            crate::model::law_release(v, k);
            assert forall|j: u32| #[trigger] m.adds_up(w, j, 0) by {
                assert(l.adds_up(v, j, 0));
            }
        },
    }
}

proof fn lemma_write_over<F>(v: RuntimeView<F>, l: Ledger, k: u32, e: Event<F>)
    requires
        v.wf(),
        l.balanced(v),
        v.writing(k),
        e == Event::<F>::DropWrite(k) || exists|b: u32, r: i32|
            e == Event::<F>::EndWrite(k, b, r),
    ensures
        after(v, e).wf(),
        l.after(v, e).balanced(after(v, e)),
{
    let w = after(v, e);
    match e {
        Event::EndWrite(_, buf_idx, result) => {
            crate::model::law_end_write(v, k, buf_idx, result);
            let wake = WakeUp { task_idx: SlabIdx(k), result, cause: Cause::Written(buf_idx) };
            assert forall|j: u32| #[trigger] l.adds_up(w, j, 0) by {
                assert(l.adds_up(v, j, 0));
                crate::refs::lemma_count_push(v.wakes, wake, j);
            }
        },
        _ => {
            crate::model::lemma_write_dropped(v, k);
            crate::model::law_release(v.write_dropped(k), k);
            assert forall|j: u32| #[trigger] l.adds_up(w, j, 0) by {
                assert(l.adds_up(v, j, 0));
            }
        },
    }
}

proof fn lemma_register<F>(v: RuntimeView<F>, l: Ledger, future: F)
    requires
        v.wf(),
        l.balanced(v),
        v.has_room(),
    ensures
        v.registered(future).wf(),
        l.with_starts(v.slab.next_slot(), 1).balanced(v.registered(future)),
{
    let k = v.slab.next_slot();
    let w = v.registered(future);
    let m = l.with_starts(k, 1);
    crate::model::law_register(v, future);
    crate::task_slab::law_insert(
        v.slab,
        TaskView { slab_idx: Some(SlabIdx(k)), ..TaskView::fresh(future) },
    );
    assert forall|j: u32| #[trigger] m.adds_up(w, j, 0) by {
        assert(l.adds_up(v, j, 0));
        assert(v.slot_ok(j));
        lemma_releasing_bound(v.polls, j);
    }
}

proof fn lemma_releasing_bound(polls: Seq<PollFrame>, k: u32)
    ensures
        releasing(polls, k) <= crate::refs::count_refs(polls, k),
    decreases polls.len(),
{
    if polls.len() > 0 {
        lemma_releasing_bound(polls.drop_last(), k);
    }
}

proof fn lemma_start<F>(v: RuntimeView<F>, l: Ledger, idx: SlabIdx)
    requires
        v.wf(),
        l.balanced(v),
        l.allows(v, Event::<F>::Start(idx)),
    ensures
        v.held_outside(idx.0),
        after(v, Event::<F>::Start(idx)).wf(),
        l.with_starts(idx.0, -1).balanced(after(v, Event::<F>::Start(idx))),
{
    let k = idx.0;
    let w = after(v, Event::<F>::Start(idx));
    let m = l.with_starts(k, -1);
    let frame = PollFrame {
        info: TaskInfo::without_cqe(idx, 0, i32::MAX, Cause::Start),
        release: true,
    };
    lemma_held_outside(v, l, k);
    assert(v.slot_ok(k));
    crate::model::law_begin_poll(v, k, frame);
    assert forall|j: u32| #[trigger] m.adds_up(w, j, 0) by {
        assert(l.adds_up(v, j, 0));
        lemma_releasing_push(v.polls, frame, j);
        crate::refs::lemma_count_push(v.polls, frame, j);
    }
}

proof fn lemma_end_poll<F>(v: RuntimeView<F>, l: Ledger, future: F, done: bool)
    requires
        v.wf(),
        l.balanced(v),
        v.polling(),
    ensures
        v.poll_ended(future, done).wf(),
        l.balanced(v.poll_ended(future, done)),
{
    let w = v.poll_ended(future, done);
    let rest = v.polls.drop_last();
    crate::model::law_polled_task_is_held(v);
    crate::model::law_end_poll(v, future, done);
    assert(v.polls =~= rest.push(v.polls.last()));
    assert forall|j: u32| #[trigger] l.adds_up(w, j, 0) by {
        assert(l.adds_up(v, j, 0));
        lemma_releasing_push(rest, v.polls.last(), j);
        crate::refs::lemma_count_push(rest, v.polls.last(), j);
    }
}

proof fn lemma_finish_batch<F>(v: RuntimeView<F>, l: Ledger)
    requires
        v.wf(),
        l.balanced(v),
        v.polling(),
    ensures
        v.batch_finished().wf(),
        l.balanced(v.batch_finished()),
{
    let w = v.batch_finished();
    let rest = v.polls.drop_last();
    crate::model::law_polled_task_is_held(v);
    crate::model::law_finish_batch(v);
    assert(v.polls =~= rest.push(v.polls.last()));
    assert forall|j: u32| #[trigger] l.adds_up(w, j, 0) by {
        assert(l.adds_up(v, j, 0));
        lemma_releasing_push(rest, v.polls.last(), j);
        crate::refs::lemma_count_push(rest, v.polls.last(), j);
        lemma_releasing_push(rest, w.polls.last(), j);
        crate::refs::lemma_count_push(rest, w.polls.last(), j);
    }
}

/// A completion of a request that is not over can be kept.
proof fn lemma_covers_push(l: Ledger, kept: Seq<Cqe>, cqe: Cqe)
    requires
        l.covers(kept),
        !crate::user_data::is_internal(cqe.user_data),
        lasts(kept, task_of(cqe)) < (l.requests)(task_of(cqe)),
    ensures
        l.covers(kept.push(cqe)),
{
    let more = kept.push(cqe);
    assert forall|i: int| 0 <= i < more.len() implies !crate::user_data::is_internal(
        (#[trigger] more[i]).user_data,
    ) && lasts(more.take(i), task_of(more[i])) < (l.requests)(task_of(more[i])) by {
        assert(more.take(i) =~= kept.take(i));
        if i == kept.len() {
            assert(kept.take(i) =~= kept);
        } else {
            assert(more[i] == kept[i]);
        }
    }
}

/// What is kept stays covered when a completion is taken in whose task has none
/// that is kept.
proof fn lemma_covers_taken_in(l: Ledger, kept: Seq<Cqe>, cqe: Cqe)
    requires
        l.covers(kept),
        !crate::user_data::is_internal(cqe.user_data) ==> forall|i: int|
            0 <= i < kept.len() ==> task_of(#[trigger] kept[i]) != task_of(cqe),
    ensures
        l.taken_in(cqe).covers(kept),
{
    let m = l.taken_in(cqe);
    assert forall|i: int| 0 <= i < kept.len() implies !crate::user_data::is_internal(
        (#[trigger] kept[i]).user_data,
    ) && lasts(kept.take(i), task_of(kept[i])) < (m.requests)(task_of(kept[i])) by {
    }
}

proof fn lemma_complete<F>(v: RuntimeView<F>, l: Ledger, cqe: Cqe)
    requires
        v.wf(),
        l.balanced(v),
        l.allows(v, Event::<F>::Complete(cqe)),
    ensures
        v.accepts(cqe),
        v.dispatched(cqe).wf(),
        l.after(v, Event::<F>::Complete(cqe)).balanced(v.dispatched(cqe)),
{
    let k = task_of(cqe);
    if !crate::user_data::is_internal(cqe.user_data) {
        lemma_held_outside(v, l, k);
    }
    crate::model::law_dispatch(v, cqe);
    let w = v.dispatched(cqe);
    if v.waits(cqe) {
        assert forall|j: u32| #[trigger] l.adds_up(w, j, 0) by {
            assert(l.adds_up(v, j, 0));
        }
        lemma_covers_push(l, v.postponed, cqe);
    } else {
        lemma_covers_taken_in(l, v.postponed, cqe);
        lemma_handled(v, l, cqe);
    }
}

proof fn lemma_step<F>(v: RuntimeView<F>, l: Ledger)
    requires
        v.wf(),
        l.balanced(v),
        l.allows(v, Event::<F>::Step),
    ensures
        v.stepped().wf(),
        l.after(v, Event::<F>::Step).balanced(v.stepped()),
        v.phase is Wake && v.wakes.len() == 0 && v.has_ready() ==> v.accepts(v.ready()),
{
    crate::model::law_step(v);
    let w = v.stepped();
    match v.phase {
        Phase::Wake => {
            if v.wakes.len() > 0 {
                let k = v.wakes[0].task_idx.0;
                let u = v.wake_taken();
                crate::model::lemma_wake_taken(v);
                assert forall|j: u32| #[trigger] l.adds_up_but(u, j, k, 1) by {
                    assert(l.adds_up(v, j, 0));
                    crate::refs::lemma_count_skip(v.wakes, j);
                    assert(v.slot_ok(j));
                }
                lemma_resumed(u, l, k, v.wake_info(v.wakes[0]), true);
            } else if v.has_ready() {
                let u = v.ready_taken();
                lemma_ready_taken(v, l);
                crate::model::lemma_same_slots(v, u);
                assert forall|j: u32| #[trigger] l.adds_up(u, j, 0) by {
                    assert(l.adds_up(v, j, 0));
                }
                assert(u.accepts(v.ready()));
                lemma_handled(u, l, v.ready());
            } else {
                assert forall|j: u32| #[trigger] l.adds_up(w, j, 0) by {
                    assert(l.adds_up(v, j, 0));
                }
            }
        },
        Phase::Yield { left } => {
            if left > 0 {
                let k = v.yields[0].0;
                let u = v.yield_taken(left);
                crate::model::lemma_yield_taken(v, left);
                assert forall|j: u32| #[trigger] l.adds_up_but(u, j, k, 1) by {
                    assert(l.adds_up(v, j, 0));
                    crate::refs::lemma_count_skip(v.yields, j);
                    assert(v.slot_ok(j));
                }
                lemma_resumed(u, l, k, v.yield_info(v.yields[0]), true);
            } else {
                assert forall|j: u32| #[trigger] l.adds_up(w, j, 0) by {
                    assert(l.adds_up(v, j, 0));
                }
            }
        },
        Phase::Enter => {
            crate::model::law_sweep(v);
            assert forall|j: u32| #[trigger] l.adds_up(w, j, 0) by {
                assert(l.adds_up(v, j, 0));
                assert(v.swept().live(j) <==> v.live(j) && v.task(j).rc > 0);
                assert(w.live(j) == v.swept().live(j));
            }
        },
    }
}

/// The account of a runtime without tasks is empty.
pub proof fn law_account_starts_empty<F>(v: RuntimeView<F>)
    requires
        forall|k: u32| !v.live(k),
        v.postponed.len() == 0,
    ensures
        Ledger::empty().balanced(v),
{
}

/// The runtime after a run of events.
pub open spec fn after_all<F>(v: RuntimeView<F>, events: Seq<Event<F>>) -> RuntimeView<F>
    decreases events.len(),
{
    if events.len() == 0 {
        v
    } else {
        after(after_all(v, events.drop_last()), events.last())
    }
}

impl Ledger {
    /// The account after a run of events.
    pub open spec fn after_all<F>(self, v: RuntimeView<F>, events: Seq<Event<F>>) -> Self
        decreases events.len(),
    {
        if events.len() == 0 {
            self
        } else {
            self.after_all(v, events.drop_last()).after(
                after_all(v, events.drop_last()),
                events.last(),
            )
        }
    }

    /// Every event of a run can happen when its turn comes.
    pub open spec fn allows_all<F>(self, v: RuntimeView<F>, events: Seq<Event<F>>) -> bool
        decreases events.len(),
    {
        events.len() > 0 ==> {
            &&& self.allows_all(v, events.drop_last())
            &&& self.after_all(v, events.drop_last()).allows(
                after_all(v, events.drop_last()),
                events.last(),
            )
        }
    }
}

/// The account stays right over any run of events, however long.
pub proof fn law_account_stays_right_over_a_run<F>(
    v: RuntimeView<F>,
    l: Ledger,
    events: Seq<Event<F>>,
)
    requires
        v.wf(),
        l.balanced(v),
        l.allows_all(v, events),
    ensures
        after_all(v, events).wf(),
        l.after_all(v, events).balanced(after_all(v, events)),
    decreases events.len(),
{
    if events.len() > 0 {
        law_account_stays_right_over_a_run(v, l, events.drop_last());
        law_account_stays_right(
            after_all(v, events.drop_last()),
            l.after_all(v, events.drop_last()),
            events.last(),
        );
    }
}

/// Between two completions, a task whose first poll is over has as many references
/// as requests whose last completion was not taken in, plus its wakers, its
/// wake-ups, its yields and the writes of its committed answers. Its future is
/// dropped, and the task removed, exactly if all of these have come to nothing.
pub proof fn law_count_is_what_is_in_flight<F>(v: RuntimeView<F>, l: Ledger, k: u32)
    requires
        v.wf(),
        l.balanced(v),
        !v.polling(),
        v.live(k),
        (l.starts)(k) == 0,
    ensures
        v.task(k).rc == (l.requests)(k) + (l.wakers)(k) + crate::refs::count_refs(v.wakes, k)
            + crate::refs::count_refs(v.yields, k) + v.task(k).writes,
        (l.wakers)(k) == 0 && crate::refs::count_refs(v.wakes, k) == 0 && crate::refs::count_refs(
            v.yields,
            k,
        ) == 0 && v.task(k).writes == 0 ==> v.task(k).rc == (l.requests)(k),
        v.task(k).rc == 0 <==> v.task(k).future is None,
        v.task(k).rc == 0 <==> !v.swept().live(k),
{
    assert(l.adds_up(v, k, 0));
    assert(v.slot_ok(k));
    crate::model::law_sweep(v);
    assert(v.swept().live(k) <==> v.live(k) && v.task(k).rc > 0);
}

} // verus!
