//! What the runtime holds, as mathematical values, and how every step changes
//! it.

use crate::buf_pool::PoolView;
use crate::buf_ring::RingView;
use crate::completion::{Cause, Cqe, Tag, TaskInfo};
use crate::runtime::Dispatch;
use crate::refs::RefersTo;
use crate::sqe::Sqe;
use crate::task::{SyscallNbCompResult, TaskView};
use crate::task_slab::{SlabIdx, SlabView};
use vstd::prelude::*;

verus! {

/// A task that was woken, the result it is woken with, and why.
#[derive(Clone, Copy, Debug, PartialEq, Eq, Structural)]
pub struct WakeUp {
    pub task_idx: SlabIdx,
    pub result: i32,
    pub cause: Cause,
}

/// A poll in progress: what the task knows, and whether the poll ends with
/// giving a reference back.
#[derive(Clone, Copy, Debug, PartialEq, Eq, Structural)]
pub struct PollFrame {
    pub info: TaskInfo,
    pub release: bool,
}

/// Where a turn of the event loop stands.
#[derive(Clone, Copy, Debug, PartialEq, Eq, Structural)]
pub enum Phase {
    /// The woken tasks are polled until none is left.
    Wake,
    /// The tasks that had yielded before the pass are polled, `left` more.
    Yield { left: usize },
    /// Finished tasks are removed, and the kernel is entered.
    Enter,
}

impl RefersTo for WakeUp {
    open spec fn refers_to(&self) -> u32 {
        self.task_idx.0
    }
}

impl RefersTo for PollFrame {
    open spec fn refers_to(&self) -> u32 {
        self.info.tag.task_idx.0
    }
}

/// What a runtime holds.
#[verifier::ext_equal]
pub struct RuntimeView<F> {
    pub slab: SlabView<F>,
    pub pool: PoolView,
    pub ring: RingView,
    /// The requests that wait for the next system call.
    pub pending: Seq<Sqe>,
    /// The polls in progress, the innermost one last.
    pub polls: Seq<PollFrame>,
    /// The tasks that have lost their last reference and still stand in the slab.
    pub dead: Seq<SlabIdx>,
    /// The woken tasks, in the order in which they are polled.
    pub wakes: Seq<WakeUp>,
    /// The tasks that have yielded, in the order in which they are polled.
    pub yields: Seq<SlabIdx>,
    /// The completions that wait until the answer which their task has committed
    /// is written, in the order in which they came.
    pub postponed: Seq<Cqe>,
    pub phase: Phase,
}

impl<F> RuntimeView<F> {
    /// A task stands in slot `k`.
    pub open spec fn live(self, k: u32) -> bool {
        self.slab.tasks.contains_key(k)
    }

    /// The task in slot `k`.
    pub open spec fn task(self, k: u32) -> TaskView<F> {
        self.slab.tasks[k]
    }

    /// The number of references to a task that the runtime itself answers for:
    /// one for every time it was woken, for every time it has yielded, and for
    /// the poll in progress.
    pub open spec fn holders(self, k: u32) -> nat {
        crate::refs::count_refs(self.wakes, k) + crate::refs::count_refs(self.yields, k)
            + crate::refs::count_refs(self.polls, k)
    }

    /// The references to a task that are spoken for: by the runtime itself, or by
    /// the writes of committed answers.
    pub open spec fn claimed(self, k: u32) -> nat {
        self.holders(k) + self.task(k).writes as nat
    }

    /// Someone else refers to the task: a request in flight, a waker, or the
    /// first poll that is still due.
    pub open spec fn held_outside(self, k: u32) -> bool {
        self.live(k) && self.claimed(k) < self.task(k).rc
    }

    /// A committed answer of the task is being written: the task waits for that
    /// before it takes another completion.
    pub open spec fn writing(self, k: u32) -> bool {
        self.live(k) && self.task(k).writes > 0
    }

    /// A committed answer of the task was written, and the task is yet to be polled
    /// for that.
    pub open spec fn written(self, k: u32) -> bool {
        exists|i: int|
            0 <= i < self.wakes.len() && (#[trigger] self.wakes[i]).task_idx.0 == k
                && self.wakes[i].cause is Written
    }

    /// A completion of the task is kept.
    pub open spec fn keeps(self, k: u32) -> bool {
        exists|i: int|
            0 <= i < self.postponed.len() && crate::user_data::unpack(
                (#[trigger] self.postponed[i]).user_data,
            ).task_idx.0 == k
    }

    /// What holds of every slot.
    pub open spec fn slot_ok(self, k: u32) -> bool {
        if self.live(k) {
            &&& self.task(k).slab_idx == Some(SlabIdx(k))
            &&& self.claimed(k) <= self.task(k).rc
            &&& self.task(k).rc == 0 <==> self.dead.contains(SlabIdx(k))
            &&& crate::refs::count_refs(self.polls, k) <= 1
            &&& crate::refs::count_refs(self.polls, k) == 1 ==> !self.task(k).done
            &&& self.task(k).future is Some <==> self.task(k).rc > 0 && crate::refs::count_refs(
                self.polls,
                k,
            ) == 0
        } else {
            &&& self.holders(k) == 0
            &&& !self.dead.contains(SlabIdx(k))
        }
    }

    /// The runtime is in a consistent state: every task that is woken, has
    /// yielded or is polled is there, with a reference for each of these; and
    /// the tasks without a reference are exactly those that are to be removed.
    pub open spec fn wf(self) -> bool {
        &&& self.slab.wf()
        &&& self.slab.len <= crate::user_data::TASK_IDX_LIMIT
        &&& self.pool.wf(1)
        &&& self.ring.wf()
        &&& self.ring.entries.len() == self.pool.read_count
        &&& self.dead.no_duplicates()
        &&& forall|k: u32| #[trigger] self.slot_ok(k)
        &&& match self.phase {
            Phase::Yield { left } => left <= self.yields.len(),
            _ => true,
        }
    }

    /// Another task can be taken in.
    pub open spec fn has_room(self) -> bool {
        self.slab.free.len() > 0 || self.slab.len <= crate::user_data::TASK_IDX_LIMIT / 2
    }

    /// A poll is in progress.
    pub open spec fn polling(self) -> bool {
        self.polls.len() > 0
    }

    /// A poll is in progress, and its task has room for `n` more references.
    pub open spec fn may_submit(self, n: nat) -> bool {
        self.polling() && self.task(self.current_idx()).rc + n <= u16::MAX
    }

    /// What the task in progress knows.
    pub open spec fn current(self) -> TaskInfo {
        self.polls.last().info
    }

    /// The slot of the task in progress.
    pub open spec fn current_idx(self) -> u32 {
        self.current().tag.task_idx.0
    }

    /// The word of a request of the task in progress. `multishot` marks a
    /// request that completes more than once.
    pub open spec fn current_udata(self, multishot: bool, response_gen: u16) -> u64 {
        crate::user_data::pack(
            crate::user_data::UserDataPayload {
                task_idx: self.current().tag.task_idx,
                response_gen,
                syscall_nb: if multishot {
                    crate::task::with_multiple(self.current().tag.syscall_nb)
                } else {
                    self.current().tag.syscall_nb
                },
            },
        )
    }

    /// The runtime after the task in slot `k` has become `t`.
    pub open spec fn with_task(self, k: u32, t: TaskView<F>) -> Self {
        RuntimeView { slab: self.slab.updated(k, t), ..self }
    }

    /// One more reference to task `k`.
    pub open spec fn retained(self, k: u32) -> Self {
        self.with_task(k, self.task(k).retained())
    }

    /// One reference less to task `k`; without the last one the task is to be
    /// removed.
    pub open spec fn released(self, k: u32) -> Self {
        RuntimeView {
            dead: if self.task(k).rc == 1 {
                self.dead.push(SlabIdx(k))
            } else {
                self.dead
            },
            ..self.with_task(k, self.task(k).released())
        }
    }

    /// The future that goes with one reference less to task `k`.
    pub open spec fn dropped_by_release(self, k: u32) -> Option<F> {
        if self.task(k).rc == 1 {
            self.task(k).future
        } else {
            None
        }
    }

    /// A task that holds `future` has been taken in.
    pub open spec fn registered(self, future: F) -> Self {
        RuntimeView {
            slab: self.slab.inserted(
                TaskView {
                    slab_idx: Some(SlabIdx(self.slab.next_slot())),
                    ..TaskView::fresh(future)
                },
            ),
            ..self
        }
    }

    /// A poll of task `k` has begun, its future is out.
    pub open spec fn poll_begun(self, k: u32, frame: PollFrame) -> Self {
        RuntimeView {
            polls: self.polls.push(frame),
            ..self.with_task(k, TaskView { future: None, ..self.task(k) })
        }
    }

    /// The innermost poll is over, the future is back, and `done` says whether it
    /// has completed; before any reference is given back.
    pub open spec fn future_returned(self, future: F, done: bool) -> Self {
        RuntimeView {
            polls: self.polls.drop_last(),
            ..self.with_task(
                self.current_idx(),
                TaskView { future: Some(future), done, ..self.task(self.current_idx()) },
            )
        }
    }

    /// The innermost poll is over, the future is back, and `done` says whether it
    /// has completed.
    pub open spec fn poll_ended(self, future: F, done: bool) -> Self {
        let back = self.future_returned(future, done);
        if self.polls.last().release {
            back.released(self.current_idx())
        } else {
            back
        }
    }

    /// The task in progress has made the request `sqe`.
    pub open spec fn submitted(self, sqe: Sqe, multishot: bool) -> Self {
        let k = self.current_idx();
        let t = self.task(k);
        let marked = TaskView {
            syscall_nb: if multishot {
                crate::task::with_multiple(t.syscall_nb)
            } else {
                t.syscall_nb
            },
            ..t
        };
        RuntimeView {
            pending: self.pending.push(sqe),
            ..self.with_task(k, marked.retained())
        }
    }

    /// The task in progress has made several requests at once; each one's
    /// completion polls it.
    pub open spec fn submitted_batch(self, sqes: Seq<Sqe>) -> Self {
        let k = self.current_idx();
        let t = self.task(k);
        RuntimeView {
            pending: self.pending + sqes,
            ..self.with_task(
                k,
                TaskView {
                    rc: (t.rc + sqes.len()) as u16,
                    syscall_nb: crate::task::with_multiple(t.syscall_nb),
                    ..t
                },
            )
        }
    }

    /// The task in progress has seen the last of several completions.
    pub open spec fn batch_finished(self) -> Self {
        let k = self.current_idx();
        let t = self.task(k);
        let frame = self.polls.last();
        RuntimeView {
            polls: self.polls.drop_last().push(
                PollFrame {
                    info: TaskInfo {
                        tag: Tag {
                            syscall_nb: crate::task::next_syscall_nb(frame.info.tag.syscall_nb),
                            ..frame.info.tag
                        },
                        ..frame.info
                    },
                    ..frame
                },
            ),
            ..self.with_task(
                k,
                TaskView { syscall_nb: crate::task::next_syscall_nb(t.syscall_nb), ..t },
            )
        }
    }

    /// The write of an answer that the task in progress has committed begins. A
    /// reference goes with it.
    pub open spec fn write_begun(self) -> Self {
        let k = self.current_idx();
        let t = self.task(k);
        self.with_task(k, TaskView { writes: (t.writes + 1) as u16, ..t.retained() })
    }

    /// The answer that task `k` has committed in the read slot `buf_idx` was written
    /// with `result`. The reference of the write passes over to the list of the
    /// woken.
    pub open spec fn write_ended(self, k: u32, buf_idx: u32, result: i32) -> Self {
        let t = self.task(k);
        RuntimeView {
            wakes: self.wakes.push(
                WakeUp { task_idx: SlabIdx(k), result, cause: Cause::Written(buf_idx) },
            ),
            ..self.with_task(k, TaskView { writes: (t.writes - 1) as u16, ..t })
        }
    }

    /// The task `k` without one of its writes, before the reference of the write
    /// is given back.
    pub open spec fn write_dropped(self, k: u32) -> Self {
        let t = self.task(k);
        self.with_task(k, TaskView { writes: (t.writes - 1) as u16, ..t })
    }

    /// Task `k` was picked to run. If its future has not completed, a poll begins
    /// that ends with giving a reference back if `release` says so. If it has
    /// completed, the reference is given back at once.
    pub open spec fn resumed(self, k: u32, info: TaskInfo, release: bool) -> Self {
        if !self.task(k).done {
            self.poll_begun(k, PollFrame { info, release })
        } else if release {
            self.released(k)
        } else {
            self
        }
    }

    /// What is to be done when task `k` was picked to run.
    pub open spec fn resume_outcome(self, k: u32, release: bool) -> Dispatch<F> {
        if !self.task(k).done {
            Dispatch::Poll(self.task(k).future->0)
        } else if release {
            self.release_outcome(k)
        } else {
            Dispatch::Handled
        }
    }

    /// What is to be done when a reference to task `k` was given back.
    pub open spec fn release_outcome(self, k: u32) -> Dispatch<F> {
        match self.dropped_by_release(k) {
            Some(future) => Dispatch::Drop(future),
            None => Dispatch::Handled,
        }
    }

    /// The first woken task is off its list.
    pub open spec fn wake_taken(self) -> Self {
        RuntimeView { wakes: self.wakes.skip(1), ..self }
    }

    /// The first task that has yielded is off its list, and counts for the pass.
    pub open spec fn yield_taken(self, left: usize) -> Self {
        RuntimeView {
            yields: self.yields.skip(1),
            phase: Phase::Yield { left: (left - 1) as usize },
            ..self
        }
    }

    /// The position of the first postponed completion, from `i` on, whose task is
    /// free to take it; the number of postponed completions if there is none.
    pub open spec fn ready_from(self, i: int) -> int
        decreases self.postponed.len() - i,
    {
        if i >= self.postponed.len() {
            self.postponed.len() as int
        } else if !self.on_hold(self.postponed[i]) {
            i
        } else {
            self.ready_from(i + 1)
        }
    }

    /// Some postponed completion can be taken in.
    pub open spec fn has_ready(self) -> bool {
        self.ready_from(0) < self.postponed.len()
    }

    /// The first postponed completion that can be taken in.
    pub open spec fn ready(self) -> Cqe {
        self.postponed[self.ready_from(0)]
    }

    /// That completion is off the list.
    pub open spec fn ready_taken(self) -> Self {
        RuntimeView { postponed: self.postponed.remove(self.ready_from(0)), ..self }
    }

    /// What a woken task knows.
    pub open spec fn wake_info(self, wake: WakeUp) -> TaskInfo {
        TaskInfo::without_cqe(
            wake.task_idx,
            self.task(wake.task_idx.0).syscall_nb,
            wake.result,
            wake.cause,
        )
    }

    /// What a task knows that has yielded.
    pub open spec fn yield_info(self, idx: SlabIdx) -> TaskInfo {
        TaskInfo::without_cqe(idx, self.task(idx.0).syscall_nb, 0, Cause::Yielded)
    }

    /// One step of the event loop.
    pub open spec fn stepped(self) -> Self {
        match self.phase {
            Phase::Wake => if self.wakes.len() > 0 {
                self.wake_taken().resumed(
                    self.wakes[0].task_idx.0,
                    self.wake_info(self.wakes[0]),
                    true,
                )
            } else if self.has_ready() {
                if self.accepts(self.ready()) {
                    self.ready_taken().handled(self.ready())
                } else {
                    self.ready_taken()
                }
            } else {
                RuntimeView { phase: Phase::Yield { left: self.yields.len() as usize }, ..self }
            },
            Phase::Yield { left } => if left > 0 {
                self.yield_taken(left).resumed(
                    self.yields[0].0,
                    self.yield_info(self.yields[0]),
                    true,
                )
            } else {
                RuntimeView { phase: Phase::Enter, ..self }
            },
            Phase::Enter => if self.swept().idle() {
                RuntimeView { phase: Phase::Wake, ..self.swept() }
            } else {
                RuntimeView { phase: Phase::Wake, pending: Seq::empty(), ..self.swept() }
            },
        }
    }

    /// What a step of the event loop asks for, if it has picked a task or a
    /// postponed completion.
    pub open spec fn step_outcome(self) -> Option<Dispatch<F>> {
        match self.phase {
            Phase::Wake => if self.wakes.len() > 0 {
                Some(self.resume_outcome(self.wakes[0].task_idx.0, true))
            } else if self.has_ready() {
                if self.accepts(self.ready()) {
                    Some(self.handle_outcome(self.ready()))
                } else {
                    Some(Dispatch::Handled)
                }
            } else {
                None
            },
            Phase::Yield { left } => if left > 0 {
                Some(self.resume_outcome(self.yields[0].0, true))
            } else {
                None
            },
            Phase::Enter => None,
        }
    }

    /// The loop may wait in the kernel: there is nothing that could run.
    pub open spec fn may_wait(self) -> bool {
        self.wakes.len() == 0 && self.yields.len() == 0 && !self.has_ready()
    }

    /// No task is left.
    pub open spec fn idle(self) -> bool {
        self.slab.tasks.dom().len() == 0
    }

    /// The completion answers a request that is in flight, as far as the runtime
    /// can tell: its slot of the pool is in use, or its task is referred to by
    /// more than the runtime itself.
    pub open spec fn accepts(self, cqe: Cqe) -> bool {
        if crate::user_data::is_internal(cqe.user_data) {
            crate::user_data::is_wbuf_word(cqe.user_data) ==> self.pool.in_use(
                (cqe.user_data - crate::user_data::INTERNAL_FLAG) as u32,
            )
        } else {
            self.held_outside(crate::user_data::unpack(cqe.user_data).task_idx.0)
        }
    }

    /// How the number in a completion compares with the one its task waits for.
    pub open spec fn compared(self, cqe: Cqe) -> SyscallNbCompResult {
        let payload = crate::user_data::unpack(cqe.user_data);
        crate::task::compare_syscall_nb(
            self.task(payload.task_idx.0).syscall_nb,
            payload.syscall_nb,
        )
    }

    /// The task `k` waits for the next system call.
    pub open spec fn moved_on(self, k: u32) -> Self {
        self.with_task(
            k,
            TaskView { syscall_nb: (self.task(k).syscall_nb + 1) as u16, ..self.task(k) },
        )
    }

    /// What the task knows when it runs because of a completion.
    pub open spec fn info_of(self, cqe: Cqe) -> TaskInfo {
        let info = TaskInfo::of_cqe(cqe);
        if self.compared(cqe) is Normal {
            TaskInfo {
                tag: Tag { syscall_nb: (info.tag.syscall_nb + 1) as u16, ..info.tag },
                ..info
            }
        } else {
            info
        }
    }

    /// The completion belongs to a task whose committed answer is being written.
    pub open spec fn on_hold(self, cqe: Cqe) -> bool {
        !crate::user_data::is_internal(cqe.user_data) && self.writing(
            crate::user_data::unpack(cqe.user_data).task_idx.0,
        )
    }

    /// The completion has to wait: until the committed answer of its task is
    /// written, and the task was polled for that, and the completions that came
    /// before it were taken in.
    pub open spec fn waits(self, cqe: Cqe) -> bool {
        let k = crate::user_data::unpack(cqe.user_data).task_idx.0;
        !crate::user_data::is_internal(cqe.user_data) && (self.writing(k) || self.written(k)
            || self.keeps(k))
    }

    /// A completion has come. It is taken in, unless it has to wait.
    pub open spec fn dispatched(self, cqe: Cqe) -> Self {
        if self.waits(cqe) {
            RuntimeView { postponed: self.postponed.push(cqe), ..self }
        } else {
            self.handled(cqe)
        }
    }

    /// What the completion asks for.
    pub open spec fn dispatch_outcome(self, cqe: Cqe) -> Dispatch<F> {
        if self.waits(cqe) {
            Dispatch::Handled
        } else {
            self.handle_outcome(cqe)
        }
    }

    /// A completion is taken in.
    pub open spec fn handled(self, cqe: Cqe) -> Self {
        let k = crate::user_data::unpack(cqe.user_data).task_idx.0;
        let last = !crate::completion::more_to_come(cqe.flags);
        if crate::user_data::is_wbuf_word(cqe.user_data) {
            RuntimeView {
                pool: self.pool.released(
                    (cqe.user_data - crate::user_data::INTERNAL_FLAG) as u32,
                ),
                ..self
            }
        } else if crate::user_data::is_internal(cqe.user_data) {
            self
        } else {
            match self.compared(cqe) {
                SyscallNbCompResult::Normal => self.moved_on(k).resumed(
                    k,
                    self.info_of(cqe),
                    last,
                ),
                SyscallNbCompResult::Multiple => self.resumed(k, self.info_of(cqe), last),
                _ => if last {
                    self.released(k)
                } else {
                    self
                },
            }
        }
    }

    /// What a completion that is taken in asks for.
    pub open spec fn handle_outcome(self, cqe: Cqe) -> Dispatch<F> {
        let k = crate::user_data::unpack(cqe.user_data).task_idx.0;
        let last = !crate::completion::more_to_come(cqe.flags);
        if crate::user_data::is_internal(cqe.user_data) {
            Dispatch::Handled
        } else {
            match self.compared(cqe) {
                SyscallNbCompResult::Normal => self.resume_outcome(k, last),
                SyscallNbCompResult::Multiple => self.resume_outcome(k, last),
                _ => if last {
                    self.release_outcome(k)
                } else {
                    Dispatch::Handled
                },
            }
        }
    }

    /// The tasks that have lost their last reference are gone.
    pub open spec fn swept(self) -> Self {
        RuntimeView { slab: removed_all(self.slab, self.dead), dead: Seq::empty(), ..self }
    }
}

/// The slab after the slots in `dead` have been emptied, one after the other.
pub open spec fn removed_all<F>(slab: SlabView<F>, dead: Seq<SlabIdx>) -> SlabView<F>
    decreases dead.len(),
{
    if dead.len() == 0 {
        slab
    } else {
        removed_all(slab, dead.drop_last()).removed(dead.last().0)
    }
}

/// Whether the slots are in order does not depend on the queued requests, on the
/// buffers, on the postponed completions or on the phase.
pub proof fn lemma_same_slots<F>(v: RuntimeView<F>, w: RuntimeView<F>)
    requires
        v.wf(),
        w == (RuntimeView {
            pool: w.pool,
            ring: w.ring,
            pending: w.pending,
            postponed: w.postponed,
            phase: w.phase,
            ..v
        }),
    ensures
        forall|k: u32| #[trigger] w.slot_ok(k),
{
    assert forall|k: u32| #[trigger] w.slot_ok(k) by {
        assert(v.slot_ok(k));
    }
}

/// A change of a task that leaves it and its future in place and takes no
/// reference away keeps the runtime consistent, as long as its references cover
/// those that are spoken for.
pub proof fn lemma_task_changed<F>(v: RuntimeView<F>, k: u32, t: TaskView<F>)
    requires
        v.wf(),
        v.live(k),
        t.slab_idx == v.task(k).slab_idx,
        t.rc == v.task(k).rc || 0 < v.task(k).rc <= t.rc,
        t.future == v.task(k).future,
        t.done == v.task(k).done,
        v.holders(k) + t.writes <= t.rc,
    ensures
        v.with_task(k, t).wf(),
{
    let w = v.with_task(k, t);
    crate::task_slab::law_update(v.slab, k, t);
    assert forall|j: u32| #[trigger] w.slot_ok(j) by {
        assert(v.slot_ok(j));
    }
}

/// A further reference keeps the runtime consistent.
pub proof fn law_retain<F>(v: RuntimeView<F>, k: u32)
    requires
        v.wf(),
        v.live(k),
        0 < v.task(k).rc < u16::MAX,
    ensures
        v.retained(k).wf(),
        v.retained(k).held_outside(k),
{
    let w = v.retained(k);
    crate::task_slab::law_update(v.slab, k, v.task(k).retained());
    assert forall|j: u32| #[trigger] w.slot_ok(j) by {
        assert(v.slot_ok(j));
    }
    assert(w.slot_ok(k));
    assert(v.slot_ok(k));
}

/// Giving back a reference that the runtime does not need itself keeps the
/// runtime consistent. The task is to be removed exactly if it was the last one.
pub proof fn law_release<F>(v: RuntimeView<F>, k: u32)
    requires
        v.wf(),
        v.held_outside(k),
    ensures
        v.released(k).wf(),
        v.released(k).task(k).rc == v.task(k).rc - 1,
        v.released(k).dead.contains(SlabIdx(k)) <==> v.task(k).rc == 1,
{
    let w = v.released(k);
    crate::task_slab::law_update(v.slab, k, v.task(k).released());
    assert(v.slot_ok(k));
    assert forall|j: u32| #[trigger] w.slot_ok(j) by {
        assert(v.slot_ok(j));
        if v.dead.contains(SlabIdx(j)) {
            let i = v.dead.index_of(SlabIdx(j));
            assert(w.dead[i] == SlabIdx(j));
        }
        if v.task(k).rc == 1 {
            assert(w.dead[v.dead.len() as int] == SlabIdx(k));
        }
    }
    assert(w.slot_ok(k));
}

/// Taking in a task keeps the runtime consistent; the task is new, and waits
/// for its first poll.
pub proof fn law_register<F>(v: RuntimeView<F>, future: F)
    requires
        v.wf(),
        v.has_room(),
    ensures
        ({
            let w = v.registered(future);
            let k = v.slab.next_slot();
            &&& w.wf()
            &&& !v.live(k)
            &&& w.held_outside(k)
            &&& w.task(k).rc == 1
            &&& w.task(k).future == Some(future)
            &&& !w.task(k).done
            &&& crate::refs::count_refs(w.polls, k) == 0
        }),
{
    let k = v.slab.next_slot();
    let t = TaskView { slab_idx: Some(SlabIdx(k)), ..TaskView::fresh(future) };
    let w = v.registered(future);
    crate::task_slab::law_insert(v.slab, t);
    assert(v.slot_ok(k));
    assert forall|j: u32| #[trigger] w.slot_ok(j) by {
        assert(v.slot_ok(j));
    }
}

/// Beginning a poll keeps the runtime consistent: the reference that brought
/// the poll about stays counted until the poll is over.
pub proof fn law_begin_poll<F>(v: RuntimeView<F>, k: u32, frame: PollFrame)
    requires
        v.wf(),
        v.held_outside(k),
        !v.task(k).done,
        crate::refs::count_refs(v.polls, k) == 0,
        frame.info.tag.task_idx == SlabIdx(k),
    ensures
        v.poll_begun(k, frame).wf(),
        v.poll_begun(k, frame).task(k).rc == v.task(k).rc,
{
    let t = TaskView { future: None, ..v.task(k) };
    let w = v.poll_begun(k, frame);
    crate::task_slab::law_update(v.slab, k, t);
    assert forall|j: u32| #[trigger] w.slot_ok(j) by {
        assert(v.slot_ok(j));
        crate::refs::lemma_count_push(v.polls, frame, j);
    }
}

/// While a task is polled it keeps at least one reference, so nothing frees it.
pub proof fn law_polled_task_is_held<F>(v: RuntimeView<F>)
    requires
        v.wf(),
        v.polling(),
    ensures
        v.live(v.current_idx()),
        v.task(v.current_idx()).rc > 0,
        v.task(v.current_idx()).future is None,
        !v.dead.contains(SlabIdx(v.current_idx())),
{
    let k = v.current_idx();
    crate::refs::lemma_count_positive(v.polls, k);
    assert(v.polls[v.polls.len() - 1].refers_to() == k);
    assert(v.slot_ok(k));
}

/// Putting the future back after a poll keeps the runtime consistent, and the
/// reference behind the poll can then be given back.
pub proof fn lemma_future_returned<F>(v: RuntimeView<F>, future: F, done: bool)
    requires
        v.wf(),
        v.polling(),
    ensures
        v.future_returned(future, done).wf(),
        v.future_returned(future, done).held_outside(v.current_idx()),
{
    let k = v.current_idx();
    law_polled_task_is_held(v);
    let w = v.future_returned(future, done);
    let rest = v.polls.drop_last();
    assert(v.polls =~= rest.push(v.polls.last()));
    crate::task_slab::law_update(
        v.slab,
        k,
        TaskView { future: Some(future), done, ..v.task(k) },
    );
    assert forall|j: u32| #[trigger] w.slot_ok(j) by {
        assert(v.slot_ok(j));
        crate::refs::lemma_count_push(rest, v.polls.last(), j);
    }
    assert(v.slot_ok(k));
    crate::refs::lemma_count_push(rest, v.polls.last(), k);
}

/// Ending a poll keeps the runtime consistent. The reference goes after the
/// poll, never before.
pub proof fn law_end_poll<F>(v: RuntimeView<F>, future: F, done: bool)
    requires
        v.wf(),
        v.polling(),
    ensures
        v.poll_ended(future, done).wf(),
        v.poll_ended(future, done).task(v.current_idx()).rc == v.task(v.current_idx()).rc - (
        if v.polls.last().release {
            1int
        } else {
            0
        }),
{
    lemma_future_returned(v, future, done);
    if v.polls.last().release {
        law_release(v.future_returned(future, done), v.current_idx());
    }
}

/// A request keeps the runtime consistent, and its task is held by one
/// reference more until the last completion has come.
pub proof fn law_submit<F>(v: RuntimeView<F>, sqe: Sqe, multishot: bool)
    requires
        v.wf(),
        v.may_submit(1),
    ensures
        v.submitted(sqe, multishot).wf(),
        v.submitted(sqe, multishot).task(v.current_idx()).rc == v.task(v.current_idx()).rc + 1,
        v.submitted(sqe, multishot).held_outside(v.current_idx()),
{
    let k = v.current_idx();
    law_polled_task_is_held(v);
    let t = v.task(k);
    let marked = TaskView {
        syscall_nb: if multishot {
            crate::task::with_multiple(t.syscall_nb)
        } else {
            t.syscall_nb
        },
        ..t
    };
    assert(v.slot_ok(k));
    lemma_task_changed(v, k, marked);
    let mid = v.with_task(k, marked);
    law_retain(mid, k);
    let w = v.submitted(sqe, multishot);
    assert(w.slab =~= mid.retained(k).slab) by {
        assert(w.slab.tasks =~= mid.retained(k).slab.tasks);
    }
    assert forall|j: u32| #[trigger] w.slot_ok(j) by {
        assert(mid.retained(k).slot_ok(j));
    }
}

/// Several requests at once keep the runtime consistent.
pub proof fn law_submit_batch<F>(v: RuntimeView<F>, sqes: Seq<Sqe>)
    requires
        v.wf(),
        v.may_submit(sqes.len()),
    ensures
        v.submitted_batch(sqes).wf(),
{
    let k = v.current_idx();
    law_polled_task_is_held(v);
    let t = v.task(k);
    let u = TaskView {
        rc: (t.rc + sqes.len()) as u16,
        syscall_nb: crate::task::with_multiple(t.syscall_nb),
        ..t
    };
    assert(v.slot_ok(k));
    lemma_task_changed(v, k, u);
    lemma_same_slots(v.with_task(k, u), v.submitted_batch(sqes));
}

/// Moving on after the last of several completions keeps the runtime consistent.
pub proof fn law_finish_batch<F>(v: RuntimeView<F>)
    requires
        v.wf(),
        v.polling(),
    ensures
        v.batch_finished().wf(),
        v.batch_finished().polling(),
        v.batch_finished().current_idx() == v.current_idx(),
{
    let k = v.current_idx();
    law_polled_task_is_held(v);
    let t = v.task(k);
    let u = TaskView { syscall_nb: crate::task::next_syscall_nb(t.syscall_nb), ..t };
    assert(v.slot_ok(k));
    lemma_task_changed(v, k, u);
    let mid = v.with_task(k, u);
    let w = v.batch_finished();
    let rest = v.polls.drop_last();
    assert(v.polls =~= rest.push(v.polls.last()));
    assert forall|j: u32| #[trigger] w.slot_ok(j) by {
        assert(mid.slot_ok(j));
        crate::refs::lemma_count_push(rest, v.polls.last(), j);
        crate::refs::lemma_count_push(rest, w.polls.last(), j);
    }
}

/// Every request of a task carries the word of that task, which is not internal.
pub proof fn law_request_names_its_task<F>(v: RuntimeView<F>, multishot: bool, response_gen: u16)
    requires
        v.wf(),
        v.polling(),
    ensures
        !crate::user_data::is_internal(v.current_udata(multishot, response_gen)),
        crate::user_data::unpack(v.current_udata(multishot, response_gen)).task_idx.0
            == v.current_idx(),
        crate::user_data::unpack(v.current_udata(multishot, response_gen)).response_gen
            == response_gen,
{
    law_polled_task_is_held(v);
    assert(v.slab.tasks.contains_key(v.current_idx()));
    let p = crate::user_data::UserDataPayload {
        task_idx: v.current().tag.task_idx,
        response_gen,
        syscall_nb: if multishot {
            crate::task::with_multiple(v.current().tag.syscall_nb)
        } else {
            v.current().tag.syscall_nb
        },
    };
    crate::user_data::law_user_data_round_trip(p, 0);
    crate::user_data::law_task_word_is_not_internal(p);
}

/// Waking a task that someone outside refers to keeps the runtime consistent:
/// the reference passes over to the list.
pub proof fn law_wake<F>(v: RuntimeView<F>, wake: WakeUp)
    requires
        v.wf(),
        v.held_outside(wake.task_idx.0),
    ensures
        (RuntimeView { wakes: v.wakes.push(wake), ..v }).wf(),
{
    let w = RuntimeView { wakes: v.wakes.push(wake), ..v };
    assert forall|j: u32| #[trigger] w.slot_ok(j) by {
        assert(v.slot_ok(j));
        crate::refs::lemma_count_push(v.wakes, wake, j);
    }
}

/// A task that yields keeps the runtime consistent.
pub proof fn law_yield<F>(v: RuntimeView<F>, idx: SlabIdx)
    requires
        v.wf(),
        v.held_outside(idx.0),
    ensures
        (RuntimeView { yields: v.yields.push(idx), ..v }).wf(),
{
    let w = RuntimeView { yields: v.yields.push(idx), ..v };
    assert forall|j: u32| #[trigger] w.slot_ok(j) by {
        assert(v.slot_ok(j));
        crate::refs::lemma_count_push(v.yields, idx, j);
    }
}

/// The first woken task leaves the list with its reference.
pub proof fn lemma_wake_taken<F>(v: RuntimeView<F>)
    requires
        v.wf(),
        v.wakes.len() > 0,
    ensures
        v.wake_taken().wf(),
        v.wake_taken().held_outside(v.wakes[0].task_idx.0),
{
    let w = v.wake_taken();
    let k = v.wakes[0].task_idx.0;
    assert forall|j: u32| #[trigger] w.slot_ok(j) by {
        assert(v.slot_ok(j));
        crate::refs::lemma_count_skip(v.wakes, j);
    }
    assert(v.slot_ok(k));
    crate::refs::lemma_count_skip(v.wakes, k);
}

/// The first task that has yielded leaves the list with its reference.
pub proof fn lemma_yield_taken<F>(v: RuntimeView<F>, left: usize)
    requires
        v.wf(),
        v.phase == (Phase::Yield { left }),
        left > 0,
    ensures
        v.yield_taken(left).wf(),
        v.yield_taken(left).held_outside(v.yields[0].0),
{
    let w = v.yield_taken(left);
    let k = v.yields[0].0;
    assert forall|j: u32| #[trigger] w.slot_ok(j) by {
        assert(v.slot_ok(j));
        crate::refs::lemma_count_skip(v.yields, j);
    }
    assert(v.slot_ok(k));
    crate::refs::lemma_count_skip(v.yields, k);
}

/// Picking a task to run keeps the runtime consistent, whether it still has its
/// future or not.
pub proof fn law_resume<F>(v: RuntimeView<F>, k: u32, info: TaskInfo, release: bool)
    requires
        v.wf(),
        v.held_outside(k),
        v.polls.len() == 0,
        info.tag.task_idx == SlabIdx(k),
    ensures
        v.resumed(k, info, release).wf(),
{
    if !v.task(k).done {
        law_begin_poll(v, k, PollFrame { info, release });
    } else if release {
        law_release(v, k);
    }
}

/// Removing the tasks without a reference keeps the runtime consistent, removes
/// exactly these tasks, and leaves every other one as it is.
pub proof fn law_sweep<F>(v: RuntimeView<F>)
    requires
        v.wf(),
    ensures
        v.swept().wf(),
        forall|k: u32| #[trigger]
            v.swept().live(k) <==> v.live(k) && v.task(k).rc > 0,
        forall|k: u32| #[trigger] v.swept().live(k) ==> v.swept().task(k) == v.task(k),
{
    let w = v.swept();
    lemma_removed_all(v, v.dead.len() as int);
    assert(v.dead.take(v.dead.len() as int) =~= v.dead);
    assert forall|k: u32| #[trigger] w.live(k) <==> v.live(k) && v.task(k).rc > 0 by {
        assert(v.slot_ok(k));
        if v.dead.contains(SlabIdx(k)) {
            let i = v.dead.index_of(SlabIdx(k));
            assert(v.dead.take(v.dead.len() as int).contains(SlabIdx(k)));
        }
    }
    assert forall|k: u32| #[trigger] w.slot_ok(k) by {
        assert(v.slot_ok(k));
        assert(w.live(k) <==> v.live(k) && v.task(k).rc > 0);
    }
}

/// The beginning of a write keeps the runtime consistent, and holds its task.
pub proof fn law_begin_write<F>(v: RuntimeView<F>)
    requires
        v.wf(),
        v.may_submit(1),
    ensures
        v.write_begun().wf(),
        v.write_begun().writing(v.current_idx()),
{
    let k = v.current_idx();
    law_polled_task_is_held(v);
    assert(v.slot_ok(k));
    let t = v.task(k);
    lemma_task_changed(v, k, TaskView { writes: (t.writes + 1) as u16, ..t.retained() });
}

/// The end of a write keeps the runtime consistent: the reference of the write
/// passes over to the list of the woken.
pub proof fn law_end_write<F>(v: RuntimeView<F>, k: u32, buf_idx: u32, result: i32)
    requires
        v.wf(),
        v.writing(k),
    ensures
        v.write_ended(k, buf_idx, result).wf(),
{
    let t = v.task(k);
    let wake = WakeUp { task_idx: SlabIdx(k), result, cause: Cause::Written(buf_idx) };
    lemma_write_dropped(v, k);
    law_wake(v.write_dropped(k), wake);
}

/// Without one of its writes a task has a reference that is not spoken for.
pub proof fn lemma_write_dropped<F>(v: RuntimeView<F>, k: u32)
    requires
        v.wf(),
        v.writing(k),
    ensures
        v.write_dropped(k).wf(),
        v.write_dropped(k).held_outside(k),
{
    let t = v.task(k);
    assert(v.slot_ok(k));
    lemma_task_changed(v, k, TaskView { writes: (t.writes - 1) as u16, ..t });
}

/// What `ready_from` finds is the first one that does not wait.
pub proof fn lemma_ready_from<F>(v: RuntimeView<F>, i: int)
    requires
        0 <= i <= v.postponed.len(),
    ensures
        i <= v.ready_from(i) <= v.postponed.len(),
        v.ready_from(i) < v.postponed.len() ==> !v.on_hold(v.postponed[v.ready_from(i)]),
        forall|j: int| i <= j < v.ready_from(i) ==> v.on_hold(#[trigger] v.postponed[j]),
    decreases v.postponed.len() - i,
{
    if i < v.postponed.len() && v.on_hold(v.postponed[i]) {
        lemma_ready_from(v, i + 1);
    }
}

/// A step of the event loop keeps the runtime consistent.
pub proof fn law_step<F>(v: RuntimeView<F>)
    requires
        v.wf(),
        v.polls.len() == 0,
        v.yields.len() <= usize::MAX,
    ensures
        v.stepped().wf(),
{
    match v.phase {
        Phase::Wake => {
            if v.wakes.len() > 0 {
                lemma_wake_taken(v);
                let k = v.wakes[0].task_idx.0;
                law_resume(v.wake_taken(), k, v.wake_info(v.wakes[0]), true);
            } else if v.has_ready() {
                let w = v.ready_taken();
                lemma_same_slots(v, w);
                if v.accepts(v.ready()) {
                    assert(w.accepts(v.ready()));
                    law_handle(w, v.ready());
                }
            } else {
                lemma_same_slots(v, v.stepped());
            }
        },
        Phase::Yield { left } => {
            if left > 0 {
                lemma_yield_taken(v, left);
                let k = v.yields[0].0;
                law_resume(v.yield_taken(left), k, v.yield_info(v.yields[0]), true);
            } else {
                lemma_same_slots(v, v.stepped());
            }
        },
        Phase::Enter => {
            law_sweep(v);
            lemma_same_slots(v.swept(), v.stepped());
        },
    }
}

/// Taking in a completion keeps the runtime consistent.
pub proof fn law_handle<F>(v: RuntimeView<F>, cqe: Cqe)
    requires
        v.wf(),
        v.polls.len() == 0,
        v.accepts(cqe),
    ensures
        v.handled(cqe).wf(),
{
    let k = crate::user_data::unpack(cqe.user_data).task_idx.0;
    let last = !crate::completion::more_to_come(cqe.flags);
    if crate::user_data::is_wbuf_word(cqe.user_data) {
        crate::buf_pool::law_release(
            v.pool,
            1,
            (cqe.user_data - crate::user_data::INTERNAL_FLAG) as u32,
        );
        lemma_same_slots(v, v.handled(cqe));
    } else if !crate::user_data::is_internal(cqe.user_data) {
        match v.compared(cqe) {
            SyscallNbCompResult::Normal => {
                let t = TaskView { syscall_nb: (v.task(k).syscall_nb + 1) as u16, ..v.task(k) };
                assert(v.slot_ok(k));
                lemma_task_changed(v, k, t);
                law_resume(v.moved_on(k), k, v.info_of(cqe), last);
            },
            SyscallNbCompResult::Multiple => {
                law_resume(v, k, v.info_of(cqe), last);
            },
            _ => {
                if last {
                    law_release(v, k);
                }
            },
        }
    }
}

/// A completion keeps the runtime consistent.
pub proof fn law_dispatch<F>(v: RuntimeView<F>, cqe: Cqe)
    requires
        v.wf(),
        v.polls.len() == 0,
        v.accepts(cqe),
    ensures
        v.dispatched(cqe).wf(),
{
    if v.waits(cqe) {
        lemma_same_slots(v, v.dispatched(cqe));
    } else {
        law_handle(v, cqe);
    }
}

/// Emptying the first `n` slots on the list of the dead.
pub proof fn lemma_removed_all<F>(v: RuntimeView<F>, n: int)
    requires
        v.wf(),
        0 <= n <= v.dead.len(),
    ensures
        ({
            let s = removed_all(v.slab, v.dead.take(n));
            &&& s.wf()
            &&& s.len == v.slab.len
            &&& forall|k: u32| #[trigger]
                s.tasks.contains_key(k) <==> v.live(k) && !v.dead.take(n).contains(SlabIdx(k))
            &&& forall|k: u32| #[trigger] s.tasks.contains_key(k) ==> s.tasks[k] == v.task(k)
        }),
    decreases n,
{
    let d = v.dead.take(n);
    if n > 0 {
        let e = v.dead.take(n - 1);
        lemma_removed_all(v, n - 1);
        let x = v.dead[n - 1];
        assert(d.drop_last() =~= e);
        assert(d =~= e.push(x));
        let s0 = removed_all(v.slab, e);
        let s = removed_all(v.slab, d);
        assert(!e.contains(x)) by {
            if e.contains(x) {
                let i = e.index_of(x);
                assert(v.dead[i] == v.dead[n - 1]);
            }
        }
        assert(v.slot_ok(x.0));
        assert(v.dead.contains(x));
        assert(s0.tasks.contains_key(x.0));
        crate::task_slab::law_remove(s0, x.0);
        assert forall|k: u32| #[trigger] s.tasks.contains_key(k) <==> v.live(k) && !d.contains(
            SlabIdx(k),
        ) by {
            assert(s0.tasks.contains_key(k) <==> v.live(k) && !e.contains(SlabIdx(k)));
            if e.contains(SlabIdx(k)) {
                let i = e.index_of(SlabIdx(k));
                assert(d[i] == SlabIdx(k));
            }
            if d.contains(SlabIdx(k)) && k != x.0 {
                let i = d.index_of(SlabIdx(k));
                assert(e[i] == SlabIdx(k));
            }
            if k == x.0 {
                assert(d[n - 1] == SlabIdx(k));
            }
        }
    }
}

} // verus!
