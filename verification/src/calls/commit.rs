//! Writing an answer from the read slot that held the question.
//!
//! The write runs as a task of its own, so that its completion is not taken for
//! one of the task that reads. While it is under way, the completions of that task
//! wait, and whatever else polls the task, the slot stays where it is. When the
//! write is done, it wakes that task with the result, and only then is the slot
//! given back to the kernel.

use crate::buf_pool::{BufPool, RwBuffer};
use crate::buf_ring::RingUpdate;
use crate::completion::{Cause, Cqe};
use crate::model::RuntimeView;
use crate::runtime::{Runtime, Step, TicketView, WriteTicket};
use crate::sqe::Sqe;
use crate::stream::Progress;
use crate::task_slab::SlabIdx;
use vstd::prelude::*;

verus! {

/// The wait for a committed answer to be written.
pub enum CommitFuture<const N: usize> {
    /// The write is still to be spawned.
    Init { addr: usize, buf_idx: u32, fd_idx: u32, len: u32 },
    /// The write is under way; the slot is given back when it is done.
    Pending { buf_idx: u32 },
    /// The slot was given back.
    Done,
}

/// The write of a committed answer, to be run as a task of its own.
pub enum CommitWrite {
    /// The request is still to be made.
    Init { ticket: WriteTicket, addr: usize, fd_idx: u32, len: u32, buf_id: u16 },
    /// The completion is awaited.
    Pending { ticket: WriteTicket },
    /// The task that has committed the answer was woken.
    Done,
}

/// What a poll of [`CommitFuture`] asks for.
pub enum CommitProgress {
    /// Spawn the write, and wait.
    Spawn(CommitWrite),
    /// Go on waiting: the write is not done.
    Waiting,
    /// The number of bytes written, or a negative error number; and what has to
    /// be written to the shared ring.
    Ready(i32, RingUpdate),
}

/// Waits for `len` bytes at `addr` to be written from the read slot `buf_idx`.
pub fn make_commit_future<const N: usize>(
    addr: usize,
    buf_idx: u32,
    fd_idx: u32,
    len: u32,
) -> (f: CommitFuture<N>)
    ensures
        f == (CommitFuture::<N>::Init { addr, buf_idx, fd_idx, len }),
{
    CommitFuture::Init { addr, buf_idx, fd_idx, len }
}

impl<const N: usize> RwBuffer<N> {
    /// Commits the first `len` bytes of the slot as the answer to its connection.
    pub fn commit(self, pool: &BufPool<N>, len: u32) -> (f: CommitFuture<N>)
        requires
            pool.wf(),
            self.buf_idx < pool@.read_count,
        ensures
            f == (CommitFuture::<N>::Init {
                addr: pool@.address(N, self.buf_idx as int) as usize,
                buf_idx: self.buf_idx,
                fd_idx: self.fd_idx,
                len,
            }),
    {
        make_commit_future(pool.read_buf_addr(self.buf_idx), self.buf_idx, self.fd_idx, len)
    }
}

impl RwBuffer<1> {
    /// Gives the slot back to the kernel without an answer, and says what has to
    /// be written to the shared ring.
    pub fn release<F>(self, rt: &mut Runtime<F>) -> (update: RingUpdate)
        requires
            old(rt).wf(),
            self.buf_idx < old(rt)@.pool.read_count,
        ensures
            final(rt).wf(),
            final(rt)@ == (RuntimeView {
                ring: old(rt)@.ring.released(
                    crate::runtime::ring_entry(old(rt)@.pool, self.buf_idx as int),
                ),
                ..old(rt)@
            }),
            update == (RingUpdate {
                offset: (old(rt)@.ring.position() * crate::buf_ring::ENTRY_SIZE) as usize,
                entry: crate::runtime::ring_entry(old(rt)@.pool, self.buf_idx as int),
                tail: final(rt)@.ring.tail,
            }),
    {
        rt.release_read_buf(self.buf_idx)
    }
}

impl<const N: usize> CommitFuture<N> {
    /// How a poll changes the future and the runtime, and what it asks for.
    pub open spec fn polled<F>(
        before: Self,
        after: Self,
        v: RuntimeView<F>,
        w: RuntimeView<F>,
        r: CommitProgress,
    ) -> bool {
        match before {
            CommitFuture::Init { addr, buf_idx, fd_idx, len } => {
                &&& after == (CommitFuture::<N>::Pending { buf_idx })
                &&& w == v.write_begun()
                &&& r matches CommitProgress::Spawn(
                    CommitWrite::Init { ticket, addr: a, fd_idx: f, len: l, buf_id },
                )
                &&& ticket@ == (TicketView { task: v.current_idx(), buf_idx })
                &&& w.writing(ticket@.task)
                &&& a == addr
                &&& f == fd_idx
                &&& l == len
                &&& buf_id == buf_idx as u16
            },
            CommitFuture::Pending { buf_idx } => if v.current().cause != Cause::Written(buf_idx) {
                &&& after == before
                &&& w == v
                &&& r is Waiting
            } else {
                &&& after is Done
                &&& w == (RuntimeView {
                    ring: v.ring.released(crate::runtime::ring_entry(v.pool, buf_idx as int)),
                    ..v
                })
                &&& r == CommitProgress::Ready(
                    v.current().result,
                    RingUpdate {
                        offset: (v.ring.position() * crate::buf_ring::ENTRY_SIZE) as usize,
                        entry: crate::runtime::ring_entry(v.pool, buf_idx as int),
                        tail: w.ring.tail,
                    },
                )
            },
            CommitFuture::Done => {
                &&& after is Done
                &&& w == v
                &&& r is Waiting
            },
        }
    }

    /// The first poll hands out the write, which holds the task in progress. The
    /// poll that this write has woken the task for gives the slot back to the
    /// kernel and takes the result. Any other poll changes nothing.
    pub fn poll<F>(&mut self, rt: &mut Runtime<F>) -> (r: CommitProgress)
        requires
            old(rt).wf(),
            old(rt)@.polling(),
            *old(self) is Init ==> old(rt)@.may_submit(1),
            *old(self) matches CommitFuture::Pending { buf_idx } ==> buf_idx
                < old(rt)@.pool.read_count,
        ensures
            final(rt).wf(),
            Self::polled(*old(self), *final(self), old(rt)@, final(rt)@, r),
    {
        match *self {
            CommitFuture::Init { addr, buf_idx, fd_idx, len } => {
                let ticket = rt.begin_write(buf_idx);
                *self = CommitFuture::Pending { buf_idx };
                CommitProgress::Spawn(
                    CommitWrite::Init { ticket, addr, fd_idx, len, buf_id: buf_idx as u16 },
                )
            },
            CommitFuture::Pending { buf_idx } => {
                if !rt.is_written(buf_idx) {
                    return CommitProgress::Waiting;
                }
                let result: i32 = rt.current_result();
                let update = rt.release_read_buf(buf_idx);
                *self = CommitFuture::Done;
                CommitProgress::Ready(result, update)
            },
            CommitFuture::Done => CommitProgress::Waiting,
        }
    }
}

impl CommitWrite {
    /// The first poll makes the request. The poll for its completion ends the
    /// write, and wakes the task that has committed the answer with the result.
    pub fn poll<F>(&mut self, rt: &mut Runtime<F>) -> (r: Progress<()>)
        requires
            old(rt).wf(),
            old(rt)@.polling(),
            *old(self) is Init ==> old(rt)@.may_submit(1),
            *old(self) matches CommitWrite::Pending { ticket } ==> old(rt)@.writing(ticket@.task),
        ensures
            final(rt).wf(),
            match *old(self) {
                CommitWrite::Init { ticket, addr, fd_idx, len, buf_id } => {
                    &&& r is Pending
                    &&& *final(self) == (CommitWrite::Pending { ticket })
                    &&& final(rt)@ == old(rt)@.submitted(
                        Sqe::WriteFixed {
                            fd: fd_idx,
                            addr,
                            len,
                            buf_index: buf_id,
                            user_data: old(rt)@.current_udata(false, 0),
                        },
                        false,
                    )
                },
                CommitWrite::Pending { ticket } => if old(rt)@.current().cause
                    != Cause::Completion {
                    &&& r is Pending
                    &&& *final(self) == *old(self)
                    &&& final(rt)@ == old(rt)@
                } else {
                    &&& r == Progress::Ready(())
                    &&& *final(self) is Done
                    &&& final(rt)@ == old(rt)@.write_ended(
                        ticket@.task,
                        ticket@.buf_idx,
                        old(rt)@.current().result,
                    )
                },
                CommitWrite::Done => {
                    &&& r == Progress::Ready(())
                    &&& *final(self) is Done
                    &&& final(rt)@ == old(rt)@
                },
            },
    {
        let mut state = CommitWrite::Done;
        std::mem::swap(self, &mut state);
        match state {
            CommitWrite::Init { ticket, addr, fd_idx, len, buf_id } => {
                rt.submit_commit_write(addr, fd_idx, len, buf_id);
                *self = CommitWrite::Pending { ticket };
                Progress::Pending
            },
            CommitWrite::Pending { ticket } => {
                if !rt.is_completion() {
                    *self = CommitWrite::Pending { ticket };
                    return Progress::Pending;
                }
                let result: i32 = rt.current_result();
                rt.end_write(ticket, result);
                Progress::Ready(())
            },
            CommitWrite::Done => Progress::Ready(()),
        }
    }

    /// Gives up the write; the ticket that is handed out is to be dropped.
    pub fn into_ticket(self) -> (t: Option<WriteTicket>)
        ensures
            t == (match self {
                CommitWrite::Init { ticket, .. } => Some(ticket),
                CommitWrite::Pending { ticket } => Some(ticket),
                CommitWrite::Done => None,
            }),
    {
        match self {
            CommitWrite::Init { ticket, .. } => Some(ticket),
            CommitWrite::Pending { ticket } => Some(ticket),
            CommitWrite::Done => None,
        }
    }
}

/// Until the write of a committed answer is over, no poll of the task gives the
/// slot back or resolves the wait, whatever brings it about; and the poll for which
/// the write has woken the task does both, once.
pub proof fn law_commit_keeps_its_slot<const N: usize, F>(
    f: CommitFuture<N>,
    after: CommitFuture<N>,
    v: RuntimeView<F>,
    w: RuntimeView<F>,
    r: CommitProgress,
    buf_idx: u32,
)
    requires
        CommitFuture::<N>::polled(f, after, v, w, r),
        f == (CommitFuture::<N>::Pending { buf_idx }),
    ensures
        v.current().cause != Cause::Written(buf_idx) ==> r is Waiting && after == f && w == v,
        v.current().cause == Cause::Written(buf_idx) ==> {
            &&& r matches CommitProgress::Ready(result, _)
            &&& result == v.current().result
            &&& after is Done
            &&& w.ring.tail == (v.ring.tail + 1) % 0x1_0000
        },
{
}

/// When the write of a committed answer has completed, the task that committed
/// it is woken behind those that were woken before, and polled with the result
/// of the write. A completion of that task which came meanwhile has not polled
/// it: it is kept, and is taken in after that poll, when no other write of the task
/// is under way. All the time the ring is untouched: no poll in between has given
/// the slot back.
pub proof fn law_commit_result_reaches_the_reader<F>(
    v: RuntimeView<F>,
    cqe: Cqe,
    parent: u32,
    buf_idx: u32,
    future: F,
    writer: F,
    left: F,
)
    requires
        v.wf(),
        v.polls.len() == 1,
        v.phase is Wake,
        v.wakes.len() == 0,
        v.postponed == seq![cqe],
        v.waits(cqe),
        crate::user_data::unpack(cqe.user_data).task_idx.0 == parent,
        parent != v.current_idx(),
        v.held_outside(parent),
        v.task(parent).writes == 1,
        v.task(parent).future == Some(future),
        !v.task(parent).done,
    ensures
        ({
            // The writer ends the write, and its poll ends.
            let written = v.write_ended(parent, buf_idx, v.current().result).poll_ended(
                writer,
                true,
            );
            // The task that has committed the answer is polled.
            let resumed = written.stepped();
            // That poll ends, and the completion that came meanwhile is taken in.
            let over = resumed.poll_ended(left, false);
            &&& written.wf()
            &&& crate::runtime::step_fits(written, Step::Poll(future))
            &&& resumed.current_idx() == parent
            &&& resumed.current().cause == Cause::Written(buf_idx)
            &&& resumed.current().result == v.current().result
            &&& resumed.postponed == v.postponed
            &&& resumed.ring == v.ring
            &&& over.has_ready()
            &&& over.ready() == cqe
            &&& over.accepts(cqe)
            &&& over.stepped() == over.ready_taken().handled(cqe)
        }),
{
    let k = v.current_idx();
    let u = v.write_ended(parent, buf_idx, v.current().result);
    crate::model::law_polled_task_is_held(v);
    crate::model::law_end_write(v, parent, buf_idx, v.current().result);
    assert(u.polls == v.polls);
    crate::model::law_end_poll(u, writer, true);
    let written = u.poll_ended(writer, true);
    assert(written.polls =~= Seq::empty());
    assert(written.wakes == u.wakes);
    assert(written.task(parent) == u.task(parent));
    crate::turns::law_wake_up_is_delivered(written, future, left, false);
    let resumed = written.stepped();
    let over = resumed.poll_ended(left, false);
    assert(over.polls =~= Seq::empty());
    assert(over.wakes =~= Seq::empty());
    assert(over.task(parent).writes == 0);
    assert(!over.on_hold(cqe));
    assert(over.postponed[0] == cqe);
    assert(over.ready_from(0) == 0);
    assert(v.slot_ok(parent));
    crate::refs::lemma_count_push(v.wakes, u.wakes.last(), parent);
    assert(over.yields == v.yields);
    assert(crate::refs::count_refs(over.wakes, parent) == 0);
    assert(crate::refs::count_refs(over.polls, parent) == 0);
}

} // verus!
