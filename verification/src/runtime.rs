//! The runtime: it knows which task runs next, what it has asked of the kernel,
//! and what a completion means. Polling a future and entering the kernel are
//! left to the caller, who is told when to do so.

use crate::buf_pool::{BufPool, WBuffer};
use crate::buf_ring::{BufRing, RingEntry, RingUpdate};
use crate::completion::{is_more, Cause, Cqe, Tag, TaskInfo};
use crate::model::{Phase, PollFrame, RuntimeView, WakeUp};
use crate::sqe::Sqe;
use crate::task::{mark_multiple, SyscallNbCompResult, Task, TaskView};
use crate::task_slab::{Slab, SlabIdx};
use crate::user_data::{decode_wbuf_udata, is_internal_cqe, is_wbuf_udata, UserDataPayload};
use std::collections::VecDeque;
use vstd::prelude::*;

verus! {

/// The number of read slots in the pool, a power of two.
pub const READ_SLOTS: u32 = 512;

/// The number of write slots in the pool.
pub const WRITE_SLOTS: u32 = 512;

/// The number of task slots to begin with.
pub const TASK_SLOTS: u32 = 16;

/// The buffer group through which read slots are lent to the kernel.
pub const BUF_GROUP: u16 = 0;

/// The address family of IPv4.
pub const AF_INET: i32 = 2;

/// A stream socket that does not block and is closed on `exec`: the sum of
/// `SOCK_STREAM`, `SOCK_NONBLOCK` and `SOCK_CLOEXEC` on Linux.
pub const STREAM_SOCKET: i32 = 0x8_0801;

/// The tasks, the buffers, the requests that wait to be submitted, and the lists
/// of tasks that are to run.
pub struct Runtime<F> {
    tasks: Slab<F>,
    buffer: BufPool<1>,
    buf_ring: BufRing,
    pending: Vec<Sqe>,
    polls: Vec<PollFrame>,
    free_list: Vec<SlabIdx>,
    wake_list: VecDeque<WakeUp>,
    yield_list: VecDeque<SlabIdx>,
    postponed: Vec<Cqe>,
    phase: Phase,
}

impl<F> View for Runtime<F> {
    type V = RuntimeView<F>;

    closed spec fn view(&self) -> RuntimeView<F> {
        RuntimeView {
            slab: self.tasks@,
            pool: self.buffer@,
            ring: self.buf_ring@,
            pending: self.pending@,
            polls: self.polls@,
            dead: self.free_list@,
            wakes: self.wake_list@,
            yields: self.yield_list@,
            postponed: self.postponed@,
            phase: self.phase,
        }
    }
}

/// One reference to a task, held by someone who will wake it, and the system call
/// that the task was at when the waker was made. Eight bytes, no allocation.
pub struct Waker {
    tag: Tag,
}

impl View for Waker {
    type V = u32;

    closed spec fn view(&self) -> u32 {
        self.tag.task_idx.0
    }
}

/// The write of an answer that a task has committed in a read slot. A reference
/// to the task goes with it.
pub struct WriteTicket {
    task_idx: SlabIdx,
    buf_idx: u32,
}

/// Which task has committed an answer in which read slot.
#[verifier::ext_equal]
pub struct TicketView {
    pub task: u32,
    pub buf_idx: u32,
}

impl View for WriteTicket {
    type V = TicketView;

    closed spec fn view(&self) -> TicketView {
        TicketView { task: self.task_idx.0, buf_idx: self.buf_idx }
    }
}

/// What the caller of the event loop has to do next.
pub enum Step<F> {
    /// Poll the future, and then end the poll.
    Poll(F),
    /// Drop the future: its task has lost its last reference.
    Drop(F),
    /// Nothing: ask again.
    Continue,
    /// Submit the requests, in order, and enter the kernel; if `wait` is set, until
    /// a completion is there. Then hand in the completions.
    Submit { sqes: Vec<Sqe>, wait: bool },
    /// All tasks are done.
    Done,
}

/// What the caller has to do about a completion.
pub enum Dispatch<F> {
    /// Poll the future, and then end the poll.
    Poll(F),
    /// Drop the future: its task has lost its last reference.
    Drop(F),
    /// Nothing.
    Handled,
}

/// The entries by which a new runtime lends all its read slots to the kernel.
pub open spec fn initial_ring(pool: crate::buf_pool::PoolView) -> Seq<RingEntry> {
    Seq::new(pool.read_count as nat, |i: int| ring_entry(pool, i))
}

/// The entry by which read slot `i` is lent to the kernel.
pub open spec fn ring_entry(pool: crate::buf_pool::PoolView, i: int) -> RingEntry {
    RingEntry {
        addr: pool.address(1, i) as u64,
        len: crate::buf_pool::buf_size(1) as u32,
        bid: i as u16,
    }
}

spec fn with_pool<F>(v: RuntimeView<F>, pool: crate::buf_pool::PoolView) -> RuntimeView<F> {
    RuntimeView { pool, ..v }
}

impl<F> Runtime<F> {
    /// The slots of the slab are linked up, and those of the pool lie in place.
    pub closed spec fn linked(&self) -> bool {
        self.tasks.wf() && self.buffer.placed()
    }

    /// The runtime is in a consistent state.
    pub open spec fn wf(&self) -> bool {
        self@.wf() && self.linked()
    }

    /// A runtime without tasks, whose read slots are all lent to the kernel.
    pub fn new() -> (rt: Self)
        ensures
            rt.wf(),
            rt@.slab == (crate::task_slab::SlabView::<F> {
                tasks: Map::empty(),
                free: crate::task_slab::index_range(0, TASK_SLOTS),
                len: TASK_SLOTS,
            }),
            rt@.pool.read_count == READ_SLOTS,
            rt@.pool.mem == Seq::new(
                ((READ_SLOTS + WRITE_SLOTS) * crate::buf_pool::buf_size(1)) as nat,
                |i: int| 0u8,
            ),
            rt@.pool.free == crate::task_slab::index_range(
                READ_SLOTS,
                (READ_SLOTS + WRITE_SLOTS) as u32,
            ),
            rt@.pool.rc == Seq::new(WRITE_SLOTS as nat, |i: int| 0u32),
            rt@.ring == (crate::buf_ring::RingView {
                entries: initial_ring(rt@.pool),
                tail: READ_SLOTS as u16,
            }),
            rt@.pending == Seq::<Sqe>::empty(),
            rt@.polls == Seq::<PollFrame>::empty(),
            rt@.dead == Seq::<SlabIdx>::empty(),
            rt@.wakes == Seq::<WakeUp>::empty(),
            rt@.yields == Seq::<SlabIdx>::empty(),
            rt@.postponed == Seq::<Cqe>::empty(),
            rt@.phase == Phase::Wake,
    {
        let buffer: BufPool<1> = BufPool::new(READ_SLOTS, WRITE_SLOTS);
        let mut entries: Vec<RingEntry> = Vec::new();
        let mut i: u32 = 0;
        while i < READ_SLOTS
            invariant
                i <= READ_SLOTS,
                buffer.wf(),
                buffer@.read_count == READ_SLOTS,
                entries@.len() == i,
                forall|j: int| 0 <= j < i ==> #[trigger] entries@[j] == ring_entry(buffer@, j),
            decreases READ_SLOTS - i,
        {
            entries.push(
                RingEntry {
                    addr: buffer.read_buf_addr(i) as u64,
                    len: BufPool::<1>::slot_size() as u32,
                    bid: i as u16,
                },
            );
            i = i + 1;
        }
        assert(entries@ =~= initial_ring(buffer@));
        assert(512u16 & 511u16 == 0) by (bit_vector);
        let rt = Runtime {
            tasks: Slab::with_capacity(TASK_SLOTS),
            buffer,
            buf_ring: BufRing::new(entries),
            pending: Vec::new(),
            polls: Vec::new(),
            free_list: Vec::new(),
            wake_list: VecDeque::new(),
            yield_list: VecDeque::new(),
            postponed: Vec::new(),
            phase: Phase::Wake,
        };
        assert forall|k: u32| #[trigger] rt@.slot_ok(k) by {}
        rt
    }

    /// The number of tasks.
    pub fn count(&self) -> (n: u32)
        requires
            self.wf(),
        ensures
            n == self@.slab.tasks.dom().len(),
    {
        self.tasks.count()
    }

    /// Tells whether another task can be taken in.
    pub fn has_room(&self) -> (b: bool)
        requires
            self.wf(),
        ensures
            b == self@.has_room(),
    {
        proof {
            crate::task_slab::law_slots_add_up(self@.slab);
        }
        self.tasks.count() < self.tasks.len() || self.tasks.len()
            <= crate::user_data::TASK_IDX_LIMIT / 2
    }

    /// Takes in a task that holds `future`, without polling it.
    pub fn register_future(&mut self, future: F) -> (idx: SlabIdx)
        requires
            old(self).wf(),
            old(self)@.has_room(),
            crate::task::fits::<F>(),
        ensures
            final(self).wf(),
            idx.0 == old(self)@.slab.next_slot(),
            final(self)@ == old(self)@.registered(future),
    {
        proof {
            crate::model::law_register(self@, future);
            crate::task_slab::law_insert(self@.slab, TaskView::fresh(future));
        }
        let task = Task::new(future);
        let idx = self.tasks.insert(task);
        self.tasks.index_mut(idx).set_task_idx(idx);
        assert(self@.slab.tasks =~= old(self)@.registered(future).slab.tasks);
        idx
    }

    /// Begins the first poll of a task and hands its future out.
    pub fn begin_initial_poll(&mut self, idx: SlabIdx) -> (future: F)
        requires
            old(self).wf(),
            old(self)@.held_outside(idx.0),
            old(self)@.task(idx.0).future is Some,
            !old(self)@.task(idx.0).done,
        ensures
            final(self).wf(),
            Some(future) == old(self)@.task(idx.0).future,
            final(self)@ == old(self)@.poll_begun(
                idx.0,
                PollFrame {
                    info: TaskInfo::without_cqe(idx, 0, i32::MAX, Cause::Start),
                    release: true,
                },
            ),
    {
        proof {
            assert(self@.slot_ok(idx.0));
            crate::model::law_begin_poll(
                self@,
                idx.0,
                PollFrame {
                    info: TaskInfo::without_cqe(idx, 0, i32::MAX, Cause::Start),
                    release: true,
                },
            );
        }
        self.polls.push(PollFrame { info: TaskInfo::initial_poll(idx), release: true });
        match self.tasks.index_mut(idx).take_future() {
            Some(future) => future,
            None => vstd::pervasive::unreached(),
        }
    }

    /// Takes in a task and begins its first poll. The task that was being polled
    /// before, if any, is taken up again when that poll ends.
    pub fn spawn(&mut self, future: F) -> (first: F)
        requires
            old(self).wf(),
            old(self)@.has_room(),
            crate::task::fits::<F>(),
        ensures
            final(self).wf(),
            first == future,
            final(self)@ == old(self)@.registered(future).poll_begun(
                old(self)@.slab.next_slot(),
                PollFrame {
                    info: TaskInfo::without_cqe(
                        SlabIdx(old(self)@.slab.next_slot()),
                        0,
                        i32::MAX,
                        Cause::Start,
                    ),
                    release: true,
                },
            ),
    {
        proof {
            crate::model::law_register(self@, future);
        }
        let idx = self.register_future(future);
        self.begin_initial_poll(idx)
    }

    /// Gives back one reference to a task, and hands out the future that goes
    /// with it.
    fn release_task(&mut self, idx: SlabIdx) -> (dropped: Option<F>)
        requires
            old(self).wf(),
            old(self)@.held_outside(idx.0),
        ensures
            final(self).wf(),
            dropped == old(self)@.dropped_by_release(idx.0),
            final(self)@ == old(self)@.released(idx.0),
    {
        proof {
            crate::model::law_release(self@, idx.0);
            assert(self@.slot_ok(idx.0));
        }
        self.tasks.index_mut(idx).release(&mut self.free_list)
    }

    /// Ends the innermost poll: takes the future back, and notes whether it has
    /// completed. The future that is handed out is to be dropped.
    pub fn end_poll(&mut self, future: F, done: bool) -> (dropped: Option<F>)
        requires
            old(self).wf(),
            old(self)@.polling(),
        ensures
            final(self).wf(),
            dropped == (if old(self)@.polls.last().release {
                old(self)@.future_returned(future, done).dropped_by_release(
                    old(self)@.current_idx(),
                )
            } else {
                None
            }),
            final(self)@ == old(self)@.poll_ended(future, done),
    {
        proof {
            crate::model::law_polled_task_is_held(self@);
            crate::model::lemma_future_returned(self@, future, done);
        }
        match self.polls.pop() {
            Some(frame) => {
                let idx = frame.info.tag.task_idx;
                self.tasks.index_mut(idx).put_future(future, done);
                assert(self@ == old(self)@.future_returned(future, done));
                if frame.release {
                    self.release_task(idx)
                } else {
                    None
                }
            },
            None => None,
        }
    }

    /// Tells whether a poll is in progress.
    pub fn is_polling(&self) -> (b: bool)
        ensures
            b == self@.polling(),
    {
        self.polls.len() > 0
    }

    /// What the task in progress knows.
    pub fn current_task(&self) -> (info: TaskInfo)
        requires
            self@.polling(),
        ensures
            info == self@.current(),
    {
        self.polls[self.polls.len() - 1].info
    }

    /// The result of the completion that the task in progress runs for.
    pub fn current_result(&self) -> (result: i32)
        requires
            self@.polling(),
        ensures
            result == self@.current().result,
    {
        self.current_task().result
    }

    /// The flags of the completion that the task in progress runs for.
    pub fn current_cqe_flags(&self) -> (flags: u32)
        requires
            self@.polling(),
        ensures
            flags == self@.current().flags,
    {
        self.current_task().flags
    }

    /// Tells whether the task in progress runs because of a completion.
    pub fn is_completion(&self) -> (b: bool)
        requires
            self@.polling(),
        ensures
            b == (self@.current().cause == Cause::Completion),
    {
        match self.current_task().cause {
            Cause::Completion => true,
            _ => false,
        }
    }

    /// Tells whether the task in progress runs because the answer that it has
    /// committed in the read slot `buf_idx` was written.
    pub fn is_written(&self, buf_idx: u32) -> (b: bool)
        requires
            self@.polling(),
        ensures
            b == (self@.current().cause == Cause::Written(buf_idx)),
    {
        match self.current_task().cause {
            Cause::Written(i) => i == buf_idx,
            _ => false,
        }
    }

    /// Tells whether the task in progress can make `n` more requests.
    pub fn can_submit(&self, n: usize) -> (b: bool)
        requires
            self.wf(),
        ensures
            b == self@.may_submit(n as nat),
    {
        if self.polls.len() == 0 {
            return false;
        }
        proof {
            crate::model::law_polled_task_is_held(self@);
        }
        let rc: u16 = self.tasks.index(self.current_task().tag.task_idx).get_rc();
        n <= (u16::MAX - rc) as usize
    }

    /// The word of a request of the task in progress.
    fn current_udata(&self, multishot: bool, response_gen: u16) -> (w: u64)
        requires
            self@.polling(),
        ensures
            w == self@.current_udata(multishot, response_gen),
    {
        let info = self.current_task();
        let syscall_nb: u16 = if multishot {
            mark_multiple(info.tag.syscall_nb)
        } else {
            info.tag.syscall_nb
        };
        let payload = UserDataPayload { task_idx: info.tag.task_idx, response_gen, syscall_nb };
        payload.into_user_data()
    }

    /// Queues a request of the task in progress and counts its reference.
    fn submit(&mut self, sqe: Sqe, multishot: bool)
        requires
            old(self).wf(),
            old(self)@.may_submit(1),
        ensures
            final(self).wf(),
            final(self)@ == old(self)@.submitted(sqe, multishot),
    {
        proof {
            crate::model::law_submit(self@, sqe, multishot);
            crate::model::law_polled_task_is_held(self@);
        }
        let idx = self.current_task().tag.task_idx;
        if multishot {
            self.tasks.index_mut(idx).set_multishot();
        }
        self.tasks.index_mut(idx).inc_rc();
        self.pending.push(sqe);
        assert(self@.slab.tasks =~= old(self)@.submitted(sqe, multishot).slab.tasks);
    }

    /// Queues a request that belongs to no task.
    pub fn sqe_queue_push(&mut self, sqe: Sqe)
        requires
            old(self).wf(),
        ensures
            final(self).wf(),
            final(self)@ == (RuntimeView { pending: old(self)@.pending.push(sqe), ..old(self)@ }),
    {
        self.pending.push(sqe);
        proof {
            crate::model::lemma_same_slots(old(self)@, self@);
        }
    }

    /// Reads from a connection into a slot that the kernel picks.
    pub fn submit_read(&mut self, fd: u32)
        requires
            old(self).wf(),
            old(self)@.may_submit(1),
        ensures
            final(self).wf(),
            final(self)@ == old(self)@.submitted(
                Sqe::Read {
                    fd,
                    len: crate::buf_pool::buf_size(1) as u32,
                    buf_group: BUF_GROUP,
                    user_data: old(self)@.current_udata(false, 0),
                },
                false,
            ),
    {
        let user_data: u64 = self.current_udata(false, 0);
        let len: u32 = BufPool::<1>::slot_size() as u32;
        self.submit(Sqe::Read { fd, len, buf_group: BUF_GROUP, user_data }, false);
    }

    /// Accepts one connection.
    pub fn submit_accept(&mut self, listen_fd: i32)
        requires
            old(self).wf(),
            old(self)@.may_submit(1),
        ensures
            final(self).wf(),
            final(self)@ == old(self)@.submitted(
                Sqe::Accept { listen_fd, user_data: old(self)@.current_udata(false, 0) },
                false,
            ),
    {
        let user_data: u64 = self.current_udata(false, 0);
        self.submit(Sqe::Accept { listen_fd, user_data }, false);
    }

    /// Writes `len` bytes of the write slot number `buf_id`, counted from the first
    /// write slot, to a connection. The request names the slot by its position in
    /// the table of registered buffers.
    pub fn submit_write(&mut self, fd: u32, buf_id: u16, len: u32)
        requires
            old(self).wf(),
            old(self)@.may_submit(1),
            buf_id < old(self)@.pool.rc.len(),
        ensures
            final(self).wf(),
            final(self)@ == old(self)@.submitted(
                Sqe::WriteFixed {
                    fd,
                    addr: old(self)@.pool.address(
                        1,
                        old(self)@.pool.read_count + buf_id,
                    ) as usize,
                    len,
                    buf_index: (old(self)@.pool.read_count + buf_id) as u16,
                    user_data: old(self)@.current_udata(false, 0),
                },
                false,
            ),
    {
        let user_data: u64 = self.current_udata(false, 0);
        let addr: usize = self.buffer.write_buf_ptr(buf_id);
        let buf_index: u16 = (self.buffer.read_count() + buf_id as u32) as u16;
        self.submit(Sqe::WriteFixed { fd, addr, len, buf_index, user_data }, false);
    }

    /// Receives from a connection until it ends; every completion polls the task.
    pub fn submit_recv_multishot(&mut self, fd: u32)
        requires
            old(self).wf(),
            old(self)@.may_submit(1),
        ensures
            final(self).wf(),
            final(self)@ == old(self)@.submitted(
                Sqe::RecvMulti {
                    fd,
                    buf_group: BUF_GROUP,
                    user_data: old(self)@.current_udata(true, 0),
                },
                true,
            ),
    {
        let user_data: u64 = self.current_udata(true, 0);
        self.submit(Sqe::RecvMulti { fd, buf_group: BUF_GROUP, user_data }, true);
    }

    /// Accepts connections one after the other; every completion polls the task.
    pub fn submit_accept_multishot(&mut self, listen_fd: i32)
        requires
            old(self).wf(),
            old(self)@.may_submit(1),
        ensures
            final(self).wf(),
            final(self)@ == old(self)@.submitted(
                Sqe::AcceptMulti { listen_fd, user_data: old(self)@.current_udata(true, 0) },
                true,
            ),
    {
        let user_data: u64 = self.current_udata(true, 0);
        self.submit(Sqe::AcceptMulti { listen_fd, user_data }, true);
    }

    /// Writes the answer in a read slot to its connection. The slot stays with the
    /// task until the completion has come.
    pub fn submit_commit_write(&mut self, addr: usize, fd_idx: u32, len: u32, buf_id: u16)
        requires
            old(self).wf(),
            old(self)@.may_submit(1),
        ensures
            final(self).wf(),
            final(self)@ == old(self)@.submitted(
                Sqe::WriteFixed {
                    fd: fd_idx,
                    addr,
                    len,
                    buf_index: buf_id,
                    user_data: old(self)@.current_udata(false, 0),
                },
                false,
            ),
    {
        let user_data: u64 = self.current_udata(false, 0);
        let sqe = Sqe::WriteFixed { fd: fd_idx, addr, len, buf_index: buf_id, user_data };
        self.submit(sqe, false);
    }

    /// Connects a socket to the address of `addrlen` bytes at `addr`, which has to
    /// stay there until the completion has come.
    pub fn submit_connect(&mut self, fd: u32, addr: usize, addrlen: u32)
        requires
            old(self).wf(),
            old(self)@.may_submit(1),
        ensures
            final(self).wf(),
            final(self)@ == old(self)@.submitted(
                Sqe::Connect { fd, addr, addrlen, user_data: old(self)@.current_udata(false, 0) },
                false,
            ),
    {
        let user_data: u64 = self.current_udata(false, 0);
        self.submit(Sqe::Connect { fd, addr, addrlen, user_data }, false);
    }

    /// Creates a TCP socket.
    pub fn submit_socket(&mut self)
        requires
            old(self).wf(),
            old(self)@.may_submit(1),
        ensures
            final(self).wf(),
            final(self)@ == old(self)@.submitted(
                Sqe::Socket {
                    domain: AF_INET,
                    socket_type: STREAM_SOCKET,
                    protocol: 0,
                    user_data: old(self)@.current_udata(false, 0),
                },
                false,
            ),
    {
        let user_data: u64 = self.current_udata(false, 0);
        let sqe = Sqe::Socket {
            domain: AF_INET,
            socket_type: STREAM_SOCKET,
            protocol: 0,
            user_data,
        };
        self.submit(sqe, false);
    }

    /// Gives a read slot back to the kernel, and says what has to be written to
    /// the shared ring.
    pub fn release_read_buf(&mut self, buf_idx: u32) -> (update: RingUpdate)
        requires
            old(self).wf(),
            buf_idx < old(self)@.pool.read_count,
        ensures
            final(self).wf(),
            final(self)@ == (RuntimeView {
                ring: old(self)@.ring.released(ring_entry(old(self)@.pool, buf_idx as int)),
                ..old(self)@
            }),
            update == (RingUpdate {
                offset: (old(self)@.ring.position() * crate::buf_ring::ENTRY_SIZE) as usize,
                entry: ring_entry(old(self)@.pool, buf_idx as int),
                tail: final(self)@.ring.tail,
            }),
    {
        let entry = RingEntry {
            addr: self.buffer.read_buf_addr(buf_idx) as u64,
            len: BufPool::<1>::slot_size() as u32,
            bid: buf_idx as u16,
        };
        let update = self.buf_ring.release(entry);
        proof {
            crate::model::lemma_same_slots(old(self)@, self@);
        }
        update
    }

    /// The buffers.
    pub fn buffer(&self) -> (pool: &BufPool<1>)
        requires
            self.wf(),
        ensures
            pool@ == self@.pool,
            pool.wf(),
    {
        &self.buffer
    }

    /// The buffers, to be changed in place.
    pub fn buffer_mut(&mut self) -> (pool: &mut BufPool<1>)
        requires
            old(self).wf(),
        ensures
            pool@ == old(self)@.pool,
            pool.wf(),
            final(self)@ == (RuntimeView { pool: final(pool)@, ..old(self)@ }),
            (final(pool).wf() && final(pool)@.read_count == old(self)@.pool.read_count)
                ==> final(self).wf(),
    {
        proof {
            assert forall|p: crate::buf_pool::PoolView|
                p.wf(1) && p.read_count == self@.pool.read_count implies (#[trigger] with_pool(
                self@,
                p,
            )).wf() by {
                crate::model::lemma_same_slots(self@, with_pool(self@, p));
            }
        }
        let pool = &mut self.buffer;
        assert(with_pool(old(self)@, final(pool)@).pool == final(pool)@);
        pool
    }

    /// The ring through which read slots are lent to the kernel.
    pub fn buf_ring(&self) -> (ring: &BufRing)
        requires
            self.wf(),
        ensures
            ring@ == self@.ring,
            ring.wf(),
    {
        &self.buf_ring
    }

    /// Hands out the first free write slot.
    pub fn alloc_write_buffer(&mut self) -> (buf: WBuffer<1>)
        requires
            old(self).wf(),
            old(self)@.pool.free.len() > 0,
        ensures
            final(self).wf(),
            buf@ == old(self)@.pool.free[0],
            final(self)@ == (RuntimeView { pool: old(self)@.pool.allocated(), ..old(self)@ }),
    {
        let buf = self.buffer.alloc_write();
        proof {
            crate::model::lemma_same_slots(old(self)@, self@);
        }
        buf
    }

    /// Writes `len` bytes of one write slot to every connection in `fds`. The
    /// position of a connection in `fds` comes back with its completion, and
    /// every completion polls the task.
    pub fn submit_multiple_write(&mut self, fds: &Vec<u32>, buffer: &WBuffer<1>, len: u32)
        requires
            old(self).wf(),
            old(self)@.may_submit(fds@.len()),
            old(self)@.pool.in_use(buffer@),
        ensures
            final(self).wf(),
            final(self)@ == old(self)@.submitted_batch(
                batch_writes(old(self)@, fds@, buffer@, len),
            ),
    {
        let ghost sqes = batch_writes(self@, fds@, buffer@, len);
        let ghost k = self@.current_idx();
        proof {
            crate::model::law_submit_batch(self@, sqes);
            crate::model::law_polled_task_is_held(self@);
        }
        let idx = self.current_task().tag.task_idx;
        let n: usize = fds.len();
        self.tasks.index_mut(idx).set_multishot();
        let mut i: usize = 0;
        assert(sqes.take(0) =~= Seq::<Sqe>::empty());
        assert(self@ =~= old(self)@.submitted_batch(sqes.take(0)));
        while i < n
            invariant
                n == fds@.len(),
                i <= n,
                sqes == batch_writes(old(self)@, fds@, buffer@, len),
                old(self)@.wf(),
                old(self)@.polling(),
                k == old(self)@.current_idx(),
                idx == SlabIdx(k),
                old(self)@.live(k),
                old(self)@.task(k).rc + n <= u16::MAX,
                old(self)@.pool.in_use(buffer@),
                self.linked(),
                self@ == old(self)@.submitted_batch(sqes.take(i as int)),
            decreases n - i,
        {
            let user_data: u64 = self.current_udata(true, i as u16);
            let sqe = buffer.write(&self.buffer, fds[i], len, user_data);
            self.tasks.index_mut(idx).inc_rc();
            self.pending.push(sqe);
            assert(sqe == sqes[i as int]);
            assert(sqes.take(i + 1) =~= sqes.take(i as int).push(sqe));
            i = i + 1;
            assert(self@.pending =~= old(self)@.submitted_batch(sqes.take(i as int)).pending);
            assert(self@.slab.tasks =~= old(self)@.submitted_batch(
                sqes.take(i as int),
            ).slab.tasks);
        }
        assert(sqes.take(n as int) =~= sqes);
    }

    /// The task in progress has seen the last of several completions: it moves
    /// on to its next system call.
    pub fn advance_syscall_nb(&mut self)
        requires
            old(self).wf(),
            old(self)@.polling(),
        ensures
            final(self).wf(),
            final(self)@ == old(self)@.batch_finished(),
    {
        proof {
            crate::model::law_finish_batch(self@);
            crate::model::law_polled_task_is_held(self@);
        }
        match self.polls.pop() {
            Some(mut frame) => {
                self.tasks.index_mut(frame.info.tag.task_idx).advance_syscall_nb();
                frame.info.set_to_next_task();
                self.polls.push(frame);
            },
            None => {},
        }
    }

    /// A waker for the task in progress, with a reference of its own.
    pub fn waker(&mut self) -> (w: Waker)
        requires
            old(self).wf(),
            old(self)@.may_submit(1),
        ensures
            final(self).wf(),
            w@ == old(self)@.current_idx(),
            final(self)@ == old(self)@.retained(old(self)@.current_idx()),
            final(self)@.held_outside(w@),
    {
        proof {
            crate::model::law_polled_task_is_held(self@);
            crate::model::law_retain(self@, self@.current_idx());
        }
        let tag = self.current_task().tag;
        self.tasks.index_mut(tag.task_idx).inc_rc();
        Waker { tag }
    }

    /// Wakes the task of `waker` with `result`. The reference passes over to the
    /// runtime, which polls the task before it enters the kernel again.
    pub fn wake(&mut self, waker: Waker, result: i32)
        requires
            old(self).wf(),
            old(self)@.held_outside(waker@),
        ensures
            final(self).wf(),
            final(self)@ == (RuntimeView {
                wakes: old(self)@.wakes.push(
                    WakeUp { task_idx: SlabIdx(waker@), result, cause: Cause::Woken },
                ),
                ..old(self)@
            }),
    {
        proof {
            crate::model::law_wake(
                self@,
                WakeUp { task_idx: SlabIdx(waker@), result, cause: Cause::Woken },
            );
        }
        self.wake_list.push_back(
            WakeUp { task_idx: waker.tag.task_idx, result, cause: Cause::Woken },
        );
    }

    /// Gives up a waker without waking its task. The future that is handed out
    /// is to be dropped.
    pub fn drop_waker(&mut self, waker: Waker) -> (dropped: Option<F>)
        requires
            old(self).wf(),
            old(self)@.held_outside(waker@),
        ensures
            final(self).wf(),
            dropped == old(self)@.dropped_by_release(waker@),
            final(self)@ == old(self)@.released(waker@),
    {
        self.release_task(waker.tag.task_idx)
    }

    /// The write of the answer that the task in progress has committed in the read
    /// slot `buf_idx` begins. Until it is over, the completions of the task wait.
    pub fn begin_write(&mut self, buf_idx: u32) -> (ticket: WriteTicket)
        requires
            old(self).wf(),
            old(self)@.may_submit(1),
        ensures
            final(self).wf(),
            ticket@ == (TicketView { task: old(self)@.current_idx(), buf_idx }),
            final(self)@ == old(self)@.write_begun(),
            final(self)@.writing(ticket@.task),
    {
        proof {
            crate::model::law_polled_task_is_held(self@);
            crate::model::law_begin_write(self@);
            assert(self@.slot_ok(self@.current_idx()));
        }
        let task_idx = self.current_task().tag.task_idx;
        self.tasks.index_mut(task_idx).inc_rc();
        self.tasks.index_mut(task_idx).begin_write();
        assert(self@.slab.tasks =~= old(self)@.write_begun().slab.tasks);
        WriteTicket { task_idx, buf_idx }
    }

    /// Tells whether a write is still counted.
    pub fn is_writing(&self, ticket: &WriteTicket) -> (b: bool)
        requires
            self.wf(),
        ensures
            b == self@.writing(ticket@.task),
    {
        self.tasks.contains(ticket.task_idx) && self.tasks.index(ticket.task_idx).get_writes() > 0
    }

    /// The write is over: the task that has committed the answer is woken with its
    /// result, and is told which slot it was.
    pub fn end_write(&mut self, ticket: WriteTicket, result: i32)
        requires
            old(self).wf(),
            old(self)@.writing(ticket@.task),
        ensures
            final(self).wf(),
            final(self)@ == old(self)@.write_ended(ticket@.task, ticket@.buf_idx, result),
    {
        proof {
            crate::model::law_end_write(self@, ticket@.task, ticket@.buf_idx, result);
        }
        self.tasks.index_mut(ticket.task_idx).end_write();
        self.wake_list.push_back(
            WakeUp {
                task_idx: ticket.task_idx,
                result,
                cause: Cause::Written(ticket.buf_idx),
            },
        );
    }

    /// Gives up a write. The future that is handed out is to be dropped.
    pub fn drop_write(&mut self, ticket: WriteTicket) -> (dropped: Option<F>)
        requires
            old(self).wf(),
            old(self)@.writing(ticket@.task),
        ensures
            final(self).wf(),
            dropped == old(self)@.dropped_by_release(ticket@.task),
            final(self)@ == old(self)@.write_dropped(ticket@.task).released(ticket@.task),
    {
        proof {
            crate::model::lemma_write_dropped(self@, ticket@.task);
        }
        self.tasks.index_mut(ticket.task_idx).end_write();
        assert(self@ == old(self)@.write_dropped(ticket@.task));
        self.release_task(ticket.task_idx)
    }

    /// Lets the other tasks go first: the task in progress is polled again in
    /// the next pass over the tasks that have yielded.
    pub fn yield_now(&mut self)
        requires
            old(self).wf(),
            old(self)@.may_submit(1),
        ensures
            final(self).wf(),
            final(self)@ == (RuntimeView {
                yields: old(self)@.yields.push(SlabIdx(old(self)@.current_idx())),
                ..old(self)@.retained(old(self)@.current_idx())
            }),
    {
        let ghost k = self@.current_idx();
        proof {
            crate::model::law_polled_task_is_held(self@);
            crate::model::law_retain(self@, k);
            crate::model::law_yield(self@.retained(k), SlabIdx(k));
        }
        let task_idx = self.current_task().tag.task_idx;
        self.tasks.index_mut(task_idx).inc_rc();
        self.yield_list.push_back(task_idx);
    }

    /// Removes the tasks that have lost their last reference.
    fn free_unused_slab_slots(&mut self)
        requires
            old(self).wf(),
        ensures
            final(self).wf(),
            final(self)@ == old(self)@.swept(),
    {
        let ghost v = self@;
        proof {
            crate::model::law_sweep(v);
        }
        let mut i: usize = 0;
        while i < self.free_list.len()
            invariant
                i <= v.dead.len(),
                v == old(self)@,
                v.wf(),
                self.linked(),
                self@ == (RuntimeView {
                    slab: crate::model::removed_all(v.slab, v.dead.take(i as int)),
                    ..v
                }),
            decreases v.dead.len() - i,
        {
            proof {
                crate::model::lemma_removed_all(v, i as int);
                let x = v.dead[i as int];
                assert(v.dead.contains(x));
                assert(v.slot_ok(x.0));
                assert(!v.dead.take(i as int).contains(x)) by {
                    if v.dead.take(i as int).contains(x) {
                        let j = v.dead.take(i as int).index_of(x);
                        assert(v.dead[j] == v.dead[i as int]);
                    }
                }
                assert(self@.slab.tasks.contains_key(x.0));
                assert(v.dead.take(i + 1).drop_last() =~= v.dead.take(i as int));
            }
            let idx = self.free_list[i];
            self.tasks.remove_dropped_task(idx);
            i = i + 1;
        }
        assert(v.dead.take(i as int) =~= v.dead);
        self.free_list.clear();
    }

    /// The position of the first postponed completion whose task is free to take
    /// it; the number of postponed completions if there is none.
    fn first_ready(&self) -> (i: usize)
        requires
            self.wf(),
        ensures
            i == self@.ready_from(0),
            i <= self@.postponed.len(),
    {
        let mut i: usize = 0;
        while i < self.postponed.len() && self.is_on_hold(&self.postponed[i])
            invariant
                self.wf(),
                i <= self@.postponed.len(),
                self@.ready_from(0) == self@.ready_from(i as int),
            decreases self.postponed.len() - i,
        {
            i = i + 1;
        }
        proof {
            crate::model::lemma_ready_from(self@, i as int);
        }
        i
    }

    /// Tells whether a completion belongs to a task whose committed answer is being
    /// written.
    fn is_on_hold(&self, cqe: &Cqe) -> (b: bool)
        requires
            self.wf(),
        ensures
            b == self@.on_hold(*cqe),
    {
        if is_internal_cqe(cqe.user_data) {
            return false;
        }
        let idx = TaskInfo::from_cqe(cqe).tag.task_idx;
        self.tasks.contains(idx) && self.tasks.index(idx).get_writes() > 0
    }

    /// Tells whether a task is yet to be polled for an answer that was written.
    fn is_written_due(&self, idx: SlabIdx) -> (b: bool)
        ensures
            b == self@.written(idx.0),
    {
        let mut i: usize = 0;
        while i < self.wake_list.len()
            invariant
                i <= self@.wakes.len(),
                forall|j: int|
                    0 <= j < i ==> !((#[trigger] self@.wakes[j]).task_idx.0 == idx.0
                        && self@.wakes[j].cause is Written),
            decreases self.wake_list.len() - i,
        {
            let wake = self.wake_list[i];
            if wake.task_idx.0 == idx.0 {
                if let Cause::Written(_) = wake.cause {
                    assert(self@.wakes[i as int] == wake);
                    return true;
                }
            }
            i = i + 1;
        }
        false
    }

    /// Tells whether a completion of a task is kept.
    fn is_kept_for(&self, idx: SlabIdx) -> (b: bool)
        ensures
            b == self@.keeps(idx.0),
    {
        let mut i: usize = 0;
        while i < self.postponed.len()
            invariant
                i <= self@.postponed.len(),
                forall|j: int|
                    0 <= j < i ==> crate::user_data::unpack(
                        (#[trigger] self@.postponed[j]).user_data,
                    ).task_idx.0 != idx.0,
            decreases self.postponed.len() - i,
        {
            let kept = UserDataPayload::from_user_data(self.postponed[i].user_data);
            if kept.task_idx.0 == idx.0 {
                assert(crate::user_data::unpack(self@.postponed[i as int].user_data) == kept);
                return true;
            }
            i = i + 1;
        }
        false
    }

    /// Tells whether a completion has to wait.
    fn must_wait(&self, cqe: &Cqe) -> (b: bool)
        requires
            self.wf(),
        ensures
            b == self@.waits(*cqe),
    {
        if is_internal_cqe(cqe.user_data) {
            return false;
        }
        let idx = TaskInfo::from_cqe(cqe).tag.task_idx;
        self.is_on_hold(cqe) || self.is_written_due(idx) || self.is_kept_for(idx)
    }

    /// One step of the event loop. A turn polls the woken tasks until none is
    /// left, takes in the postponed completions whose task is free again, polls
    /// once every task that had yielded before, then removes the finished tasks,
    /// stops if none is left, and enters the kernel.
    pub fn step(&mut self) -> (step: Step<F>)
        requires
            old(self).wf(),
            !old(self)@.polling(),
        ensures
            final(self).wf(),
            final(self)@ == old(self)@.stepped(),
            step_fits(old(self)@, step),
    {
        proof {
            assert(self.yield_list.len() == self@.yields.len());
            crate::model::law_step(self@);
        }
        match self.phase {
            Phase::Wake => match self.wake_list.pop_front() {
                Some(wake) => {
                    proof {
                        crate::model::lemma_wake_taken(old(self)@);
                    }
                    let nb: u16 = self.tasks.index(wake.task_idx).get_syscall_nb();
                    let info = TaskInfo::wake(wake.task_idx, nb, wake.result, wake.cause);
                    into_step(self.run(info, true))
                },
                None => {
                    let i: usize = self.first_ready();
                    if i < self.postponed.len() {
                        let cqe = self.postponed.remove(i);
                        proof {
                            crate::model::lemma_same_slots(old(self)@, self@);
                            assert(self@.accepts(cqe) == old(self)@.accepts(cqe));
                        }
                        if self.can_dispatch(&cqe) {
                            return into_step(self.handle(&cqe));
                        }
                        return Step::Continue;
                    }
                    self.phase = Phase::Yield { left: self.yield_list.len() };
                    Step::Continue
                },
            },
            Phase::Yield { left } => if left > 0 {
                proof {
                    crate::model::lemma_yield_taken(self@, left);
                }
                self.phase = Phase::Yield { left: left - 1 };
                match self.yield_list.pop_front() {
                    Some(idx) => {
                        let nb: u16 = self.tasks.index(idx).get_syscall_nb();
                        into_step(self.run(TaskInfo::wake(idx, nb, 0, Cause::Yielded), true))
                    },
                    None => Step::Continue,
                }
            } else {
                self.phase = Phase::Enter;
                Step::Continue
            },
            Phase::Enter => {
                let wait = self.wake_list.len() == 0 && self.yield_list.len() == 0
                    && self.first_ready() == self.postponed.len();
                self.free_unused_slab_slots();
                self.phase = Phase::Wake;
                if self.tasks.count() == 0 {
                    return Step::Done;
                }
                let mut sqes: Vec<Sqe> = Vec::new();
                std::mem::swap(&mut sqes, &mut self.pending);
                Step::Submit { sqes, wait }
            },
        }
    }

    /// Takes in a completion, or lets it wait if its task has committed an answer
    /// and was not polled yet for the end of its write.
    ///
    /// A write from a slot of the pool gives its reference back, and other
    /// internal completions need nothing. A completion with the number its task
    /// waits for polls the task. Any other number is ignored: the completion only
    /// gives its reference back. A reference goes with the last completion of a
    /// request, and when the task is polled, not before the poll has ended.
    pub fn dispatch(&mut self, cqe: &Cqe) -> (d: Dispatch<F>)
        requires
            old(self).wf(),
            !old(self)@.polling(),
            old(self)@.accepts(*cqe),
        ensures
            final(self).wf(),
            final(self)@ == old(self)@.dispatched(*cqe),
            d == old(self)@.dispatch_outcome(*cqe),
    {
        proof {
            crate::model::law_dispatch(self@, *cqe);
        }
        if self.must_wait(cqe) {
            self.postponed.push(*cqe);
            Dispatch::Handled
        } else {
            self.handle(cqe)
        }
    }

    /// Takes in a completion whose task is free to take it.
    fn handle(&mut self, cqe: &Cqe) -> (d: Dispatch<F>)
        requires
            old(self).wf(),
            !old(self)@.polling(),
            old(self)@.accepts(*cqe),
        ensures
            final(self).wf(),
            final(self)@ == old(self)@.handled(*cqe),
            d == old(self)@.handle_outcome(*cqe),
    {
        proof {
            crate::model::law_handle(self@, *cqe);
        }
        if is_internal_cqe(cqe.user_data) {
            if is_wbuf_udata(cqe.user_data) {
                self.buffer.on_write_cqe(decode_wbuf_udata(cqe.user_data));
            }
            return Dispatch::Handled;
        }
        let mut info = TaskInfo::from_cqe(cqe);
        let idx = info.tag.task_idx;
        let last = !is_more(cqe.flags);
        match self.tasks.index(idx).evaluate_syscall_nb(info.tag.syscall_nb) {
            SyscallNbCompResult::Normal => {
                proof {
                    let t = TaskView {
                        syscall_nb: (self@.task(idx.0).syscall_nb + 1) as u16,
                        ..self@.task(idx.0)
                    };
                    assert(self@.slot_ok(idx.0));
                    crate::model::lemma_task_changed(self@, idx.0, t);
                }
                info.tag.syscall_nb = info.tag.syscall_nb + 1;
                self.tasks.index_mut(idx).augmente_syscall_nb();
                assert(self@ == old(self)@.moved_on(idx.0));
                self.run(info, last)
            },
            SyscallNbCompResult::Multiple => self.run(info, last),
            SyscallNbCompResult::Expired | SyscallNbCompResult::Error => {
                if last {
                    self.give_back(idx)
                } else {
                    Dispatch::Handled
                }
            },
        }
    }

    /// Gives back one reference to a task, and says whether its future goes.
    fn give_back(&mut self, idx: SlabIdx) -> (d: Dispatch<F>)
        requires
            old(self).wf(),
            old(self)@.held_outside(idx.0),
        ensures
            final(self).wf(),
            final(self)@ == old(self)@.released(idx.0),
            d == old(self)@.release_outcome(idx.0),
    {
        match self.release_task(idx) {
            Some(future) => Dispatch::Drop(future),
            None => Dispatch::Handled,
        }
    }

    /// Runs a task that was picked.
    fn run(&mut self, info: TaskInfo, release: bool) -> (d: Dispatch<F>)
        requires
            old(self).wf(),
            !old(self)@.polling(),
            old(self)@.held_outside(info.tag.task_idx.0),
        ensures
            final(self).wf(),
            final(self)@ == old(self)@.resumed(info.tag.task_idx.0, info, release),
            d == old(self)@.resume_outcome(info.tag.task_idx.0, release),
    {
        let idx = info.tag.task_idx;
        proof {
            crate::model::law_resume(self@, idx.0, info, release);
            assert(self@.slot_ok(idx.0));
        }
        if self.tasks.index(idx).is_done() {
            return if release {
                self.give_back(idx)
            } else {
                Dispatch::Handled
            };
        }
        self.polls.push(PollFrame { info, release });
        match self.tasks.index_mut(idx).take_future() {
            Some(future) => Dispatch::Poll(future),
            None => vstd::pervasive::unreached(),
        }
    }

    /// Tells whether a task has references that are not spoken for.
    pub fn is_held_outside(&self, idx: SlabIdx) -> (b: bool)
        requires
            self.wf(),
        ensures
            b == self@.held_outside(idx.0),
    {
        if !self.tasks.contains(idx) {
            return false;
        }
        let ghost k = idx.0;
        proof {
            assert(self@.slot_ok(k));
        }
        let mut holders: usize = 0;
        let mut i: usize = 0;
        while i < self.wake_list.len()
            invariant
                i <= self@.wakes.len(),
                k == idx.0,
                self@.holders(k) <= u16::MAX,
                holders == crate::refs::count_refs(self@.wakes.take(i as int), k),
            decreases self.wake_list.len() - i,
        {
            proof {
                crate::refs::lemma_count_take(self@.wakes, i as int, k);
            }
            if self.wake_list[i].task_idx.0 == idx.0 {
                holders = holders + 1;
            }
            i = i + 1;
        }
        assert(self@.wakes.take(i as int) =~= self@.wakes);
        let ghost woken = holders;
        i = 0;
        assert(self@.yields.take(0) =~= Seq::empty());
        while i < self.yield_list.len()
            invariant
                i <= self@.yields.len(),
                k == idx.0,
                self@.holders(k) <= u16::MAX,
                woken == crate::refs::count_refs(self@.wakes, k),
                holders == woken + crate::refs::count_refs(self@.yields.take(i as int), k),
            decreases self.yield_list.len() - i,
        {
            proof {
                crate::refs::lemma_count_take(self@.yields, i as int, k);
            }
            if self.yield_list[i].0 == idx.0 {
                holders = holders + 1;
            }
            i = i + 1;
        }
        assert(self@.yields.take(i as int) =~= self@.yields);
        let ghost listed = holders;
        i = 0;
        assert(self@.polls.take(0) =~= Seq::empty());
        while i < self.polls.len()
            invariant
                i <= self@.polls.len(),
                k == idx.0,
                self@.holders(k) <= u16::MAX,
                listed == crate::refs::count_refs(self@.wakes, k) + crate::refs::count_refs(
                    self@.yields,
                    k,
                ),
                holders == listed + crate::refs::count_refs(self@.polls.take(i as int), k),
            decreases self.polls.len() - i,
        {
            proof {
                crate::refs::lemma_count_take(self@.polls, i as int, k);
            }
            if self.polls[i].info.tag.task_idx.0 == idx.0 {
                holders = holders + 1;
            }
            i = i + 1;
        }
        assert(self@.polls.take(i as int) =~= self@.polls);
        let task = self.tasks.index(idx);
        holders + (task.get_writes() as usize) < task.get_rc() as usize
    }

    /// Tells whether a waker's reference is still counted.
    pub fn can_wake(&self, waker: &Waker) -> (b: bool)
        requires
            self.wf(),
        ensures
            b == self@.held_outside(waker@),
    {
        self.is_held_outside(waker.tag.task_idx)
    }

    /// Tells whether a completion answers a request that is in flight.
    pub fn can_dispatch(&self, cqe: &Cqe) -> (b: bool)
        requires
            self.wf(),
        ensures
            b == self@.accepts(*cqe),
    {
        if is_internal_cqe(cqe.user_data) {
            !is_wbuf_udata(cqe.user_data) || self.buffer.is_in_use(
                decode_wbuf_udata(cqe.user_data),
            )
        } else {
            self.is_held_outside(TaskInfo::from_cqe(cqe).tag.task_idx)
        }
    }
}

/// The step that what is to be done about a task amounts to.
fn into_step<F>(d: Dispatch<F>) -> (step: Step<F>)
    ensures
        step == step_of(d),
{
    match d {
        Dispatch::Poll(future) => Step::Poll(future),
        Dispatch::Drop(future) => Step::Drop(future),
        Dispatch::Handled => Step::Continue,
    }
}

/// The step that what is to be done about a task amounts to.
pub open spec fn step_of<F>(d: Dispatch<F>) -> Step<F> {
    match d {
        Dispatch::Poll(future) => Step::Poll(future),
        Dispatch::Drop(future) => Step::Drop(future),
        Dispatch::Handled => Step::Continue,
    }
}

/// The writes of one slot to every connection in `fds`.
pub open spec fn batch_writes<F>(
    v: RuntimeView<F>,
    fds: Seq<u32>,
    abs_idx: u32,
    len: u32,
) -> Seq<Sqe> {
    Seq::new(
        fds.len(),
        |i: int|
            Sqe::WriteFixed {
                fd: fds[i],
                addr: v.pool.address(1, abs_idx as int) as usize,
                len,
                buf_index: abs_idx as u16,
                user_data: v.current_udata(true, i as u16),
            },
    )
}

/// What a step of the event loop asks for in the state `v`.
pub open spec fn step_fits<F>(v: RuntimeView<F>, step: Step<F>) -> bool {
    match v.step_outcome() {
        Some(d) => step == step_of(d),
        None => if v.phase != Phase::Enter {
            step == Step::<F>::Continue
        } else if v.swept().idle() {
            step == Step::<F>::Done
        } else {
            &&& step is Submit
            &&& step->sqes@ == v.pending
            &&& step->wait <==> v.may_wait()
        },
    }
}

/// Starts the event loop with `future` as its first task, and hands the future
/// out for its first poll. After that poll the loop is driven by
/// [`Runtime::step`] until it is done.
pub fn block_on<F>(rt: &mut Runtime<F>, future: F) -> (first: F)
    requires
        old(rt).wf(),
        old(rt)@.has_room(),
        !old(rt)@.polling(),
        crate::task::fits::<F>(),
    ensures
        final(rt).wf(),
        first == future,
        final(rt)@ == (RuntimeView { phase: Phase::Wake, ..old(rt)@ }).registered(
            future,
        ).poll_begun(
            old(rt)@.slab.next_slot(),
            PollFrame {
                info: TaskInfo::without_cqe(
                    SlabIdx(old(rt)@.slab.next_slot()),
                    0,
                    i32::MAX,
                    Cause::Start,
                ),
                release: true,
            },
        ),
{
    rt.phase = Phase::Wake;
    proof {
        crate::model::lemma_same_slots(old(rt)@, rt@);
    }
    rt.spawn(future)
}

/// Tells whether entering the kernel has failed: there were requests to submit,
/// and none was taken.
pub fn submission_failed(requests: usize, submitted: usize) -> (b: bool)
    ensures
        b == (requests > 0 && submitted == 0),
{
    requests > 0 && submitted == 0
}

} // verus!
