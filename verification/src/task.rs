//! Task records: a future, the references that keep it alive, and the number of
//! the system call it waits for.

use crate::task_slab::SlabIdx;
use vstd::prelude::*;

verus! {

/// Set in a system call number while the task expects several completions.
pub const MULTIPLE_MASK: u16 = 0x8000;

/// How the number in a completion compares with the number a task waits for.
#[derive(Clone, Copy, Debug, PartialEq, Eq, Structural)]
pub enum SyscallNbCompResult {
    /// Older than the task: stale.
    Expired,
    /// The one completion the task waits for.
    Normal,
    /// One of several completions the task waits for.
    Multiple,
    /// Newer than the task, or of the other kind.
    Error,
}

/// The system call number without its mark for several completions.
pub open spec fn rank(nb: u16) -> int {
    nb as int % 0x8000
}

/// The system call number carries the mark for several completions.
pub open spec fn is_multiple(nb: u16) -> bool {
    nb >= MULTIPLE_MASK
}

/// The number `nb` with the mark for several completions.
pub open spec fn with_multiple(nb: u16) -> u16 {
    (rank(nb) + MULTIPLE_MASK) as u16
}

/// The number that follows `nb` once all its completions have come.
pub open spec fn next_syscall_nb(nb: u16) -> u16 {
    (rank(nb) + 1) as u16
}

/// How `incoming` compares with the awaited number `stored`.
pub open spec fn compare_syscall_nb(stored: u16, incoming: u16) -> SyscallNbCompResult {
    if incoming == stored {
        if is_multiple(stored) {
            SyscallNbCompResult::Multiple
        } else {
            SyscallNbCompResult::Normal
        }
    } else if rank(incoming) < rank(stored) {
        SyscallNbCompResult::Expired
    } else {
        SyscallNbCompResult::Error
    }
}

/// Sets the mark for several completions.
pub fn mark_multiple(nb: u16) -> (r: u16)
    ensures
        r == with_multiple(nb),
{
    assert((nb | 0x8000) == (nb % 0x8000) + 0x8000) by (bit_vector);
    nb | MULTIPLE_MASK
}

/// The number after the last of several completions.
pub fn successor(nb: u16) -> (r: u16)
    ensures
        r == next_syscall_nb(nb),
{
    assert((nb & 0x7FFF) == nb % 0x8000) by (bit_vector);
    (nb & 0x7FFF) + 1
}

/// The alignment of a task header, which that of a future may not exceed.
pub const HEADER_ALIGN: usize = 32;

/// The largest future for which a header of 32 bytes and the future, rounded up
/// to a multiple of 32, take at most `u32::MAX` bytes.
pub const MAX_FUTURE_SIZE: usize = 0xFFFF_FFC0;

/// Futures of this type can be held by a task.
pub open spec fn fits<F>() -> bool {
    vstd::layout::align_of::<F>() <= HEADER_ALIGN && vstd::layout::size_of::<F>()
        <= MAX_FUTURE_SIZE
}

/// The part of a task that its handle points to.
pub struct RawTask<F> {
    future: Option<F>,
    ref_counter: u16,
    syscall_nb: u16,
    slab_idx: Option<SlabIdx>,
    writes: u16,
    done: bool,
}

/// Owner of a task record, one pointer wide.
///
/// The record counts references: one for the first poll, one for every request
/// in flight, one for every waker. The future goes when the count reaches zero,
/// also if it has completed before.
pub struct Task<F> {
    raw: Box<RawTask<F>>,
}

/// What a task record holds.
#[verifier::ext_equal]
pub struct TaskView<F> {
    /// The future between two polls; `None` during a poll, and once it was handed
    /// out to be dropped.
    pub future: Option<F>,
    /// The future has completed.
    pub done: bool,
    pub rc: u16,
    pub syscall_nb: u16,
    /// The number of committed answers of the task that are being written.
    pub writes: u16,
    pub slab_idx: Option<SlabIdx>,
}

impl<F> RawTask<F> {
    /// The number of references.
    pub fn get_rc(&self) -> (rc: u16)
        ensures
            rc == self@.rc,
    {
        self.ref_counter
    }
}

impl<F> View for RawTask<F> {
    type V = TaskView<F>;

    closed spec fn view(&self) -> TaskView<F> {
        TaskView {
            future: self.future,
            done: self.done,
            rc: self.ref_counter,
            syscall_nb: self.syscall_nb,
            writes: self.writes,
            slab_idx: self.slab_idx,
        }
    }
}

impl<F> View for Task<F> {
    type V = TaskView<F>;

    closed spec fn view(&self) -> TaskView<F> {
        (*self.raw)@
    }
}

impl<F> TaskView<F> {
    /// A task that holds `future` and the reference of its first poll.
    pub open spec fn fresh(future: F) -> Self {
        TaskView {
            future: Some(future),
            done: false,
            rc: 1,
            syscall_nb: 0,
            writes: 0,
            slab_idx: None,
        }
    }

    /// The task after one more reference.
    pub open spec fn retained(self) -> Self {
        TaskView { rc: (self.rc + 1) as u16, ..self }
    }

    /// The task after one reference less; the last one takes the future along.
    pub open spec fn released(self) -> Self {
        TaskView {
            rc: (self.rc - 1) as u16,
            future: if self.rc == 1 {
                None
            } else {
                self.future
            },
            ..self
        }
    }
}

impl<F> Task<F> {
    /// Tells whether futures of this type can be held: see [`fits`].
    pub fn fits() -> (b: bool)
        ensures
            b == fits::<F>(),
    {
        std::mem::align_of::<F>() <= HEADER_ALIGN && std::mem::size_of::<F>() <= MAX_FUTURE_SIZE
    }

    /// A task that holds `future`, with one reference for its first poll.
    pub fn new(future: F) -> (t: Self)
        requires
            fits::<F>(),
        ensures
            t@ == TaskView::fresh(future),
    {
        Task {
            raw: Box::new(
                RawTask {
                    future: Some(future),
                    ref_counter: 1,
                    syscall_nb: 0,
                    slab_idx: None,
                    writes: 0,
                    done: false,
                },
            ),
        }
    }

    /// The number of the system call the task waits for.
    pub fn get_syscall_nb(&self) -> (nb: u16)
        ensures
            nb == self@.syscall_nb,
    {
        self.raw.syscall_nb
    }

    /// Compares the number in a completion with the one the task waits for.
    pub fn evaluate_syscall_nb(&self, incoming: u16) -> (r: SyscallNbCompResult)
        ensures
            r == compare_syscall_nb(self@.syscall_nb, incoming),
    {
        let stored: u16 = self.get_syscall_nb();
        let stored_rank: u16 = stored & !MULTIPLE_MASK;
        let incoming_rank: u16 = incoming & !MULTIPLE_MASK;
        let stored_multiple: u16 = stored & MULTIPLE_MASK;
        let incoming_multiple: u16 = incoming & MULTIPLE_MASK;
        assert((stored & !0x8000) == stored % 0x8000 && (stored & 0x8000) == (if stored >= 0x8000 {
            0x8000u16
        } else {
            0u16
        })) by (bit_vector);
        assert((incoming & !0x8000) == incoming % 0x8000 && (incoming & 0x8000) == (if incoming
            >= 0x8000 {
            0x8000u16
        } else {
            0u16
        })) by (bit_vector);
        if incoming_rank < stored_rank {
            return SyscallNbCompResult::Expired;
        }
        if incoming_rank > stored_rank {
            return SyscallNbCompResult::Error;
        }
        if stored_multiple != incoming_multiple {
            return SyscallNbCompResult::Error;
        }
        if stored_multiple != 0 {
            SyscallNbCompResult::Multiple
        } else {
            SyscallNbCompResult::Normal
        }
    }

    /// Moves on to the next system call number.
    pub fn augmente_syscall_nb(&mut self)
        requires
            old(self)@.syscall_nb < u16::MAX,
        ensures
            final(self)@ == (TaskView {
                syscall_nb: (old(self)@.syscall_nb + 1) as u16,
                ..old(self)@
            }),
    {
        self.raw.syscall_nb = self.raw.syscall_nb + 1;
    }

    /// Announces that the system call completes more than once.
    pub fn set_multishot(&mut self)
        ensures
            final(self)@ == (TaskView {
                syscall_nb: with_multiple(old(self)@.syscall_nb),
                ..old(self)@
            }),
    {
        self.raw.syscall_nb = mark_multiple(self.raw.syscall_nb);
    }

    /// Moves on after the last of several completions: the next number, without
    /// the mark.
    pub fn advance_syscall_nb(&mut self)
        ensures
            final(self)@ == (TaskView {
                syscall_nb: next_syscall_nb(old(self)@.syscall_nb),
                ..old(self)@
            }),
    {
        self.raw.syscall_nb = successor(self.raw.syscall_nb);
    }

    /// Counts one more reference.
    pub fn inc_rc(&mut self)
        requires
            old(self)@.rc < u16::MAX,
        ensures
            final(self)@ == old(self)@.retained(),
    {
        self.raw.ref_counter = self.raw.ref_counter + 1;
    }

    /// Gives one reference back. With the last one the future is handed out to
    /// be dropped, and the slot is put on `free_list`.
    pub fn release(&mut self, free_list: &mut Vec<SlabIdx>) -> (dropped: Option<F>)
        requires
            old(self)@.rc > 0,
        ensures
            final(self)@ == old(self)@.released(),
            dropped == (if old(self)@.rc == 1 {
                old(self)@.future
            } else {
                None
            }),
            final(free_list)@ == (if old(self)@.rc == 1 && old(self)@.slab_idx is Some {
                old(free_list)@.push(old(self)@.slab_idx->0)
            } else {
                old(free_list)@
            }),
    {
        self.raw.ref_counter = self.raw.ref_counter - 1;
        if self.raw.ref_counter == 0 {
            let dropped = self.raw.future.take();
            if let Some(task_idx) = self.raw.slab_idx {
                free_list.push(task_idx);
            }
            dropped
        } else {
            None
        }
    }

    /// The number of references.
    pub fn get_rc(&self) -> (rc: u16)
        ensures
            rc == self@.rc,
    {
        self.raw.ref_counter
    }

    /// Tells the task which slot it stands in.
    pub fn set_task_idx(&mut self, slab_idx: SlabIdx)
        ensures
            final(self)@ == (TaskView { slab_idx: Some(slab_idx), ..old(self)@ }),
    {
        self.raw.slab_idx = Some(slab_idx);
    }

    /// Tells whether the future has completed.
    pub fn is_done(&self) -> (done: bool)
        ensures
            done == self@.done,
    {
        self.raw.done
    }

    /// Takes the future out to be polled; `None` during a poll.
    pub fn take_future(&mut self) -> (future: Option<F>)
        ensures
            future == old(self)@.future,
            final(self)@ == (TaskView { future: None, ..old(self)@ }),
    {
        self.raw.future.take()
    }

    /// Puts the future back after a poll, and notes whether it has completed.
    pub fn put_future(&mut self, future: F, done: bool)
        ensures
            final(self)@ == (TaskView { future: Some(future), done, ..old(self)@ }),
    {
        self.raw.future = Some(future);
        self.raw.done = done;
    }

    /// The number of committed answers that are being written.
    pub fn get_writes(&self) -> (n: u16)
        ensures
            n == self@.writes,
    {
        self.raw.writes
    }

    /// The write of a committed answer begins.
    pub fn begin_write(&mut self)
        requires
            old(self)@.writes < u16::MAX,
        ensures
            final(self)@ == (TaskView { writes: (old(self)@.writes + 1) as u16, ..old(self)@ }),
    {
        self.raw.writes = self.raw.writes + 1;
    }

    /// The write of a committed answer is over.
    pub fn end_write(&mut self)
        requires
            old(self)@.writes > 0,
        ensures
            final(self)@ == (TaskView { writes: (old(self)@.writes - 1) as u16, ..old(self)@ }),
    {
        self.raw.writes = self.raw.writes - 1;
    }

    /// Gives the record up without giving a reference back.
    pub fn into_raw(self) -> (raw: Box<RawTask<F>>)
        ensures
            raw@ == self@,
    {
        self.raw
    }

    /// Takes a record over without counting a reference.
    pub fn from_raw(raw: Box<RawTask<F>>) -> (t: Self)
        ensures
            t@ == raw@,
    {
        Task { raw }
    }
}

/// A completion concerns the task exactly if its number is the awaited one; an
/// older rank is stale, and a stale completion never reaches the future.
pub proof fn law_only_the_awaited_number_polls(stored: u16, incoming: u16)
    ensures
        (compare_syscall_nb(stored, incoming) is Normal || compare_syscall_nb(
            stored,
            incoming,
        ) is Multiple) <==> incoming == stored,
        rank(incoming) < rank(stored) <==> compare_syscall_nb(stored, incoming) is Expired,
{
}

/// After a task has moved on, by either way, everything it was waiting for has
/// become stale, as long as the rank has not reached its end.
pub proof fn law_moving_on_makes_stale(nb: u16)
    requires
        rank(nb) < 0x7FFF,
    ensures
        compare_syscall_nb(next_syscall_nb(nb), nb) is Expired,
        !is_multiple(nb) ==> next_syscall_nb(nb) == nb + 1,
{
}

/// Giving back every reference that was taken leaves the record as it was.
pub proof fn law_retain_release<F>(t: TaskView<F>)
    requires
        0 < t.rc < u16::MAX,
    ensures
        t.retained().released() == t,
{
}

} // verus!
