//! Completions, and what a task learns about the one that woke it.

use crate::task::successor;
use crate::task_slab::SlabIdx;
use crate::user_data::UserDataPayload;
use vstd::prelude::*;

verus! {

/// A completion queue entry of the `io-uring` crate.
#[verifier::external_type_specification]
#[verifier::external_body]
pub struct ExCqueueEntry(io_uring::cqueue::Entry);

/// The word that `cqueue::Entry::user_data` gives.
pub uninterp spec fn entry_user_data(entry: io_uring::cqueue::Entry) -> u64;

/// The result that `cqueue::Entry::result` gives.
pub uninterp spec fn entry_result(entry: io_uring::cqueue::Entry) -> i32;

/// The flags that `cqueue::Entry::flags` gives.
pub uninterp spec fn entry_flags(entry: io_uring::cqueue::Entry) -> u32;

/// `cqueue::Entry::user_data` reads a field of the entry: it gives the same word
/// whenever it is asked.
pub assume_specification[ io_uring::cqueue::Entry::user_data ](
    entry: &io_uring::cqueue::Entry,
) -> (w: u64)
    ensures
        w == entry_user_data(*entry),
;

/// `cqueue::Entry::result` reads a field of the entry: it gives the same number
/// whenever it is asked.
pub assume_specification[ io_uring::cqueue::Entry::result ](
    entry: &io_uring::cqueue::Entry,
) -> (r: i32)
    ensures
        r == entry_result(*entry),
;

/// `cqueue::Entry::flags` reads a field of the entry: it gives the same flags
/// whenever it is asked.
pub assume_specification[ io_uring::cqueue::Entry::flags ](
    entry: &io_uring::cqueue::Entry,
) -> (f: u32)
    ensures
        f == entry_flags(*entry),
;

/// `cqueue::more` tests the flag `IORING_CQE_F_MORE`, the second lowest bit.
pub assume_specification[ io_uring::cqueue::more ](flags: u32) -> (b: bool)
    ensures
        b == (flags & 2u32 != 0),
;

/// The request will complete again.
pub open spec fn more_to_come(flags: u32) -> bool {
    flags & 2u32 != 0
}

/// The buffer that the kernel picked for the request.
pub open spec fn picked_buffer(flags: u32) -> u32 {
    flags / 0x1_0000
}

/// Tells whether the request will complete again.
pub fn is_more(flags: u32) -> (b: bool)
    ensures
        b == more_to_come(flags),
{
    io_uring::cqueue::more(flags)
}

/// The buffer that the kernel picked for the request.
pub fn buffer_id(flags: u32) -> (id: u32)
    ensures
        id == picked_buffer(flags),
        id <= 0xFFFF,
{
    assert(flags >> 16 == flags / 0x1_0000 && flags >> 16 <= 0xFFFF) by (bit_vector);
    flags >> 16
}

/// A completion: the word of the request, its result, and flags.
#[derive(Clone, Copy, Debug, PartialEq, Eq, Structural)]
pub struct Cqe {
    pub user_data: u64,
    pub result: i32,
    pub flags: u32,
}

impl Cqe {
    /// Reads the three fields of an entry.
    pub fn from_entry(entry: &io_uring::cqueue::Entry) -> (c: Self)
        ensures
            c == (Cqe {
                user_data: entry_user_data(*entry),
                result: entry_result(*entry),
                flags: entry_flags(*entry),
            }),
    {
        Cqe { user_data: entry.user_data(), result: entry.result(), flags: entry.flags() }
    }
}

/// Which system call of which task.
#[derive(Clone, Copy, Debug, PartialEq, Eq, Structural)]
pub struct Tag {
    pub task_idx: SlabIdx,
    pub syscall_nb: u16,
}

impl Tag {
    /// The first system call of a task.
    pub fn new(task_idx: SlabIdx) -> (tag: Self)
        ensures
            tag == (Tag { task_idx, syscall_nb: 0 }),
    {
        Tag { task_idx, syscall_nb: 0 }
    }
}

/// Why a task is polled.
#[derive(Clone, Copy, Debug, PartialEq, Eq, Structural)]
pub enum Cause {
    /// It was just taken in.
    Start,
    /// A request of it has completed.
    Completion,
    /// A waker was used.
    Woken,
    /// The answer that it has committed in this read slot was written.
    Written(u32),
    /// It had yielded.
    Yielded,
}

/// What a task knows while it is polled.
#[derive(Clone, Copy, Debug, PartialEq, Eq, Structural)]
pub struct TaskInfo {
    pub tag: Tag,
    pub result: i32,
    pub flags: u32,
    pub response_gen: u16,
    pub cause: Cause,
}

impl TaskInfo {
    /// What the completion `cqe` tells the task.
    pub open spec fn of_cqe(cqe: Cqe) -> Self {
        let payload = crate::user_data::unpack(cqe.user_data);
        TaskInfo {
            tag: Tag { task_idx: payload.task_idx, syscall_nb: payload.syscall_nb },
            result: cqe.result,
            flags: cqe.flags,
            response_gen: payload.response_gen,
            cause: Cause::Completion,
        }
    }

    /// What a task knows when it runs for another reason than a completion.
    pub open spec fn without_cqe(
        task_idx: SlabIdx,
        syscall_nb: u16,
        result: i32,
        cause: Cause,
    ) -> Self {
        TaskInfo {
            tag: Tag { task_idx, syscall_nb },
            result,
            flags: 0,
            response_gen: u16::MAX,
            cause,
        }
    }

    /// For the first poll of a task.
    pub fn initial_poll(task_idx: SlabIdx) -> (info: Self)
        ensures
            info == TaskInfo::without_cqe(task_idx, 0, i32::MAX, Cause::Start),
    {
        TaskInfo {
            tag: Tag::new(task_idx),
            result: i32::MAX,
            flags: 0,
            response_gen: u16::MAX,
            cause: Cause::Start,
        }
    }

    /// For a task that runs with `result`, but not because of a completion.
    pub fn wake(task_idx: SlabIdx, syscall_nb: u16, result: i32, cause: Cause) -> (info: Self)
        ensures
            info == TaskInfo::without_cqe(task_idx, syscall_nb, result, cause),
    {
        TaskInfo {
            tag: Tag { task_idx, syscall_nb },
            result,
            flags: 0,
            response_gen: u16::MAX,
            cause,
        }
    }

    /// For a task that a completion wakes.
    pub fn from_cqe(cqe: &Cqe) -> (info: Self)
        ensures
            info == TaskInfo::of_cqe(*cqe),
    {
        let payload = UserDataPayload::from_user_data(cqe.user_data);
        TaskInfo {
            tag: Tag { task_idx: payload.task_idx, syscall_nb: payload.syscall_nb },
            result: cqe.result,
            flags: cqe.flags,
            response_gen: payload.response_gen,
            cause: Cause::Completion,
        }
    }

    /// For a task that the completion in `entry` wakes.
    pub fn from_entry(entry: &io_uring::cqueue::Entry) -> (info: Self)
        ensures
            info == TaskInfo::of_cqe(
                (Cqe {
                    user_data: entry_user_data(*entry),
                    result: entry_result(*entry),
                    flags: entry_flags(*entry),
                }),
            ),
    {
        TaskInfo::from_cqe(&Cqe::from_entry(entry))
    }

    /// Moves on after the last of several completions.
    pub fn set_to_next_task(&mut self)
        ensures
            *final(self) == (TaskInfo {
                tag: Tag {
                    task_idx: old(self).tag.task_idx,
                    syscall_nb: crate::task::next_syscall_nb(old(self).tag.syscall_nb),
                },
                ..*old(self)
            }),
    {
        self.tag = Tag {
            task_idx: self.tag.task_idx,
            syscall_nb: successor(self.tag.syscall_nb),
        };
    }
}

} // verus!
