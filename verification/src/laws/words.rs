//! Words, numbers, flags and entries.

use crate::completion::{buffer_id, is_more, Cause, Cqe, TaskInfo};
use crate::sqe::{build_entries, build_entry, Sqe};
use crate::task::{mark_multiple, successor};
use crate::task_slab::SlabIdx;
use crate::user_data::{
    decode_wbuf_udata, is_internal_cqe, is_wbuf_udata, wbuf_write_udata, UserDataPayload,
};
use io_uring::squeue::Entry;
use vstd::prelude::*;

verus! {

/// A task word has the task in its upper half, then the number, then the position.
pub proof fn law_into_user_data(p: UserDataPayload, w: u64)
    requires
        call_ensures(UserDataPayload::into_user_data, (p,), w),
    ensures
        w >> 32 == p.task_idx.0 as u64,
        (w >> 16) & 0xFFFF == p.syscall_nb as u64,
        w & 0xFFFF == p.response_gen as u64,
{
    crate::laws::lemma_pack(p);
}

/// The fields that are read from a word are those that stand in it.
pub proof fn law_from_user_data(w: u64, p: UserDataPayload)
    requires
        call_ensures(UserDataPayload::from_user_data, (w,), p),
    ensures
        w >> 32 == p.task_idx.0 as u64,
        (w >> 16) & 0xFFFF == p.syscall_nb as u64,
        w & 0xFFFF == p.response_gen as u64,
{
    crate::laws::lemma_unpack(w);
}

/// What is packed comes back, field by field.
pub proof fn law_unpacking_undoes_packing(p: UserDataPayload, w: u64, q: UserDataPayload)
    requires
        call_ensures(UserDataPayload::into_user_data, (p,), w),
        call_ensures(UserDataPayload::from_user_data, (w,), q),
    ensures
        q.task_idx.0 == p.task_idx.0,
        q.syscall_nb == p.syscall_nb,
        q.response_gen == p.response_gen,
{
    crate::user_data::law_user_data_round_trip(p, w);
}

/// The word of a write slot has the highest bit set, and the slot in its lower half;
/// it is recognised, and the slot comes back.
pub proof fn law_slot_word(i: u32, w: u64, internal: bool, slot: bool, j: u32)
    requires
        call_ensures(wbuf_write_udata, (i,), w),
        call_ensures(is_internal_cqe, (w,), internal),
        call_ensures(is_wbuf_udata, (w,), slot),
        call_ensures(decode_wbuf_udata, (w,), j),
    ensures
        w >> 32 == 0x8000_0000,
        w & 0xFFFF_FFFF == i as u64,
        internal,
        slot,
        j == i,
{
    let low = i as u64;
    assert(low <= 0xFFFF_FFFF && w == 0x8000_0000_0000_0000u64 + low ==> w >> 32 == 0x8000_0000
        && w & 0xFFFF_FFFF == low) by (bit_vector);
}

/// A word is internal exactly if its highest bit is set, and that of a write slot
/// exactly if no other bit of its upper half is.
pub proof fn law_internal_words(w: u64, internal: bool, slot: bool)
    requires
        call_ensures(is_internal_cqe, (w,), internal),
        call_ensures(is_wbuf_udata, (w,), slot),
    ensures
        internal <==> w >> 63 == 1,
        slot <==> w >> 32 == 0x8000_0000,
{
    assert(w >> 63 == 1 <==> w >= 0x8000_0000_0000_0000u64) by (bit_vector);
    assert(w >> 32 == 0x8000_0000 <==> 0x8000_0000_0000_0000u64 <= w < 0x8000_0001_0000_0000u64)
        by (bit_vector);
}

/// The mark is the highest bit of a number, and nothing else is touched; the successor
/// is one more than the number without its mark.
pub proof fn law_marks(nb: u16, marked: u16, next: u16)
    requires
        call_ensures(mark_multiple, (nb,), marked),
        call_ensures(successor, (nb,), next),
    ensures
        marked == nb | 0x8000,
        next == (nb & 0x7FFF) + 1,
{
    crate::laws::lemma_marks(nb);
}

/// The second lowest bit of the flags says that more is to come, their upper half
/// which buffer was picked.
pub proof fn law_flags(flags: u32, more: bool, id: u32)
    requires
        call_ensures(is_more, (flags,), more),
        call_ensures(buffer_id, (flags,), id),
    ensures
        more <==> flags & 2 != 0,
        id == flags >> 16,
{
    assert(flags >> 16 == flags / 0x1_0000) by (bit_vector);
}

/// What a completion tells its task is what the completion says, word, result and flags.
pub proof fn law_info_of_a_completion(cqe: &Cqe, info: TaskInfo)
    requires
        call_ensures(TaskInfo::from_cqe, (cqe,), info),
    ensures
        crate::laws::carries(
            cqe.user_data,
            info.tag.task_idx.0,
            info.tag.syscall_nb,
            info.response_gen,
        ),
        info.result == cqe.result,
        info.flags == cqe.flags,
        info.cause == Cause::Completion,
{
    crate::laws::lemma_unpack(cqe.user_data);
}

/// What an entry of the completion queue tells a task is what the entry says.
pub proof fn law_info_of_an_entry(entry: &io_uring::cqueue::Entry, info: TaskInfo, cqe: Cqe)
    requires
        call_ensures(TaskInfo::from_entry, (entry,), info),
        call_ensures(Cqe::from_entry, (entry,), cqe),
    ensures
        cqe.user_data == crate::completion::entry_user_data(*entry),
        cqe.result == crate::completion::entry_result(*entry),
        cqe.flags == crate::completion::entry_flags(*entry),
        crate::laws::carries(
            cqe.user_data,
            info.tag.task_idx.0,
            info.tag.syscall_nb,
            info.response_gen,
        ),
        info.result == cqe.result,
        info.flags == cqe.flags,
        info.cause == Cause::Completion,
{
    crate::laws::lemma_unpack(cqe.user_data);
}

/// What a task knows that runs without a completion.
pub proof fn law_info_without_a_completion(
    idx: SlabIdx,
    nb: u16,
    result: i32,
    cause: Cause,
    first: TaskInfo,
    woken: TaskInfo,
)
    requires
        call_ensures(TaskInfo::initial_poll, (idx,), first),
        call_ensures(TaskInfo::wake, (idx, nb, result, cause), woken),
    ensures
        crate::laws::plain_info(idx.0, 0, i32::MAX, Cause::Start, first),
        crate::laws::plain_info(idx.0, nb, result, cause, woken),
{
}

/// Moving on after several completions changes the number alone.
pub proof fn law_info_moves_on(info: &mut TaskInfo)
    requires
        call_ensures(TaskInfo::set_to_next_task, (info,), ()),
    ensures
        final(info).tag.syscall_nb == (old(info).tag.syscall_nb & 0x7FFF) + 1,
        final(info).tag.task_idx == old(info).tag.task_idx,
        final(info).result == old(info).result,
        final(info).flags == old(info).flags,
        final(info).response_gen == old(info).response_gen,
        final(info).cause == old(info).cause,
{
    crate::laws::lemma_marks(old(info).tag.syscall_nb);
}

/// The entry for a request is built from all that the request says: a read lets the
/// kernel pick the buffer, and whatever opens a connection lets it pick the file slot.
pub proof fn law_entry_of_a_request(sqe: &Sqe, e: Entry)
    requires
        call_ensures(build_entry, (sqe,), e),
    ensures
        match *sqe {
            Sqe::Read { fd, len, buf_group, user_data } => {
                &&& e == crate::sqe::read_entry(fd, len, buf_group, true, user_data)
                &&& crate::sqe::entry_word(e) == user_data
            },
            Sqe::Accept { listen_fd, user_data } => {
                &&& e == crate::sqe::accept_entry(listen_fd, true, user_data)
                &&& crate::sqe::entry_word(e) == user_data
            },
            Sqe::WriteFixed { fd, addr, len, buf_index, user_data } => {
                &&& e == crate::sqe::write_fixed_entry(fd, addr, len, buf_index, user_data)
                &&& crate::sqe::entry_word(e) == user_data
            },
            Sqe::RecvMulti { fd, buf_group, user_data } => {
                &&& e == crate::sqe::recv_multi_entry(fd, buf_group, user_data)
                &&& crate::sqe::entry_word(e) == user_data
            },
            Sqe::AcceptMulti { listen_fd, user_data } => {
                &&& e == crate::sqe::accept_multi_entry(listen_fd, true, user_data)
                &&& crate::sqe::entry_word(e) == user_data
            },
            Sqe::Connect { fd, addr, addrlen, user_data } => {
                &&& e == crate::sqe::connect_entry(fd, addr, addrlen, user_data)
                &&& crate::sqe::entry_word(e) == user_data
            },
            Sqe::Socket { domain, socket_type, protocol, user_data } => {
                &&& e == crate::sqe::socket_entry(domain, socket_type, protocol, true, user_data)
                &&& crate::sqe::entry_word(e) == user_data
            },
        },
{
}

/// As many entries as requests, and at every position the entry for that request.
pub proof fn law_entries_of_requests(sqes: &Vec<Sqe>, entries: Vec<Entry>, i: int, e: Entry)
    requires
        call_ensures(build_entries, (sqes,), entries),
        0 <= i < sqes@.len(),
        call_ensures(build_entry, (&sqes@[i],), e),
    ensures
        entries@.len() == sqes@.len(),
        entries@[i] == e,
{
}

} // verus!
