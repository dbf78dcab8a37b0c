//! The 64-bit `user_data` word that travels with every request and comes back
//! with its completions.
//!
//! ```text
//! task word:      [ 32 bits: task_idx ][ 16 bits: syscall_nb ][ 16 bits: response_gen ]
//! internal word:  [ bit 63 set ][ kind ][ 32 bits: payload ]
//! ```

use crate::task_slab::SlabIdx;
use vstd::prelude::*;

verus! {

/// Set in the words of requests that wake no task.
pub const INTERNAL_FLAG: u64 = 0x8000_0000_0000_0000;

/// Word of a write whose completion needs no bookkeeping at all.
pub const RWBUF_WRITE_UDATA: u64 = 0x8000_0001_0000_0000;

/// Reserved for timeouts.
pub const TIMEOUT_UDATA: u64 = 0xFFFF_FFFF_FFFF_FFFF;

/// Reserved for cancellations.
pub const CANCEL_UDATA: u64 = 0xFFFF_FFFF_FFFF_FFFE;

/// Reserved for the wake-up request.
pub const WAKER_UDATA: u64 = 0xFFFF_FFFF_FFFF_FFFD;

/// Task indices below this bound leave bit 63 of a task word clear.
pub const TASK_IDX_LIMIT: u32 = 0x8000_0000;

/// What a task word says about the request it belongs to.
#[derive(Clone, Copy, Debug, PartialEq, Eq, Structural)]
pub struct UserDataPayload {
    pub task_idx: SlabIdx,
    pub response_gen: u16,
    pub syscall_nb: u16,
}

/// The word that carries the payload `p`.
pub open spec fn pack(p: UserDataPayload) -> u64 {
    (p.task_idx.0 * 0x1_0000_0000 + p.syscall_nb * 0x1_0000 + p.response_gen) as u64
}

/// The payload that the word `w` carries.
pub open spec fn unpack(w: u64) -> UserDataPayload {
    UserDataPayload {
        task_idx: SlabIdx((w / 0x1_0000_0000) as u32),
        syscall_nb: ((w / 0x1_0000) % 0x1_0000) as u16,
        response_gen: (w % 0x1_0000) as u16,
    }
}

/// The word belongs to a request that wakes no task.
pub open spec fn is_internal(w: u64) -> bool {
    w >= INTERNAL_FLAG
}

/// The word belongs to a write from a slot of the write pool.
pub open spec fn is_wbuf_word(w: u64) -> bool {
    INTERNAL_FLAG <= w < INTERNAL_FLAG + 0x1_0000_0000
}

impl UserDataPayload {
    /// Splits a task word into its three fields.
    pub fn from_user_data(user_data: u64) -> (r: Self)
        ensures
            r == unpack(user_data),
    {
        let task_idx: u32 = (user_data >> 32) as u32;
        let syscall_nb: u16 = ((user_data >> 16) & 0xFFFF) as u16;
        let response_gen: u16 = (user_data & 0xFFFF) as u16;
        assert((user_data >> 32) == user_data / 0x1_0000_0000 && (user_data >> 32) <= 0xFFFF_FFFF
            && ((user_data >> 16) & 0xFFFF) == (user_data / 0x1_0000) % 0x1_0000 && (user_data
            & 0xFFFF) == user_data % 0x1_0000) by (bit_vector);
        UserDataPayload { task_idx: SlabIdx(task_idx), response_gen, syscall_nb }
    }

    /// Joins the three fields into a task word.
    pub fn into_user_data(self) -> (w: u64)
        ensures
            w == pack(self),
    {
        let hi: u64 = self.task_idx.0 as u64;
        let mid: u64 = self.syscall_nb as u64;
        let lo: u64 = self.response_gen as u64;
        assert(hi <= 0xFFFF_FFFF && mid <= 0xFFFF && lo <= 0xFFFF ==> ((hi << 32) | (mid << 16)
            | lo) == hi * 0x1_0000_0000 + mid * 0x1_0000 + lo) by (bit_vector);
        (hi << 32) | (mid << 16) | lo
    }
}

/// The word of a write from the slot `abs_idx`, whose completion gives the slot
/// one reference back.
pub fn wbuf_write_udata(abs_idx: u32) -> (w: u64)
    ensures
        w == INTERNAL_FLAG + abs_idx,
{
    let low: u64 = abs_idx as u64;
    assert(low <= 0xFFFF_FFFF ==> (0x8000_0000_0000_0000u64 | low) == 0x8000_0000_0000_0000u64
        + low) by (bit_vector);
    INTERNAL_FLAG | low
}

/// The slot that a word made by [`wbuf_write_udata`] names.
pub fn decode_wbuf_udata(udata: u64) -> (abs_idx: u32)
    requires
        is_wbuf_word(udata),
    ensures
        abs_idx == udata - INTERNAL_FLAG,
{
    assert(0x8000_0000_0000_0000u64 <= udata < 0x8000_0001_0000_0000u64 ==> (udata & 0xFFFF_FFFF)
        == udata - 0x8000_0000_0000_0000u64) by (bit_vector);
    (udata & 0xFFFF_FFFF) as u32
}

/// Tells whether the word belongs to a write from a slot of the write pool.
pub fn is_wbuf_udata(udata: u64) -> (b: bool)
    ensures
        b == is_wbuf_word(udata),
{
    assert((udata >> 32 == 0x8000_0000u64) == (0x8000_0000_0000_0000u64 <= udata
        < 0x8000_0001_0000_0000u64)) by (bit_vector);
    udata >> 32 == 0x8000_0000
}

/// Tells whether the completion wakes no task.
pub fn is_internal_cqe(udata: u64) -> (b: bool)
    ensures
        b == is_internal(udata),
{
    assert((udata & 0x8000_0000_0000_0000u64 != 0) == (udata >= 0x8000_0000_0000_0000u64))
        by (bit_vector);
    udata & INTERNAL_FLAG != 0
}

/// Packing loses nothing: the payload comes back, and so does the word.
pub proof fn law_user_data_round_trip(p: UserDataPayload, w: u64)
    ensures
        unpack(pack(p)) == p,
        pack(unpack(w)) == w,
{
}

/// The word of a task below [`TASK_IDX_LIMIT`] is never taken for an internal
/// one, hence for no reserved word either.
pub proof fn law_task_word_is_not_internal(p: UserDataPayload)
    requires
        p.task_idx.0 < TASK_IDX_LIMIT,
    ensures
        !is_internal(pack(p)),
{
}

/// No task word is one of the three reserved words, unless its task index is
/// the largest `u32`, which no slot of a slab has.
pub proof fn law_task_word_is_not_reserved(p: UserDataPayload)
    requires
        p.task_idx.0 < u32::MAX,
    ensures
        pack(p) != TIMEOUT_UDATA,
        pack(p) != CANCEL_UDATA,
        pack(p) != WAKER_UDATA,
{
}

/// A slot's word names that slot, is internal, and is no reserved word.
pub proof fn law_wbuf_word(abs_idx: u32)
    ensures
        ({
            let w = (INTERNAL_FLAG + abs_idx) as u64;
            &&& is_wbuf_word(w)
            &&& is_internal(w)
            &&& w - INTERNAL_FLAG == abs_idx
            &&& w != RWBUF_WRITE_UDATA
            &&& w != TIMEOUT_UDATA
            &&& w != CANCEL_UDATA
            &&& w != WAKER_UDATA
        }),
{
}

} // verus!
