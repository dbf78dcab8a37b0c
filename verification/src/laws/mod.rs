//! What the calls of the library do, stated of the calls themselves: every law here
//! speaks of a call, or of several in a row, through what the call takes, what it
//! gives, and what the values hold before and after it.

pub mod buffers;
pub mod loops;
pub mod records;
pub mod requests;
pub mod words;

use crate::buf_pool::PoolView;
use crate::completion::{Cause, Cqe, TaskInfo};
use crate::model::{PollFrame, RuntimeView};
use crate::sqe::Sqe;
use crate::task::TaskView;
use crate::task_slab::{SlabIdx, SlabView};
use vstd::prelude::*;

verus! {

/// The word has these three fields, from the top.
pub open spec fn carries(word: u64, task: u32, nb: u16, gen: u16) -> bool {
    &&& word >> 32 == task as u64
    &&& (word >> 16) & 0xFFFF == nb as u64
    &&& word & 0xFFFF == gen as u64
}

/// The slot of the task in progress.
pub open spec fn me<F>(v: RuntimeView<F>) -> u32 {
    v.polls[v.polls.len() - 1].info.tag.task_idx.0
}

/// The number of the task in progress.
pub open spec fn my_nb<F>(v: RuntimeView<F>) -> u16 {
    v.polls[v.polls.len() - 1].info.tag.syscall_nb
}

/// The state with another task record in slot `k`, and nothing else changed.
pub open spec fn with_record<F>(v: RuntimeView<F>, k: u32, t: TaskView<F>) -> RuntimeView<F> {
    RuntimeView { slab: SlabView { tasks: v.slab.tasks.insert(k, t), ..v.slab }, ..v }
}

/// The task in progress has made one request, the last in the queue of `w`: it has one
/// reference more, with `mark` its number is marked, and nothing else has changed.
pub open spec fn requested<F>(v: RuntimeView<F>, w: RuntimeView<F>, mark: bool) -> bool {
    let t = v.slab.tasks[me(v)];
    &&& w.pending.len() == v.pending.len() + 1
    &&& forall|i: int| 0 <= i < v.pending.len() ==> w.pending[i] == v.pending[i]
    &&& w == (RuntimeView {
        pending: w.pending,
        ..with_record(
            v,
            me(v),
            TaskView {
                rc: (t.rc + 1) as u16,
                syscall_nb: if mark {
                    t.syscall_nb | 0x8000
                } else {
                    t.syscall_nb
                },
                ..t
            },
        )
    })
}

/// The request that was queued last.
pub open spec fn newest<F>(w: RuntimeView<F>) -> Sqe {
    w.pending[w.pending.len() - 1]
}

/// A single-shot request of the task in progress carries this word.
pub open spec fn word_of_one<F>(v: RuntimeView<F>, word: u64) -> bool {
    carries(word, me(v), my_nb(v), 0)
}

/// A request of the task in progress that completes more than once, at the position
/// `gen` of a batch, carries this word.
pub open spec fn word_of_many<F>(v: RuntimeView<F>, word: u64, gen: u16) -> bool {
    carries(word, me(v), my_nb(v) | 0x8000, gen)
}

/// What a task knows that runs without a completion.
pub open spec fn plain_info(k: u32, nb: u16, result: i32, cause: Cause, info: TaskInfo) -> bool {
    &&& info.tag.task_idx.0 == k
    &&& info.tag.syscall_nb == nb
    &&& info.result == result
    &&& info.flags == 0
    &&& info.response_gen == 0xFFFF
    &&& info.cause == cause
}

/// What a task knows that runs because of the completion `cqe`, when it waits for `nb`.
pub open spec fn cqe_info(cqe: Cqe, nb: u16, info: TaskInfo) -> bool {
    &&& info.tag.task_idx.0 == (cqe.user_data >> 32) as u32
    &&& info.tag.syscall_nb == nb
    &&& info.result == cqe.result
    &&& info.flags == cqe.flags
    &&& info.response_gen == (cqe.user_data & 0xFFFF) as u16
    &&& info.cause == Cause::Completion
}

/// One reference less to task `k`. Exactly with the last one the future goes, and the task
/// is put behind those that are to be removed.
pub open spec fn one_less<F>(v: RuntimeView<F>, k: u32) -> RuntimeView<F> {
    let t = v.slab.tasks[k];
    if t.rc == 1 {
        RuntimeView {
            dead: v.dead.push(SlabIdx(k)),
            ..with_record(v, k, TaskView { rc: 0, future: None, ..t })
        }
    } else {
        with_record(v, k, TaskView { rc: (t.rc - 1) as u16, ..t })
    }
}

/// Task `k` runs: a poll of it begins, with its future out, unless its future has completed.
/// In that case the reference that would go with the poll goes at once.
pub open spec fn runs<F>(
    v: RuntimeView<F>,
    w: RuntimeView<F>,
    k: u32,
    info: TaskInfo,
    release: bool,
) -> bool {
    let t = v.slab.tasks[k];
    if !t.done {
        w == (RuntimeView {
            polls: v.polls.push(PollFrame { info, release }),
            ..with_record(v, k, TaskView { future: None, ..t })
        })
    } else if release {
        w == one_less(v, k)
    } else {
        w == v
    }
}

/// The task that a completion belongs to.
pub open spec fn whose(cqe: Cqe) -> u32 {
    (cqe.user_data >> 32) as u32
}

/// The completion belongs to a task that has an answer being written.
pub open spec fn busy<F>(v: RuntimeView<F>, cqe: Cqe) -> bool {
    &&& cqe.user_data >> 63 == 0
    &&& v.slab.tasks.contains_key(whose(cqe))
    &&& v.slab.tasks[whose(cqe)].writes > 0
}

/// The completion has to wait: for the end of a write, for the poll after it, or for
/// completions of the same task that wait already.
pub open spec fn must_wait<F>(v: RuntimeView<F>, cqe: Cqe) -> bool {
    &&& cqe.user_data >> 63 == 0
    &&& {
        ||| busy(v, cqe)
        ||| exists|i: int|
            0 <= i < v.wakes.len() && (#[trigger] v.wakes[i]).task_idx.0 == whose(cqe)
                && v.wakes[i].cause is Written
        ||| exists|i: int|
            0 <= i < v.postponed.len() && whose(#[trigger] v.postponed[i]) == whose(cqe)
    }
}

/// A completion is taken in: a write from a slot of the pool gives the reference to the slot
/// back; other internal completions do nothing; one with the number its task waits for
/// runs the task, which moves on if the number is not marked; any other gives the reference
/// of its request back, if it is the last one of it.
pub open spec fn took<F>(v: RuntimeView<F>, w: RuntimeView<F>, cqe: Cqe) -> bool {
    let k = whose(cqe);
    let nb = ((cqe.user_data >> 16) & 0xFFFF) as u16;
    let t = v.slab.tasks[k];
    let last = cqe.flags & 2 == 0;
    if cqe.user_data >> 63 == 1 {
        if cqe.user_data >> 32 == 0x8000_0000 {
            let slot = (cqe.user_data & 0xFFFF_FFFF) as u32;
            let i = slot - v.pool.read_count;
            w == (RuntimeView {
                pool: PoolView {
                    rc: v.pool.rc.update(i, (v.pool.rc[i] - 1) as u32),
                    free: if v.pool.rc[i] == 1 {
                        v.pool.free.push(slot)
                    } else {
                        v.pool.free
                    },
                    ..v.pool
                },
                ..v
            })
        } else {
            w == v
        }
    } else if nb == t.syscall_nb {
        if nb & 0x8000 == 0 {
            exists|info: TaskInfo|
                cqe_info(cqe, (nb + 1) as u16, info) && #[trigger] runs(
                    with_record(v, k, TaskView { syscall_nb: (nb + 1) as u16, ..t }),
                    w,
                    k,
                    info,
                    last,
                )
        } else {
            exists|info: TaskInfo|
                cqe_info(cqe, nb, info) && #[trigger] runs(v, w, k, info, last)
        }
    } else if last {
        w == one_less(v, k)
    } else {
        w == v
    }
}

pub(crate) proof fn lemma_whose(cqe: Cqe)
    ensures
        whose(cqe) == crate::user_data::unpack(cqe.user_data).task_idx.0,
        crate::user_data::unpack(cqe.user_data).syscall_nb == ((cqe.user_data >> 16)
            & 0xFFFF) as u16,
        crate::user_data::unpack(cqe.user_data).response_gen == (cqe.user_data & 0xFFFF) as u16,
        crate::user_data::is_internal(cqe.user_data) <==> cqe.user_data >> 63 == 1,
        crate::user_data::is_internal(cqe.user_data) <==> cqe.user_data >> 63 != 0,
        crate::user_data::is_wbuf_word(cqe.user_data) <==> cqe.user_data >> 32 == 0x8000_0000,
        crate::user_data::is_wbuf_word(cqe.user_data) ==> cqe.user_data & 0xFFFF_FFFF
            == cqe.user_data - crate::user_data::INTERNAL_FLAG,
{
    let w = cqe.user_data;
    lemma_unpack(w);
    assert((w >> 63 == 1 <==> w >= 0x8000_0000_0000_0000u64) && (w >> 63 != 0 <==> w
        >= 0x8000_0000_0000_0000u64)) by (bit_vector);
    assert(w >> 32 == 0x8000_0000 <==> 0x8000_0000_0000_0000u64 <= w < 0x8000_0001_0000_0000u64)
        by (bit_vector);
    assert(0x8000_0000_0000_0000u64 <= w < 0x8000_0001_0000_0000u64 ==> (w & 0xFFFF_FFFF) == w
        - 0x8000_0000_0000_0000u64) by (bit_vector);
}

pub(crate) proof fn lemma_busy<F>(v: RuntimeView<F>, cqe: Cqe)
    ensures
        busy(v, cqe) <==> v.on_hold(cqe),
        must_wait(v, cqe) <==> v.waits(cqe),
{
    lemma_whose(cqe);
    assert forall|c: Cqe| #[trigger]
        whose(c) == crate::user_data::unpack(c.user_data).task_idx.0 by {
        lemma_whose(c);
    }
    let k = whose(cqe);
    if v.keeps(k) {
        let i = choose|i: int|
            0 <= i < v.postponed.len() && crate::user_data::unpack(
                (#[trigger] v.postponed[i]).user_data,
            ).task_idx.0 == k;
        assert(whose(v.postponed[i]) == k);
    }
    if exists|i: int| 0 <= i < v.postponed.len() && whose(#[trigger] v.postponed[i]) == whose(cqe) {
        let i = choose|i: int|
            0 <= i < v.postponed.len() && whose(#[trigger] v.postponed[i]) == whose(cqe);
        assert(crate::user_data::unpack(v.postponed[i].user_data).task_idx.0 == k);
    }
}

pub(crate) proof fn lemma_released<F>(v: RuntimeView<F>, k: u32)
    requires
        v.slab.tasks[k].rc > 0,
    ensures
        v.released(k) == one_less(v, k),
{
}

pub(crate) proof fn lemma_took<F>(v: RuntimeView<F>, cqe: Cqe)
    requires
        v.wf(),
        v.accepts(cqe),
    ensures
        took(v, v.handled(cqe), cqe),
{
    lemma_whose(cqe);
    let k = whose(cqe);
    let t = v.slab.tasks[k];
    let w = v.handled(cqe);
    let last = cqe.flags & 2 == 0;
    let nb = ((cqe.user_data >> 16) & 0xFFFF) as u16;
    lemma_marks(t.syscall_nb);
    if !crate::user_data::is_internal(cqe.user_data) {
        lemma_released(v, k);
        if nb == t.syscall_nb {
            if nb & 0x8000 == 0 {
                let moved = with_record(v, k, TaskView { syscall_nb: (nb + 1) as u16, ..t });
                assert(moved == v.moved_on(k));
                lemma_released(moved, k);
                assert(cqe_info(cqe, (nb + 1) as u16, v.info_of(cqe)));
                assert(runs(moved, w, k, v.info_of(cqe), last));
            } else {
                assert(cqe_info(cqe, nb, v.info_of(cqe)));
                assert(runs(v, w, k, v.info_of(cqe), last));
            }
        }
    }
}

pub(crate) proof fn lemma_pack(p: crate::user_data::UserDataPayload)
    ensures
        carries(crate::user_data::pack(p), p.task_idx.0, p.syscall_nb, p.response_gen),
{
    let hi = p.task_idx.0 as u64;
    let mid = p.syscall_nb as u64;
    let lo = p.response_gen as u64;
    let w = crate::user_data::pack(p);
    assert(w == hi * 0x1_0000_0000 + mid * 0x1_0000 + lo);
    assert(hi <= 0xFFFF_FFFF && mid <= 0xFFFF && lo <= 0xFFFF && w == hi * 0x1_0000_0000 + mid
        * 0x1_0000 + lo ==> w >> 32 == hi && (w >> 16) & 0xFFFF == mid && w & 0xFFFF == lo)
        by (bit_vector);
}

pub(crate) proof fn lemma_unpack(w: u64)
    ensures
        carries(
            w,
            crate::user_data::unpack(w).task_idx.0,
            crate::user_data::unpack(w).syscall_nb,
            crate::user_data::unpack(w).response_gen,
        ),
{
    crate::user_data::law_user_data_round_trip(crate::user_data::unpack(w), w);
    lemma_pack(crate::user_data::unpack(w));
}

/// A word has one set of fields.
pub(crate) proof fn lemma_carries(w: u64, task: u32, nb: u16, gen: u16)
    requires
        carries(w, task, nb, gen),
    ensures
        crate::user_data::unpack(w) == (crate::user_data::UserDataPayload {
            task_idx: crate::task_slab::SlabIdx(task),
            syscall_nb: nb,
            response_gen: gen,
        }),
        crate::user_data::is_internal(w) <==> task >= 0x8000_0000,
{
    lemma_unpack(w);
    let hi = task as u64;
    assert(w >> 32 == hi ==> (w >= 0x8000_0000_0000_0000u64 <==> hi >= 0x8000_0000))
        by (bit_vector);
}

pub(crate) proof fn lemma_marks(nb: u16)
    ensures
        crate::task::with_multiple(nb) == nb | 0x8000,
        crate::task::next_syscall_nb(nb) == (nb & 0x7FFF) + 1,
        crate::task::rank(nb) == nb & 0x7FFF,
        crate::task::is_multiple(nb) <==> nb & 0x8000 != 0,
        !(nb & 0x8000 != 0) ==> nb < 0x8000,
{
    assert((nb | 0x8000) == (nb % 0x8000) + 0x8000) by (bit_vector);
    assert((nb & 0x7FFF) == nb % 0x8000) by (bit_vector);
    assert((nb & 0x8000 != 0) <==> nb >= 0x8000) by (bit_vector);
}

/// The words of the task in progress.
pub(crate) proof fn lemma_words<F>(v: RuntimeView<F>, gen: u16)
    ensures
        word_of_one(v, v.current_udata(false, 0)),
        word_of_many(v, v.current_udata(true, gen), gen),
{
    lemma_marks(my_nb(v));
    let p = crate::user_data::UserDataPayload {
        task_idx: v.current().tag.task_idx,
        response_gen: 0,
        syscall_nb: v.current().tag.syscall_nb,
    };
    lemma_pack(p);
    let q = crate::user_data::UserDataPayload {
        task_idx: v.current().tag.task_idx,
        response_gen: gen,
        syscall_nb: crate::task::with_multiple(v.current().tag.syscall_nb),
    };
    lemma_pack(q);
}

} // verus!
