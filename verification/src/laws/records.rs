//! Task records, and the slab they stand in.

use crate::task::{RawTask, SyscallNbCompResult, Task, TaskView};
use crate::task_slab::{free_slot, Slab, SlabIdx, SlabSlot};
use vstd::prelude::*;

verus! {

/// A new task has its future, one reference, and nothing behind it.
pub proof fn law_new_task<F>(future: F, t: Task<F>)
    requires
        call_ensures(Task::<F>::new, (future,), t),
    ensures
        t@.future == Some(future),
        !t@.done,
        t@.rc == 1,
        t@.syscall_nb == 0,
        t@.writes == 0,
        t@.slab_idx is None,
{
}

/// A number is compared by its lower 15 bits first: an older one has expired, a newer
/// one is in error. Of equal ones the mark must agree, and decides.
pub proof fn law_comparison<F>(t: &Task<F>, incoming: u16, r: SyscallNbCompResult)
    requires
        call_ensures(Task::<F>::evaluate_syscall_nb, (t, incoming), r),
    ensures
        r is Expired <==> incoming & 0x7FFF < t@.syscall_nb & 0x7FFF,
        r is Normal <==> incoming == t@.syscall_nb && incoming & 0x8000 == 0,
        r is Multiple <==> incoming == t@.syscall_nb && incoming & 0x8000 != 0,
        r is Error <==> incoming & 0x7FFF > t@.syscall_nb & 0x7FFF || (incoming & 0x7FFF
            == t@.syscall_nb & 0x7FFF && incoming & 0x8000 != t@.syscall_nb & 0x8000),
{
    let stored = t@.syscall_nb;
    crate::laws::lemma_marks(stored);
    crate::laws::lemma_marks(incoming);
    assert(incoming == stored <==> (incoming & 0x7FFF == stored & 0x7FFF && incoming & 0x8000
        == stored & 0x8000)) by (bit_vector);
    assert(incoming & 0x8000 == 0 || incoming & 0x8000 == 0x8000) by (bit_vector);
}

/// The next number is one more, the marked one has its highest bit set, and the one
/// after several completions is one more without the mark. Nothing else changes.
pub proof fn law_numbers<F>(a: &mut Task<F>, b: &mut Task<F>, c: &mut Task<F>)
    requires
        old(a)@.syscall_nb < 0xFFFF,
        call_ensures(Task::<F>::augmente_syscall_nb, (a,), ()),
        call_ensures(Task::<F>::set_multishot, (b,), ()),
        call_ensures(Task::<F>::advance_syscall_nb, (c,), ()),
    ensures
        final(a)@.syscall_nb == old(a)@.syscall_nb + 1,
        final(a)@ == (TaskView { syscall_nb: final(a)@.syscall_nb, ..old(a)@ }),
        final(b)@.syscall_nb == old(b)@.syscall_nb | 0x8000,
        final(b)@ == (TaskView { syscall_nb: final(b)@.syscall_nb, ..old(b)@ }),
        final(c)@.syscall_nb == (old(c)@.syscall_nb & 0x7FFF) + 1,
        final(c)@ == (TaskView { syscall_nb: final(c)@.syscall_nb, ..old(c)@ }),
{
    crate::laws::lemma_marks(old(b)@.syscall_nb);
    crate::laws::lemma_marks(old(c)@.syscall_nb);
}

/// A further reference is one more, and nothing else changes.
pub proof fn law_further_reference<F>(t: &mut Task<F>)
    requires
        old(t)@.rc < 0xFFFF,
        call_ensures(Task::<F>::inc_rc, (t,), ()),
    ensures
        final(t)@.rc == old(t)@.rc + 1,
        final(t)@ == (TaskView { rc: final(t)@.rc, ..old(t)@ }),
{
}

/// A reference given back is one less. Exactly with the last one the future is handed
/// out, and the slot of the task, if it has one, is put at the end of the list.
pub proof fn law_reference_given_back<F>(
    t: &mut Task<F>,
    free_list: &mut Vec<SlabIdx>,
    dropped: Option<F>,
)
    requires
        old(t)@.rc > 0,
        call_ensures(Task::<F>::release, (t, free_list), dropped),
    ensures
        final(t)@.rc == old(t)@.rc - 1,
        final(t)@ == (TaskView { rc: final(t)@.rc, future: final(t)@.future, ..old(t)@ }),
        final(t)@.rc > 0 ==> {
            &&& dropped is None
            &&& final(t)@.future == old(t)@.future
            &&& final(free_list)@ == old(free_list)@
        },
        final(t)@.rc == 0 ==> {
            &&& dropped == old(t)@.future
            &&& final(t)@.future is None
            &&& old(t)@.slab_idx is None ==> final(free_list)@ == old(free_list)@
            &&& old(t)@.slab_idx matches Some(idx) ==> final(free_list)@ == old(
                free_list,
            )@.push(idx)
        },
{
}

/// Taking the future out and putting it back is all that these two calls do; what
/// is put back, and whether it has completed, is what is found again.
pub proof fn law_future_out_and_back<F>(
    a: &mut Task<F>,
    out: Option<F>,
    b: &mut Task<F>,
    back: F,
    done: bool,
)
    requires
        call_ensures(Task::<F>::take_future, (a,), out),
        *old(b) == *final(a),
        call_ensures(Task::<F>::put_future, (b, back, done), ()),
    ensures
        out == old(a)@.future,
        final(a)@ == (TaskView { future: None, ..old(a)@ }),
        final(b)@ == (TaskView { future: Some(back), done, ..old(a)@ }),
{
}

/// A write that begins counts one more, one that ends one less, and nothing else
/// changes; so the two undo each other.
pub proof fn law_writes<F>(a: &mut Task<F>, b: &mut Task<F>)
    requires
        old(a)@.writes < 0xFFFF,
        call_ensures(Task::<F>::begin_write, (a,), ()),
        *old(b) == *final(a),
        call_ensures(Task::<F>::end_write, (b,), ()),
    ensures
        final(a)@.writes == old(a)@.writes + 1,
        final(a)@ == (TaskView { writes: final(a)@.writes, ..old(a)@ }),
        final(b)@ == old(a)@,
{
}

/// What is read from a record is what it holds, and its slot is what it was told.
pub proof fn law_record_is_read<F>(
    a: &mut Task<F>,
    idx: SlabIdx,
    t: &Task<F>,
    nb: u16,
    rc: u16,
    done: bool,
    writes: u16,
)
    requires
        call_ensures(Task::<F>::set_task_idx, (a, idx), ()),
        *t == *final(a),
        call_ensures(Task::<F>::get_syscall_nb, (t,), nb),
        call_ensures(Task::<F>::get_rc, (t,), rc),
        call_ensures(Task::<F>::is_done, (t,), done),
        call_ensures(Task::<F>::get_writes, (t,), writes),
    ensures
        t@ == (TaskView { slab_idx: Some(idx), ..old(a)@ }),
        nb == old(a)@.syscall_nb,
        rc == old(a)@.rc,
        done == old(a)@.done,
        writes == old(a)@.writes,
{
}

/// A new slab has no task, and its free slots are all of them, from the first on.
pub proof fn law_new_slab<F>(capacity: u32, s: Slab<F>)
    requires
        capacity > 0,
        call_ensures(Slab::<F>::with_capacity, (capacity,), s),
    ensures
        s@.len == capacity,
        forall|k: u32| !s@.tasks.contains_key(k),
        s@.free.len() == capacity,
        forall|i: int| 0 <= i < capacity ==> #[trigger] s@.free[i] == i,
{
}

/// A task gets the first free slot. If there is none, the slab doubles, up to
/// `u32::MAX` slots, and the first new slot is taken. All other tasks stay, and the
/// other free slots stay in order.
pub proof fn law_task_is_inserted<F>(s: &mut Slab<F>, task: Task<F>, idx: SlabIdx)
    requires
        old(s).wf(),
        old(s)@.free.len() > 0 || old(s)@.len < u32::MAX,
        call_ensures(Slab::<F>::insert, (s, task), idx),
    ensures
        final(s)@.tasks == old(s)@.tasks.insert(idx.0, task@),
        !old(s)@.tasks.contains_key(idx.0),
        old(s)@.free.len() > 0 ==> {
            &&& idx.0 == old(s)@.free[0]
            &&& final(s)@.len == old(s)@.len
            &&& final(s)@.free.len() == old(s)@.free.len() - 1
            &&& forall|i: int|
                0 <= i < final(s)@.free.len() ==> #[trigger] final(s)@.free[i] == old(s)@.free[i
                    + 1]
        },
        old(s)@.free.len() == 0 ==> {
            &&& idx.0 == old(s)@.len
            &&& final(s)@.len == (if old(s)@.len < 0x8000_0000 {
                2 * old(s)@.len
            } else {
                u32::MAX as int
            })
            &&& final(s)@.free.len() == final(s)@.len - old(s)@.len - 1
            &&& forall|i: int|
                0 <= i < final(s)@.free.len() ==> #[trigger] final(s)@.free[i] == idx.0 + 1 + i
        },
{
    crate::task_slab::law_insert(old(s)@, task@);
}

/// A task that is taken out is the one that stood in the slot. The slot becomes the
/// first free one, and nothing else changes.
pub proof fn law_task_is_removed<F>(s: &mut Slab<F>, idx: SlabIdx, task: Task<F>)
    requires
        old(s).wf(),
        old(s)@.tasks.contains_key(idx.0),
        call_ensures(Slab::<F>::remove, (s, idx), task),
    ensures
        task@ == old(s)@.tasks[idx.0],
        final(s)@.tasks == old(s)@.tasks.remove(idx.0),
        final(s)@.len == old(s)@.len,
        final(s)@.free.len() == old(s)@.free.len() + 1,
        final(s)@.free[0] == idx.0,
        forall|i: int|
            0 < i < final(s)@.free.len() ==> #[trigger] final(s)@.free[i] == old(s)@.free[i - 1],
{
}

/// What was inserted is what is found, and what is taken out; and the slot is used
/// again before any other.
pub proof fn law_slab_round_trip<F>(
    a: &mut Slab<F>,
    task: Task<F>,
    idx: SlabIdx,
    found: &Task<F>,
    there: bool,
    b: &mut Slab<F>,
    out: Task<F>,
    c: &mut Slab<F>,
    other: Task<F>,
    again: SlabIdx,
)
    requires
        old(a).wf(),
        old(a)@.free.len() > 0 || old(a)@.len < u32::MAX,
        call_ensures(Slab::<F>::insert, (a, task), idx),
        *old(b) == *final(a),
        call_ensures(Slab::<F>::index, (&*old(b), idx), found),
        call_ensures(Slab::<F>::contains, (&*old(b), idx), there),
        call_ensures(Slab::<F>::remove, (b, idx), out),
        *old(c) == *final(b),
        call_ensures(Slab::<F>::insert, (c, other), again),
    ensures
        there,
        found@ == task@,
        out@ == task@,
        final(b)@.tasks == old(a)@.tasks,
        again == idx,
{
    crate::task_slab::law_insert(old(a)@, task@);
    crate::task_slab::law_remove_undoes_insert(old(a)@, task@);
}

/// The number of tasks and the number of slots are what they are.
pub proof fn law_slab_is_counted<F>(s: &Slab<F>, idx: SlabIdx, n: u32, len: u32, there: bool)
    requires
        s.wf(),
        call_ensures(Slab::<F>::count, (s,), n),
        call_ensures(Slab::<F>::len, (s,), len),
        call_ensures(Slab::<F>::contains, (s, idx), there),
    ensures
        n + s@.free.len() == len,
        len == s@.len,
        there <==> idx.0 < len && !s@.free.contains(idx.0),
{
    crate::task_slab::law_slots_add_up(s@);
}

/// Emptying the slot of a task without references makes it the first free one, and changes nothing
/// else.
pub proof fn law_dropped_task_is_removed<F>(s: &mut Slab<F>, idx: SlabIdx)
    requires
        old(s).wf(),
        old(s)@.tasks.contains_key(idx.0),
        call_ensures(Slab::<F>::remove_dropped_task, (s, idx), ()),
    ensures
        final(s)@.tasks == old(s)@.tasks.remove(idx.0),
        final(s)@.len == old(s)@.len,
        final(s)@.free == seq![idx.0] + old(s)@.free,
{
}

/// A task that is changed in place stays in its slot, and nothing else changes.
pub proof fn law_task_is_changed_in_place<F>(s: &mut Slab<F>, idx: SlabIdx, t: &mut Task<F>)
    requires
        old(s).wf(),
        old(s)@.tasks.contains_key(idx.0),
        call_ensures(Slab::<F>::index_mut, (s, idx), t),
    ensures
        old(t)@ == old(s)@.tasks[idx.0],
        final(s)@.tasks == old(s)@.tasks.insert(idx.0, final(t)@),
        final(s)@.free == old(s)@.free,
        final(s)@.len == old(s)@.len,
{
}

/// Futures fit whose alignment is at most 32 and that take, with a header of 32 bytes and rounded
/// up to a multiple of 32, at most `u32::MAX` bytes.
pub proof fn law_fitting_futures<F>(fits: bool)
    requires
        call_ensures(Task::<F>::fits, (), fits),
    ensures
        fits <==> vstd::layout::align_of::<F>() <= 32 && 32 + (vstd::layout::size_of::<F>() + 31)
            / 32 * 32 <= u32::MAX,
{
}

/// A record that is given up and taken over again is the same record, and its count can be read
/// in between.
pub proof fn law_raw_round_trip<F>(t: Task<F>, raw: Box<RawTask<F>>, rc: u16, again: Task<F>)
    requires
        call_ensures(Task::<F>::into_raw, (t,), raw),
        call_ensures(RawTask::<F>::get_rc, (&*raw,), rc),
        call_ensures(Task::<F>::from_raw, (raw,), again),
    ensures
        rc == t@.rc,
        again@ == t@,
{
}

/// A slot is free or holds a task, and a free one says which is next.
pub proof fn law_slots<F>(
    next: u32,
    slot: SlabSlot<F>,
    found: u32,
    any: &SlabSlot<F>,
    free: bool,
    task: bool,
)
    requires
        call_ensures(free_slot::<F>, (next,), slot),
        call_ensures(SlabSlot::<F>::next_free, (&slot,), found),
        call_ensures(SlabSlot::<F>::is_free, (any,), free),
        call_ensures(SlabSlot::<F>::is_task, (any,), task),
    ensures
        found == next,
        slot is Free,
        free <==> any is Free,
        task <==> any is Used,
{
}

} // verus!
