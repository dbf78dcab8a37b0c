//! A slab of task records with an intrusive free list.
//!
//! Every slot holds either a task or the index of the next free slot. The last
//! free slot points one past the end, and so does `head` when the slab is full.

use crate::task::{Task, TaskView};
use vstd::prelude::*;

verus! {

/// Index of a slot of the slab.
#[derive(Clone, Copy, Debug, PartialEq, Eq, Structural)]
pub struct SlabIdx(pub u32);

/// One slot: a task, or the index of the next free slot.
pub enum SlabSlot<F> {
    Free(u32),
    Used(Task<F>),
}

impl<F> SlabSlot<F> {
    /// Tells whether the slot holds no task.
    pub fn is_free(&self) -> (b: bool)
        ensures
            b == (self is Free),
    {
        match self {
            SlabSlot::Free(_) => true,
            SlabSlot::Used(_) => false,
        }
    }

    /// Tells whether the slot holds a task.
    pub fn is_task(&self) -> (b: bool)
        ensures
            b == (self is Used),
    {
        !self.is_free()
    }

    /// The slot that follows this one on the free list.
    pub fn next_free(&self) -> (next: u32)
        requires
            self is Free,
        ensures
            *self == SlabSlot::<F>::Free(next),
    {
        match self {
            SlabSlot::Free(next) => *next,
            SlabSlot::Used(_) => 0,
        }
    }
}

/// A free slot that is followed by `next` on the free list.
pub fn free_slot<F>(next: u32) -> (slot: SlabSlot<F>)
    ensures
        slot == SlabSlot::<F>::Free(next),
{
    SlabSlot::Free(next)
}

/// Tasks in slots that are found again by index.
pub struct Slab<F> {
    slots: Vec<SlabSlot<F>>,
    head: u32,
    used: u32,
    free: Ghost<Seq<u32>>,
}

/// What a slab holds.
#[verifier::ext_equal]
pub struct SlabView<F> {
    /// The tasks, by the index of their slot.
    pub tasks: Map<u32, TaskView<F>>,
    /// The free slots, the next one to be used first.
    pub free: Seq<u32>,
    /// The number of slots.
    pub len: u32,
}

/// The indices from `lo` up to but not including `hi`, in order.
pub open spec fn index_range(lo: u32, hi: u32) -> Seq<u32> {
    Seq::new((hi - lo) as nat, |i: int| (lo + i) as u32)
}

/// The number of slots after `len` of them have been doubled.
pub open spec fn grown_len(len: u32) -> u32 {
    if len <= 0x7FFF_FFFF {
        (2 * len) as u32
    } else {
        u32::MAX
    }
}

impl<F> SlabView<F> {
    /// Every slot either holds a task or stands once on the free list.
    pub open spec fn wf(self) -> bool {
        &&& self.len > 0
        &&& self.free.no_duplicates()
        &&& forall|i: int| 0 <= i < self.free.len() ==> #[trigger] self.free[i] < self.len
        &&& forall|k: u32| #[trigger]
            self.tasks.contains_key(k) <==> k < self.len && !self.free.contains(k)
    }

    /// There is a free slot, or the slab can still grow.
    pub open spec fn has_room(self) -> bool {
        self.free.len() > 0 || self.len < u32::MAX
    }

    /// The slab with at least one free slot: itself, or twice as large.
    pub open spec fn with_free_slot(self) -> Self {
        if self.free.len() > 0 {
            self
        } else {
            SlabView {
                free: index_range(self.len, grown_len(self.len)),
                len: grown_len(self.len),
                ..self
            }
        }
    }

    /// The slot that the next task gets.
    pub open spec fn next_slot(self) -> u32 {
        self.with_free_slot().free[0]
    }

    /// The slab after `task` has been inserted.
    pub open spec fn inserted(self, task: TaskView<F>) -> Self {
        let s = self.with_free_slot();
        SlabView { tasks: s.tasks.insert(s.free[0], task), free: s.free.skip(1), len: s.len }
    }

    /// The slab after slot `k` has been emptied.
    pub open spec fn removed(self, k: u32) -> Self {
        SlabView { tasks: self.tasks.remove(k), free: seq![k] + self.free, len: self.len }
    }

    /// The slab after the task in slot `k` has become `task`.
    pub open spec fn updated(self, k: u32, task: TaskView<F>) -> Self {
        SlabView { tasks: self.tasks.insert(k, task), ..self }
    }
}

impl<F> View for Slab<F> {
    type V = SlabView<F>;

    closed spec fn view(&self) -> SlabView<F> {
        SlabView {
            tasks: Map::new(
                |k: u32| k < self.slots@.len() && self.slots@[k as int] is Used,
                |k: u32| self.slots@[k as int]->Used_0@,
            ),
            free: self.free@,
            len: self.slots@.len() as u32,
        }
    }
}

impl<F> Slab<F> {
    /// The slots are linked in the order of the free list.
    pub closed spec fn linked(&self) -> bool {
        &&& self.slots@.len() <= u32::MAX
        &&& self.head == self.link(0)
        &&& self.used == self.slots@.len() - self.free@.len()
        &&& forall|i: int|
            0 <= i < self.free@.len() ==> self.slots@[#[trigger] self.free@[i] as int]
                == SlabSlot::<F>::Free(self.link(i + 1))
    }

    spec fn link(&self, i: int) -> u32 {
        if i < self.free@.len() {
            self.free@[i]
        } else {
            self.slots@.len() as u32
        }
    }

    /// The slab is in a consistent state.
    pub open spec fn wf(&self) -> bool {
        self@.wf() && self.linked()
    }

    /// A slab of `capacity` free slots.
    pub fn with_capacity(capacity: u32) -> (slab: Self)
        requires
            0 < capacity <= u32::MAX / 2,
        ensures
            slab.wf(),
            slab@ == (SlabView::<F> {
                tasks: Map::empty(),
                free: index_range(0, capacity),
                len: capacity,
            }),
    {
        let mut slots: Vec<SlabSlot<F>> = Vec::new();
        let mut i: u32 = 0;
        while i < capacity
            invariant
                i <= capacity <= u32::MAX / 2,
                slots@.len() == i,
                forall|j: int|
                    0 <= j < i ==> #[trigger] slots@[j] == SlabSlot::<F>::Free((j + 1) as u32),
            decreases capacity - i,
        {
            slots.push(free_slot(i + 1));
            i = i + 1;
        }
        let slab = Slab { slots, head: 0, used: 0, free: Ghost(index_range(0, capacity)) };
        proof {
            assert forall|k: u32| k < capacity implies slab.free@.contains(k) by {
                assert(slab.free@[k as int] == k);
            }
            assert(slab@.tasks =~= Map::empty());
        }
        slab
    }

    /// The number of slots.
    pub fn len(&self) -> (len: u32)
        requires
            self.wf(),
        ensures
            len == self@.len,
    {
        self.slots.len() as u32
    }

    /// The number of tasks.
    pub fn count(&self) -> (n: u32)
        requires
            self.wf(),
        ensures
            n == self@.tasks.dom().len(),
            self@.tasks.dom().finite(),
    {
        proof {
            law_slots_add_up(self@);
        }
        self.used
    }

    /// Tells whether slot `idx` holds a task.
    pub fn contains(&self, idx: SlabIdx) -> (b: bool)
        requires
            self.wf(),
        ensures
            b == self@.tasks.contains_key(idx.0),
    {
        (idx.0 as usize) < self.slots.len() && self.slots[idx.0 as usize].is_task()
    }

    /// Puts `task` into the first free slot and says which one that is.
    pub fn insert(&mut self, task: Task<F>) -> (idx: SlabIdx)
        requires
            old(self).wf(),
            old(self)@.has_room(),
        ensures
            final(self).wf(),
            idx.0 == old(self)@.next_slot(),
            final(self)@ == old(self)@.inserted(task@),
    {
        if self.head as usize == self.slots.len() {
            proof {
                if self.free@.len() > 0 {
                    assert(self@.free[0] < self@.len);
                }
            }
            self.growth();
        }
        let ghost mid = *self;
        let idx: u32 = self.head;
        proof {
            assert(self@.free[0] < self@.len);
            assert(self.slots@[self.free@[0] as int] == SlabSlot::<F>::Free(self.link(1)));
        }
        self.head = self.slots[idx as usize].next_free();
        self.slots.set(idx as usize, SlabSlot::Used(task));
        self.used = self.used + 1;
        self.free = Ghost(self.free@.skip(1));
        proof {
            law_insert(old(self)@, task@);
            assert(mid@ == old(self)@.with_free_slot());
            assert(mid@.free.contains(idx)) by {
                assert(mid@.free[0] == idx);
            }
            assert(!mid@.tasks.contains_key(idx));
            assert(self@.tasks =~= mid@.tasks.insert(idx, task@));
            assert(self@ == old(self)@.inserted(task@));
            assert forall|i: int|
                0 <= i < self.free@.len() implies self.slots@[#[trigger] self.free@[i] as int]
                    == SlabSlot::<F>::Free(self.link(i + 1)) by {
                assert(self.free@[i] == mid.free@[i + 1]);
                assert(mid.free@[i + 1] != mid.free@[0]);
                assert(mid.slots@[mid.free@[i + 1] as int] == SlabSlot::<F>::Free(
                    mid.link(i + 2),
                ));
                assert(mid.link(i + 2) == self.link(i + 1));
            }
        }
        SlabIdx(idx)
    }

    /// Takes the task out of slot `idx`, which becomes the first free one.
    pub fn remove(&mut self, idx: SlabIdx) -> (task: Task<F>)
        requires
            old(self).wf(),
            old(self)@.tasks.contains_key(idx.0),
        ensures
            final(self).wf(),
            task@ == old(self)@.tasks[idx.0],
            final(self)@ == old(self)@.removed(idx.0),
    {
        let i: u32 = idx.0;
        let ghost before = *self;
        proof {
            law_slots_add_up(self@);
            assert(self@.tasks.dom().contains(i));
        }
        let mut slot: SlabSlot<F> = free_slot(self.head);
        std::mem::swap(&mut self.slots[i as usize], &mut slot);
        self.head = i;
        self.used = self.used - 1;
        self.free = Ghost(seq![i] + self.free@);
        proof {
            assert(before@.tasks.contains_key(i));
            assert(!before.free@.contains(i));
            assert forall|j: int|
                0 <= j < self.free@.len() implies self.slots@[#[trigger] self.free@[j] as int]
                    == SlabSlot::<F>::Free(self.link(j + 1)) by {
                if j > 0 {
                    assert(self.free@[j] == before.free@[j - 1]);
                    assert(before.slots@[before.free@[j - 1] as int] == SlabSlot::<F>::Free(
                        before.link(j),
                    ));
                    assert(before.link(j) == self.link(j + 1));
                }
            }
            assert(self@.tasks =~= before@.tasks.remove(i));
            law_remove(before@, i);
        }
        match slot {
            SlabSlot::Used(task) => task,
            SlabSlot::Free(_) => vstd::pervasive::unreached(),
        }
    }

    /// Empties the slot of a task that has lost its last reference.
    pub fn remove_dropped_task(&mut self, idx: SlabIdx)
        requires
            old(self).wf(),
            old(self)@.tasks.contains_key(idx.0),
            old(self)@.tasks[idx.0].rc == 0,
        ensures
            final(self).wf(),
            final(self)@ == old(self)@.removed(idx.0),
    {
        let _ = self.remove(idx);
    }

    /// The task in slot `idx`.
    pub fn index(&self, idx: SlabIdx) -> (task: &Task<F>)
        requires
            self.wf(),
            self@.tasks.contains_key(idx.0),
        ensures
            task@ == self@.tasks[idx.0],
    {
        match &self.slots[idx.0 as usize] {
            SlabSlot::Used(task) => task,
            SlabSlot::Free(_) => vstd::pervasive::unreached(),
        }
    }

    /// The task in slot `idx`, to be changed in place.
    pub fn index_mut(&mut self, idx: SlabIdx) -> (task: &mut Task<F>)
        requires
            old(self).wf(),
            old(self)@.tasks.contains_key(idx.0),
        ensures
            task@ == old(self)@.tasks[idx.0],
            final(self)@ == old(self)@.updated(idx.0, final(task)@),
            final(self).wf(),
    {
        match &mut self.slots[idx.0 as usize] {
            SlabSlot::Used(task) => task,
            SlabSlot::Free(_) => vstd::pervasive::unreached(),
        }
    }

    /// Doubles the number of slots of a full slab.
    fn growth(&mut self)
        requires
            old(self).wf(),
            old(self)@.free.len() == 0,
            old(self)@.len < u32::MAX,
        ensures
            final(self).wf(),
            final(self)@ == old(self)@.with_free_slot(),
    {
        let old_len: u32 = self.slots.len() as u32;
        let new_len: u32 = if old_len <= 0x7FFF_FFFF {
            old_len * 2
        } else {
            u32::MAX
        };
        let ghost before = *self;
        let mut i: u32 = old_len;
        while i < new_len
            invariant
                old_len <= i <= new_len,
                before.slots@.len() == old_len,
                self.slots@.len() == i,
                self.head == before.head,
                self.used == before.used,
                self.free == before.free,
                forall|j: int| 0 <= j < old_len ==> #[trigger] self.slots@[j] == before.slots@[j],
                forall|j: int|
                    old_len <= j < i ==> #[trigger] self.slots@[j] == SlabSlot::<F>::Free(
                        (j + 1) as u32,
                    ),
            decreases new_len - i,
        {
            self.slots.push(free_slot(i + 1));
            i = i + 1;
        }
        self.free = Ghost(index_range(old_len, new_len));
        proof {
            assert forall|k: u32| old_len <= k < new_len implies self.free@.contains(k) by {
                assert(self.free@[k - old_len] == k);
            }
            assert(self@.tasks =~= before@.tasks) by {
                assert forall|k: u32| before@.tasks.contains_key(k) implies k < old_len by {}
            }
            assert forall|k: u32| #[trigger]
                self@.tasks.contains_key(k) <==> k < self@.len && !self@.free.contains(k) by {
                assert(before@.tasks.contains_key(k) <==> k < old_len && !before@.free.contains(k));
            }
        }
    }
}

/// Every slot is counted once: the tasks and the free slots add up to the
/// length of the slab.
pub proof fn law_slots_add_up<F>(s: SlabView<F>)
    requires
        s.wf(),
    ensures
        s.tasks.dom().finite(),
        s.tasks.dom().len() + s.free.len() == s.len,
{
    let all = Set::new(|k: u32| k < s.len);
    lemma_below(s.len);
    s.free.unique_seq_to_set();
    let freed = s.free.to_set();
    assert(freed.finite()) by {
        vstd::seq_lib::seq_to_set_is_finite(s.free);
    }
    assert(s.tasks.dom() =~= all.difference(freed));
    vstd::set_lib::lemma_set_difference_len(all, freed);
    assert(freed.intersect(all) =~= freed);
    assert(all.intersect(freed) =~= freed);
}

/// Inserting keeps the slab consistent, uses a slot that was free, and leaves
/// every task that was there in place.
pub proof fn law_insert<F>(s: SlabView<F>, task: TaskView<F>)
    requires
        s.wf(),
        s.has_room(),
    ensures
        s.inserted(task).wf(),
        !s.tasks.contains_key(s.next_slot()),
        s.inserted(task).tasks[s.next_slot()] == task,
        forall|k: u32| #[trigger]
            s.tasks.contains_key(k) ==> s.inserted(task).tasks[k] == s.tasks[k],
{
    lemma_with_free_slot(s);
    let m = s.with_free_slot();
    let r = s.inserted(task);
    assert(m.free.contains(m.free[0]));
    assert forall|k: u32| #[trigger] r.tasks.contains_key(k) <==> k < r.len && !r.free.contains(
        k,
    ) by {
        assert(m.tasks.contains_key(k) <==> k < m.len && !m.free.contains(k));
        if r.free.contains(k) {
            let j = r.free.index_of(k);
            assert(m.free[j + 1] == k);
        }
        if m.free.contains(k) && k != m.free[0] {
            let j = m.free.index_of(k);
            assert(r.free[j - 1] == k);
        }
    }
    assert(m.tasks.contains_key(s.next_slot()) == s.tasks.contains_key(s.next_slot()));
}

proof fn lemma_with_free_slot<F>(s: SlabView<F>)
    requires
        s.wf(),
        s.has_room(),
    ensures
        s.with_free_slot().wf(),
        s.with_free_slot().free.len() > 0,
        s.with_free_slot().tasks == s.tasks,
{
    let m = s.with_free_slot();
    if s.free.len() == 0 {
        assert forall|k: u32| #[trigger] m.tasks.contains_key(k) <==> k < m.len && !m.free.contains(
            k,
        ) by {
            assert(s.tasks.contains_key(k) <==> k < s.len && !s.free.contains(k));
            if s.len <= k < m.len {
                assert(m.free[k - s.len] == k);
            }
        }
    }
}

/// Changing a task in place keeps the slab consistent.
pub proof fn law_update<F>(s: SlabView<F>, k: u32, task: TaskView<F>)
    requires
        s.wf(),
        s.tasks.contains_key(k),
    ensures
        s.updated(k, task).wf(),
{
    let r = s.updated(k, task);
    assert forall|j: u32| #[trigger] r.tasks.contains_key(j) <==> j < r.len && !r.free.contains(
        j,
    ) by {
        assert(s.tasks.contains_key(j) <==> j < s.len && !s.free.contains(j));
    }
}

/// Emptying a slot keeps the slab consistent.
pub proof fn law_remove<F>(s: SlabView<F>, k: u32)
    requires
        s.wf(),
        s.tasks.contains_key(k),
    ensures
        s.removed(k).wf(),
{
    let r = s.removed(k);
    assert(!s.free.contains(k) && k < s.len);
    assert forall|j: int| 0 <= j < r.free.len() implies #[trigger] r.free[j] < r.len by {
        if j > 0 {
            assert(r.free[j] == s.free[j - 1]);
        }
    }
    assert forall|a: int, b: int| 0 <= a < b < r.free.len() implies r.free[a] != r.free[b] by {
        assert(r.free[b] == s.free[b - 1]);
        if a > 0 {
            assert(r.free[a] == s.free[a - 1]);
        }
    }
    assert forall|j: u32| #[trigger] r.tasks.contains_key(j) <==> j < r.len && !r.free.contains(
        j,
    ) by {
        assert(s.tasks.contains_key(j) <==> j < s.len && !s.free.contains(j));
        if s.free.contains(j) {
            let i = s.free.index_of(j);
            assert(r.free[i + 1] == j);
        }
        if r.free.contains(j) && j != k {
            let i = r.free.index_of(j);
            assert(s.free[i - 1] == j);
        }
        if j == k {
            assert(r.free[0] == j);
        }
    }
}

/// The slot that was emptied last is the first to be used again.
pub proof fn law_last_freed_is_reused_first<F>(s: SlabView<F>, k: u32)
    ensures
        s.removed(k).next_slot() == k,
{
}

/// Taking out what was just inserted gives the same tasks as before.
pub proof fn law_remove_undoes_insert<F>(s: SlabView<F>, task: TaskView<F>)
    requires
        s.wf(),
        s.has_room(),
    ensures
        s.inserted(task).removed(s.next_slot()) == s.with_free_slot(),
        s.inserted(task).removed(s.next_slot()).tasks == s.tasks,
{
    law_insert(s, task);
    lemma_with_free_slot(s);
    let m = s.with_free_slot();
    let r = s.inserted(task).removed(s.next_slot());
    assert(r.tasks =~= m.tasks);
    assert(r.free =~= m.free);
}

proof fn lemma_below(n: u32)
    ensures
        Set::new(|k: u32| k < n).finite(),
        Set::new(|k: u32| k < n).len() == n,
    decreases n,
{
    let s = Set::new(|k: u32| k < n);
    if n == 0 {
        assert(s =~= Set::empty());
    } else {
        let m = (n - 1) as u32;
        lemma_below(m);
        assert(s =~= Set::new(|k: u32| k < m).insert(m));
    }
}

} // verus!
