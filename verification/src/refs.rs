//! Counting how often the entries of a list refer to a task.

use crate::task_slab::SlabIdx;
use vstd::prelude::*;

verus! {

/// An entry of a list that refers to a task.
pub trait RefersTo {
    /// The task.
    spec fn refers_to(&self) -> u32;
}

impl RefersTo for SlabIdx {
    open spec fn refers_to(&self) -> u32 {
        self.0
    }
}

/// How many entries of `s` refer to task `k`.
pub open spec fn count_refs<T: RefersTo>(s: Seq<T>, k: u32) -> nat
    decreases s.len(),
{
    if s.len() == 0 {
        0
    } else {
        count_refs(s.drop_last(), k) + one_if(s.last().refers_to() == k)
    }
}

/// One if `b` holds, else nothing.
pub open spec fn one_if(b: bool) -> nat {
    if b {
        1
    } else {
        0
    }
}

/// An entry at the end counts for the task it refers to.
pub proof fn lemma_count_push<T: RefersTo>(s: Seq<T>, x: T, k: u32)
    ensures
        count_refs(s.push(x), k) == count_refs(s, k) + one_if(x.refers_to() == k),
{
    assert(s.push(x).drop_last() =~= s);
}

/// Without its first entry a list counts one less for the task of that entry.
pub proof fn lemma_count_skip<T: RefersTo>(s: Seq<T>, k: u32)
    requires
        s.len() > 0,
    ensures
        count_refs(s, k) == count_refs(s.skip(1), k) + one_if(s[0].refers_to() == k),
    decreases s.len(),
{
    if s.len() == 1 {
        assert(s.skip(1) =~= Seq::empty());
        assert(s.drop_last() =~= Seq::empty());
        assert(count_refs(s.drop_last(), k) == 0);
    } else {
        lemma_count_skip(s.drop_last(), k);
        assert(s.skip(1).drop_last() =~= s.drop_last().skip(1));
    }
}

/// One entry more of a list counts for the task it refers to, and a part of a
/// list counts at most as much as the whole.
pub proof fn lemma_count_take<T: RefersTo>(s: Seq<T>, i: int, k: u32)
    requires
        0 <= i < s.len(),
    ensures
        count_refs(s.take(i + 1), k) == count_refs(s.take(i), k) + one_if(s[i].refers_to() == k),
        count_refs(s.take(i + 1), k) <= count_refs(s, k),
    decreases s.len() - i,
{
    assert(s.take(i + 1) =~= s.take(i).push(s[i]));
    lemma_count_push(s.take(i), s[i], k);
    if i + 1 < s.len() {
        lemma_count_take(s, i + 1, k);
    } else {
        assert(s.take(i + 1) =~= s);
    }
}

/// A task counts exactly if some entry refers to it.
pub proof fn lemma_count_positive<T: RefersTo>(s: Seq<T>, k: u32)
    ensures
        count_refs(s, k) > 0 <==> exists|i: int|
            0 <= i < s.len() && #[trigger] s[i].refers_to() == k,
    decreases s.len(),
{
    if s.len() > 0 {
        let t = s.drop_last();
        lemma_count_positive(t, k);
        if count_refs(t, k) > 0 {
            let i = choose|i: int| 0 <= i < t.len() && #[trigger] t[i].refers_to() == k;
            assert(s[i].refers_to() == k);
        }
        if exists|i: int| 0 <= i < s.len() && #[trigger] s[i].refers_to() == k {
            let i = choose|i: int| 0 <= i < s.len() && #[trigger] s[i].refers_to() == k;
            if i < t.len() {
                assert(t[i].refers_to() == k);
            }
        }
    }
}

} // verus!
