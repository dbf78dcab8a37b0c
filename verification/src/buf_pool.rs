//! One block of memory cut into equal slots, in two zones:
//!
//! ```text
//! [ 0 .. read_count )      read slots, lent to the kernel and handed out on completion
//! [ read_count .. total )  write slots, counted by reference and found on a free queue
//! ```
//!
//! The index of a slot is its position in the table of registered buffers. While
//! a read slot is lent, the kernel may change its bytes at any time: what is said
//! here about the bytes of a read slot holds from the completion that hands it out
//! until it is lent again.

use crate::sqe::Sqe;
use std::collections::VecDeque;
use vstd::prelude::*;

verus! {

pub const PAGE_SIZE: usize = 4096;

/// The number of bytes in a slot of `n` pages.
pub open spec fn buf_size(n: usize) -> int {
    n * PAGE_SIZE
}

/// The number of bytes from `start` to the next page boundary.
pub open spec fn padding(start: usize) -> int {
    (PAGE_SIZE - start % PAGE_SIZE) % PAGE_SIZE as int
}

/// Where a registered buffer starts and how long it is.
#[derive(Clone, Copy, Debug, PartialEq, Eq, Structural)]
pub struct IoVec {
    pub base: usize,
    pub len: usize,
}

/// The pool of read and write slots, each `N` pages long.
pub struct BufPool<const N: usize> {
    mem: Vec<u8>,
    offset: usize,
    base: usize,
    read_count: u32,
    write_free: VecDeque<u32>,
    write_rc: Vec<u32>,
}

/// What a pool holds.
#[verifier::ext_equal]
pub struct PoolView {
    /// The bytes of all slots, one slot after the other.
    pub mem: Seq<u8>,
    /// The address of the first byte.
    pub base: usize,
    /// The number of read slots.
    pub read_count: u32,
    /// The free write slots, the next one to be used first.
    pub free: Seq<u32>,
    /// The number of references to every write slot.
    pub rc: Seq<u32>,
}

impl PoolView {
    /// The number of slots.
    pub open spec fn total(self) -> int {
        self.read_count + self.rc.len()
    }

    /// The slot belongs to the write zone.
    pub open spec fn is_write_slot(self, abs_idx: u32) -> bool {
        self.read_count <= abs_idx < self.total()
    }

    /// The number of references to a write slot.
    pub open spec fn refs(self, abs_idx: u32) -> u32 {
        self.rc[abs_idx - self.read_count]
    }

    /// The write slot is referred to by someone.
    pub open spec fn in_use(self, abs_idx: u32) -> bool {
        self.is_write_slot(abs_idx) && self.refs(abs_idx) > 0
    }

    /// The memory holds all slots, and a write slot is free exactly if nobody
    /// refers to it.
    pub open spec fn wf(self, n: usize) -> bool {
        &&& n > 0
        &&& self.read_count > 0
        &&& self.rc.len() > 0
        &&& self.total() <= u32::MAX
        &&& self.mem.len() == self.total() * buf_size(n)
        &&& self.base % PAGE_SIZE == 0
        &&& self.base + self.mem.len() <= usize::MAX
        &&& self.free.no_duplicates()
        &&& forall|i: int|
            0 <= i < self.free.len() ==> self.is_write_slot(#[trigger] self.free[i]) && self.refs(
                self.free[i],
            ) == 0
        &&& forall|k: u32|
            self.is_write_slot(k) && #[trigger] self.refs(k) == 0 ==> self.free.contains(k)
    }

    /// The position of the first byte of slot `i`.
    pub open spec fn start(self, n: usize, i: int) -> int {
        i * buf_size(n)
    }

    /// The bytes of slot `i`.
    pub open spec fn slot(self, n: usize, i: int) -> Seq<u8> {
        self.mem.subrange(self.start(n, i), self.start(n, i) + buf_size(n))
    }

    /// The address of slot `i`.
    pub open spec fn address(self, n: usize, i: int) -> int {
        self.base + i * buf_size(n)
    }

    /// The pool after slot `i` has been filled with `bytes`.
    pub open spec fn with_slot(self, n: usize, i: int, bytes: Seq<u8>) -> Self {
        PoolView {
            mem: self.mem.subrange(0, self.start(n, i)) + bytes + self.mem.subrange(
                self.start(n, i) + buf_size(n),
                self.mem.len() as int,
            ),
            ..self
        }
    }

    /// The pool after a write slot's references have become `refs`.
    pub open spec fn with_refs(self, abs_idx: u32, refs: u32) -> Self {
        PoolView { rc: self.rc.update(abs_idx - self.read_count, refs), ..self }
    }

    /// The pool after the first free write slot has been handed out.
    pub open spec fn allocated(self) -> Self {
        PoolView { free: self.free.skip(1), ..self.with_refs(self.free[0], 1) }
    }

    /// The pool after one more reference to a write slot.
    pub open spec fn retained(self, abs_idx: u32) -> Self {
        self.with_refs(abs_idx, (self.refs(abs_idx) + 1) as u32)
    }

    /// The pool after one reference less to a write slot; the last one puts the
    /// slot at the end of the free queue.
    pub open spec fn released(self, abs_idx: u32) -> Self {
        let p = self.with_refs(abs_idx, (self.refs(abs_idx) - 1) as u32);
        if self.refs(abs_idx) == 1 {
            PoolView { free: p.free.push(abs_idx), ..p }
        } else {
            p
        }
    }
}

impl<const N: usize> View for BufPool<N> {
    type V = PoolView;

    closed spec fn view(&self) -> PoolView {
        PoolView {
            mem: self.mem@.skip(self.offset as int),
            base: self.base,
            read_count: self.read_count,
            free: self.write_free@,
            rc: self.write_rc@,
        }
    }
}

/// The address of the first byte of `mem`, from `Vec::as_ptr`. The block that a
/// vector owns does not wrap around the end of the address space. Which address
/// it is depends on the allocator and is not stated.
#[verifier::external_body]
fn address_of(mem: &Vec<u8>) -> (addr: usize)
    ensures
        addr + mem@.len() <= usize::MAX,
{
    mem.as_ptr() as usize
}

proof fn lemma_slot_bounds(i: int, total: int, size: int)
    requires
        0 <= i < total,
        size > 0,
    ensures
        0 <= i * size,
        i * size + size <= total * size,
        (i + 1) * size == i * size + size,
{
    assert(0 <= i * size && i * size + size <= total * size && (i + 1) * size == i * size + size)
        by (nonlinear_arith)
        requires
            0 <= i < total,
            size > 0,
    ;
}

impl<const N: usize> BufPool<N> {
    /// The first slot lies within the block of memory.
    pub closed spec fn placed(&self) -> bool {
        self.offset <= self.mem@.len()
    }

    /// The pool is in a consistent state.
    pub open spec fn wf(&self) -> bool {
        self@.wf(N) && self.placed()
    }

    /// A pool of zeroed slots, all write slots free in ascending order. Where the
    /// slots lie depends on the allocator: see [`BufPool::laid_out`] for that.
    pub fn new(read_count: u32, write_count: u32) -> (pool: Self)
        requires
            N > 0,
            read_count > 0,
            write_count > 0,
            read_count + write_count <= u32::MAX,
            (read_count + write_count) * buf_size(N) + PAGE_SIZE <= isize::MAX,
        ensures
            pool.wf(),
            pool@.read_count == read_count,
            pool@.mem == Seq::new(
                ((read_count + write_count) * buf_size(N)) as nat,
                |i: int| 0u8,
            ),
            pool@.free == crate::task_slab::index_range(
                read_count,
                (read_count + write_count) as u32,
            ),
            pool@.rc == Seq::new(write_count as nat, |i: int| 0u32),
    {
        let total: u32 = read_count + write_count;
        proof {
            assert(N * 4096 <= total * (N * 4096)) by (nonlinear_arith)
                requires
                    total > 0,
            ;
        }
        let mem: Vec<u8> = vec![0u8;total as usize * (N * PAGE_SIZE) + PAGE_SIZE];
        let start: usize = address_of(&mem);
        let pool = Self::laid_out(mem, start, read_count, write_count);
        assert(pool@.mem =~= Seq::new((total * buf_size(N)) as nat, |i: int| 0u8));
        pool
    }

    /// A pool in the block `mem`, whose first byte has the address `start`. The
    /// first slot begins at the first page boundary in the block, and one page more
    /// than the slots take is enough for that.
    pub fn laid_out(mem: Vec<u8>, start: usize, read_count: u32, write_count: u32) -> (pool: Self)
        requires
            N > 0,
            read_count > 0,
            write_count > 0,
            read_count + write_count <= u32::MAX,
            mem@.len() == (read_count + write_count) * buf_size(N) + PAGE_SIZE,
            mem@.len() <= isize::MAX,
            start + mem@.len() <= usize::MAX,
        ensures
            pool.wf(),
            pool@.base == start + padding(start),
            pool@.base % PAGE_SIZE == 0,
            pool@.read_count == read_count,
            pool@.mem == mem@.subrange(
                padding(start),
                padding(start) + (read_count + write_count) * buf_size(N),
            ),
            pool@.free == crate::task_slab::index_range(
                read_count,
                (read_count + write_count) as u32,
            ),
            pool@.rc == Seq::new(write_count as nat, |i: int| 0u32),
    {
        let total: u32 = read_count + write_count;
        let ghost block = mem@;
        let mut mem = mem;
        let offset: usize = (PAGE_SIZE - start % PAGE_SIZE) % PAGE_SIZE;
        let base: usize = start + offset;
        let end: usize = offset + (mem.len() - PAGE_SIZE);
        mem.truncate(end);
        let write_rc: Vec<u32> = vec![0u32;write_count as usize];
        let mut write_free: VecDeque<u32> = VecDeque::new();
        let mut i: u32 = read_count;
        while i < total
            invariant
                read_count <= i <= total,
                write_free@ == crate::task_slab::index_range(read_count, i),
            decreases total - i,
        {
            write_free.push_back(i);
            i = i + 1;
            assert(write_free@ =~= crate::task_slab::index_range(read_count, i));
        }
        let pool = BufPool { mem, offset, base, read_count, write_free, write_rc };
        proof {
            assert(pool@.mem =~= block.subrange(offset as int, end as int));
            assert(pool@.rc =~= Seq::new(write_count as nat, |i: int| 0u32));
            assert forall|k: u32| pool@.is_write_slot(k) implies pool@.free.contains(k) by {
                assert(pool@.free[k - read_count] == k);
            }
        }
        pool
    }

    /// The number of bytes in a slot.
    pub fn slot_size() -> (size: usize)
        requires
            buf_size(N) <= usize::MAX,
        ensures
            size == buf_size(N),
    {
        N * PAGE_SIZE
    }

    /// The number of read slots.
    pub fn read_count(&self) -> (n: u32)
        ensures
            n == self@.read_count,
    {
        self.read_count
    }

    /// The number of write slots.
    pub fn write_count(&self) -> (n: usize)
        ensures
            n == self@.rc.len(),
    {
        self.write_rc.len()
    }

    /// The address of slot `i`.
    fn slot_address(&self, i: u32) -> (addr: usize)
        requires
            self.wf(),
            i < self@.total(),
        ensures
            addr == self@.address(N, i as int),
    {
        proof {
            lemma_slot_bounds(i as int, self@.total(), buf_size(N));
            lemma_slot_bounds(0, self@.total(), buf_size(N));
        }
        self.base + i as usize * Self::slot_size()
    }

    /// The address of the write slot number `buf_id`, counted from the first
    /// write slot.
    pub fn write_buf_ptr(&self, buf_id: u16) -> (addr: usize)
        requires
            self.wf(),
            buf_id < self@.rc.len(),
        ensures
            addr == self@.address(N, self@.read_count + buf_id),
    {
        self.slot_address(self.read_count + buf_id as u32)
    }

    /// The address of a read slot.
    pub fn read_buf_addr(&self, buf_idx: u32) -> (addr: usize)
        requires
            self.wf(),
            buf_idx < self@.read_count,
        ensures
            addr == self@.address(N, buf_idx as int),
    {
        self.slot_address(buf_idx)
    }

    /// The table of all slots, read slots first.
    pub fn build_iovecs(&self) -> (table: Vec<IoVec>)
        requires
            self.wf(),
        ensures
            table@.len() == self@.total(),
            forall|i: int|
                0 <= i < self@.total() ==> #[trigger] table@[i].base == self@.address(N, i)
                    && table@[i].len == buf_size(N),
    {
        let total: u32 = self.read_count + self.write_rc.len() as u32;
        proof {
            lemma_slot_bounds(0, self@.total(), buf_size(N));
        }
        let size: usize = Self::slot_size();
        let mut table: Vec<IoVec> = Vec::new();
        let mut i: u32 = 0;
        while i < total
            invariant
                self.wf(),
                total == self@.total(),
                i <= total,
                size == buf_size(N),
                table@.len() == i,
                forall|j: int|
                    0 <= j < i ==> #[trigger] table@[j].base == self@.address(N, j) && table@[j].len
                        == buf_size(N),
            decreases total - i,
        {
            table.push(IoVec { base: self.slot_address(i), len: size });
            i = i + 1;
        }
        table
    }

    /// The read slot that a completed read has filled with `bytes` bytes from
    /// the connection `fd_idx`.
    pub fn checkout_read(&self, buf_idx: u32, fd_idx: u32, bytes: u32) -> (buf: RwBuffer<N>)
        requires
            self.wf(),
            buf_idx < self@.read_count,
        ensures
            buf == (RwBuffer::<N> { buf_idx, fd_idx, bytes }),
    {
        RwBuffer { buf_idx, fd_idx, bytes }
    }

    /// Tells whether a write slot is free.
    pub fn has_free_write(&self) -> (b: bool)
        ensures
            b == (self@.free.len() > 0),
    {
        self.write_free.len() > 0
    }

    /// Hands out the first free write slot, with one reference.
    pub fn alloc_write(&mut self) -> (buf: WBuffer<N>)
        requires
            old(self).wf(),
            old(self)@.free.len() > 0,
        ensures
            final(self).wf(),
            buf@ == old(self)@.free[0],
            final(self)@ == old(self)@.allocated(),
    {
        proof {
            law_allocate(self@, N);
        }
        match self.write_free.pop_front() {
            Some(abs_idx) => {
                let rel: usize = (abs_idx - self.read_count) as usize;
                self.write_rc.set(rel, 1);
                WBuffer { abs_idx }
            },
            None => WBuffer { abs_idx: 0 },
        }
    }

    /// Tells whether someone refers to the write slot `abs_idx`.
    pub fn is_in_use(&self, abs_idx: u32) -> (b: bool)
        requires
            self.wf(),
        ensures
            b == self@.in_use(abs_idx),
    {
        abs_idx >= self.read_count && ((abs_idx - self.read_count) as usize) < self.write_rc.len()
            && self.write_rc[(abs_idx - self.read_count) as usize] > 0
    }

    /// The number of references to the write slot `abs_idx`.
    pub fn ref_count(&self, abs_idx: u32) -> (n: u32)
        requires
            self.wf(),
            self@.is_write_slot(abs_idx),
        ensures
            n == self@.refs(abs_idx),
    {
        self.write_rc[(abs_idx - self.read_count) as usize]
    }

    /// A write from slot `abs_idx` has completed: its reference goes. The last
    /// completion frees the slot.
    pub fn on_write_cqe(&mut self, abs_idx: u32)
        requires
            old(self).wf(),
            old(self)@.in_use(abs_idx),
        ensures
            final(self).wf(),
            final(self)@ == old(self)@.released(abs_idx),
    {
        proof {
            law_release(self@, N, abs_idx);
        }
        let rel: usize = (abs_idx - self.read_count) as usize;
        let left: u32 = self.write_rc[rel] - 1;
        self.write_rc.set(rel, left);
        if left == 0 {
            self.write_free.push_back(abs_idx);
        }
    }

    /// The bytes of slot `i`.
    fn slot(&self, i: u32) -> (bytes: &[u8])
        requires
            self.wf(),
            i < self@.total(),
        ensures
            bytes@ == self@.slot(N, i as int),
    {
        proof {
            lemma_slot_bounds(i as int, self@.total(), buf_size(N));
            lemma_slot_bounds(0, self@.total(), buf_size(N));
        }
        let size: usize = Self::slot_size();
        assert(self.mem.len() == self.offset + self@.mem.len());
        let start: usize = self.offset + i as usize * size;
        &self.mem[start..start + size]
    }

    /// The bytes of slot `i`, to be written in place.
    fn slot_mut(&mut self, i: u32) -> (bytes: &mut [u8])
        requires
            old(self).wf(),
            i < old(self)@.total(),
        ensures
            bytes@ == old(self)@.slot(N, i as int),
            final(self)@ == old(self)@.with_slot(N, i as int, final(bytes)@),
            final(bytes)@.len() == buf_size(N) ==> final(self).wf(),
    {
        proof {
            lemma_slot_bounds(i as int, self@.total(), buf_size(N));
            lemma_slot_bounds(0, self@.total(), buf_size(N));
            assert forall|written: Seq<u8>|
                written.len() == buf_size(N) implies #[trigger] self@.with_slot(
                N,
                i as int,
                written,
            ).wf(N) by {
                law_slot_read_after_write(self@, N, i as int, i as int, written);
            }
        }
        let size: usize = Self::slot_size();
        assert(self.mem.len() == self.offset + self@.mem.len());
        let start: usize = self.offset + i as usize * size;
        let (_before, rest) = self.mem.as_mut_slice().split_at_mut(start);
        let (bytes, _after) = rest.split_at_mut(size);
        assert(after_borrow(self)@ =~= old(self)@.with_slot(N, i as int, final(bytes)@));
        bytes
    }
}

/// A read slot that holds what a connection has sent.
///
/// Whoever owns it either gives the slot back to the kernel as it is, or
/// commits an answer written in place. Both consume it.
pub struct RwBuffer<const N: usize> {
    pub buf_idx: u32,
    pub fd_idx: u32,
    /// The number of bytes received.
    pub bytes: u32,
}

impl<const N: usize> RwBuffer<N> {
    /// The bytes that were received.
    pub fn read_slice<'a>(&self, pool: &'a BufPool<N>) -> (r: &'a [u8])
        requires
            pool.wf(),
            self.buf_idx < pool@.read_count,
            self.bytes <= buf_size(N),
        ensures
            r@ == pool@.slot(N, self.buf_idx as int).take(self.bytes as int),
    {
        let all = pool.slot(self.buf_idx);
        proof {
            lemma_slot_bounds(self.buf_idx as int, pool@.total(), buf_size(N));
        }
        &all[0..self.bytes as usize]
    }

    /// The whole slot, to write the answer in place.
    pub fn write_slice<'a>(&mut self, pool: &'a mut BufPool<N>) -> (r: &'a mut [u8])
        requires
            old(pool).wf(),
            old(self).buf_idx < old(pool)@.read_count,
        ensures
            *final(self) == *old(self),
            r@ == old(pool)@.slot(N, old(self).buf_idx as int),
            final(pool)@ == old(pool)@.with_slot(N, old(self).buf_idx as int, final(r)@),
            final(r)@.len() == buf_size(N) ==> final(pool).wf(),
    {
        pool.slot_mut(self.buf_idx)
    }
}

/// One reference to a write slot.
pub struct WBuffer<const N: usize> {
    abs_idx: u32,
}

impl<const N: usize> View for WBuffer<N> {
    type V = u32;

    closed spec fn view(&self) -> u32 {
        self.abs_idx
    }
}

impl<const N: usize> WBuffer<N> {
    /// The position of the slot in the table of registered buffers, cut to the
    /// 16 bits that a request has room for.
    pub fn index(&self) -> (i: u16)
        ensures
            i == self@ as u16,
    {
        self.abs_idx as u16
    }

    /// The position of the slot in the table of registered buffers.
    pub fn slot_index(&self) -> (i: u32)
        ensures
            i == self@,
    {
        self.abs_idx
    }

    /// The bytes of the slot.
    pub fn read_slice<'a>(&self, pool: &'a BufPool<N>) -> (r: &'a [u8])
        requires
            pool.wf(),
            pool@.in_use(self@),
        ensures
            r@ == pool@.slot(N, self@ as int),
    {
        pool.slot(self.abs_idx)
    }

    /// The bytes of the slot, to be written in place.
    pub fn write_slice<'a>(&mut self, pool: &'a mut BufPool<N>) -> (r: &'a mut [u8])
        requires
            old(pool).wf(),
            old(pool)@.in_use(old(self)@),
        ensures
            *final(self) == *old(self),
            r@ == old(pool)@.slot(N, old(self)@ as int),
            final(pool)@ == old(pool)@.with_slot(N, old(self)@ as int, final(r)@),
            final(r)@.len() == buf_size(N) ==> final(pool).wf(),
    {
        pool.slot_mut(self.abs_idx)
    }

    /// The request that writes `len` bytes of the slot to a connection.
    pub fn write(&self, pool: &BufPool<N>, fd_idx: u32, len: u32, user_data: u64) -> (sqe: Sqe)
        requires
            pool.wf(),
            pool@.in_use(self@),
        ensures
            sqe == (Sqe::WriteFixed {
                fd: fd_idx,
                addr: pool@.address(N, self@ as int) as usize,
                len,
                buf_index: self@ as u16,
                user_data,
            }),
    {
        Sqe::WriteFixed {
            fd: fd_idx,
            addr: pool.slot_address(self.abs_idx),
            len,
            buf_index: self.index(),
            user_data,
        }
    }

    /// A second reference to the same slot.
    pub fn clone(&self, pool: &mut BufPool<N>) -> (other: WBuffer<N>)
        requires
            old(pool).wf(),
            old(pool)@.in_use(self@),
            old(pool)@.refs(self@) < u32::MAX,
        ensures
            final(pool).wf(),
            other@ == self@,
            final(pool)@ == old(pool)@.retained(self@),
    {
        proof {
            law_retain(pool@, N, self@);
        }
        let rel: usize = (self.abs_idx - pool.read_count) as usize;
        let more: u32 = pool.write_rc[rel] + 1;
        pool.write_rc.set(rel, more);
        WBuffer { abs_idx: self.abs_idx }
    }

    /// Gives the reference back; the last one frees the slot.
    pub fn release(self, pool: &mut BufPool<N>)
        requires
            old(pool).wf(),
            old(pool)@.in_use(self@),
        ensures
            final(pool).wf(),
            final(pool)@ == old(pool)@.released(self@),
    {
        pool.on_write_cqe(self.abs_idx);
    }
}

/// Handing out a slot keeps the pool consistent; the slot had no reference
/// before, and every slot that is in use keeps its own.
pub proof fn law_allocate(p: PoolView, n: usize)
    requires
        p.wf(n),
        p.free.len() > 0,
    ensures
        p.allocated().wf(n),
        p.is_write_slot(p.free[0]),
        !p.in_use(p.free[0]),
        p.allocated().refs(p.free[0]) == 1,
        forall|k: u32| #[trigger] p.in_use(k) ==> p.allocated().refs(k) == p.refs(k),
{
    let q = p.allocated();
    let a = p.free[0];
    assert(p.is_write_slot(a) && p.refs(a) == 0);
    assert forall|i: int| 0 <= i < q.free.len() implies q.is_write_slot(#[trigger] q.free[i])
        && q.refs(q.free[i]) == 0 by {
        assert(q.free[i] == p.free[i + 1]);
        assert(p.free[i + 1] != p.free[0]);
    }
    assert forall|k: u32| q.is_write_slot(k) && #[trigger] q.refs(k) == 0 implies q.free.contains(
        k,
    ) by {
        assert(p.refs(k) == 0);
        let j = p.free.index_of(k);
        assert(p.free[j] == k);
        assert(q.free[j - 1] == k);
    }
}

/// Another reference keeps the pool consistent.
pub proof fn law_retain(p: PoolView, n: usize, abs_idx: u32)
    requires
        p.wf(n),
        p.in_use(abs_idx),
        p.refs(abs_idx) < u32::MAX,
    ensures
        p.retained(abs_idx).wf(n),
        p.retained(abs_idx).refs(abs_idx) == p.refs(abs_idx) + 1,
{
    let q = p.retained(abs_idx);
    assert forall|i: int| 0 <= i < q.free.len() implies q.is_write_slot(#[trigger] q.free[i])
        && q.refs(q.free[i]) == 0 by {
        assert(p.refs(p.free[i]) == 0);
    }
    assert forall|k: u32| q.is_write_slot(k) && #[trigger] q.refs(k) == 0 implies q.free.contains(
        k,
    ) by {
        assert(p.refs(k) == 0);
    }
}

/// A reference less keeps the pool consistent, and frees the slot exactly if it
/// was the last one.
pub proof fn law_release(p: PoolView, n: usize, abs_idx: u32)
    requires
        p.wf(n),
        p.in_use(abs_idx),
    ensures
        p.released(abs_idx).wf(n),
        p.released(abs_idx).refs(abs_idx) == p.refs(abs_idx) - 1,
        p.released(abs_idx).free.contains(abs_idx) <==> p.refs(abs_idx) == 1,
{
    let q = p.released(abs_idx);
    if p.free.contains(abs_idx) {
        let j = p.free.index_of(abs_idx);
        assert(p.refs(p.free[j]) == 0);
    }
    assert forall|i: int| 0 <= i < q.free.len() implies q.is_write_slot(#[trigger] q.free[i])
        && q.refs(q.free[i]) == 0 by {
        if i < p.free.len() {
            assert(p.refs(p.free[i]) == 0);
        }
    }
    if p.refs(abs_idx) == 1 {
        assert(q.free[p.free.len() as int] == abs_idx);
    }
    assert forall|k: u32| q.is_write_slot(k) && #[trigger] q.refs(k) == 0 implies q.free.contains(
        k,
    ) by {
        if k != abs_idx {
            assert(p.refs(k) == 0);
            let j = p.free.index_of(k);
            assert(q.free[j] == k);
        }
    }
}

/// The pool after `times` more references to a slot.
pub open spec fn retained_times(p: PoolView, abs_idx: u32, times: nat) -> PoolView
    decreases times,
{
    if times == 0 {
        p
    } else {
        retained_times(p, abs_idx, (times - 1) as nat).retained(abs_idx)
    }
}

/// The pool after `times` references less to a slot.
pub open spec fn released_times(p: PoolView, abs_idx: u32, times: nat) -> PoolView
    decreases times,
{
    if times == 0 {
        p
    } else {
        released_times(p, abs_idx, (times - 1) as nat).released(abs_idx)
    }
}

/// Fan-out: a slot is handed out, cloned until it has `times` references, and
/// every one of them is given back by the completion of a write. Before the last
/// completion the slot is not free; after it the slot stands at the end of the
/// free queue, and nothing else has changed.
pub proof fn law_fan_out(p: PoolView, n: usize, times: u32, done: u32)
    requires
        p.wf(n),
        p.free.len() > 0,
        0 < done <= times,
    ensures
        ({
            let a = p.free[0];
            let shared = retained_times(p.allocated(), a, (times - 1) as nat);
            let q = released_times(shared, a, done as nat);
            &&& shared.wf(n)
            &&& shared.refs(a) == times
            &&& q.wf(n)
            &&& q.refs(a) == times - done
            &&& done < times ==> q.in_use(a) && !q.free.contains(a)
            &&& done == times ==> q == (PoolView { free: p.free.skip(1).push(a), ..p })
        }),
{
    let a = p.free[0];
    law_allocate(p, n);
    lemma_retained_times(p.allocated(), n, a, (times - 1) as nat);
    let shared = retained_times(p.allocated(), a, (times - 1) as nat);
    lemma_released_times(shared, n, a, done as nat);
    let q = released_times(shared, a, done as nat);
    if done < times && q.free.contains(a) {
        let j = q.free.index_of(a);
        assert(q.refs(q.free[j]) == 0);
    }
    if done == times {
        assert(q.rc =~= p.rc);
    }
}

proof fn lemma_retained_times(p: PoolView, n: usize, a: u32, times: nat)
    requires
        p.wf(n),
        p.in_use(a),
        p.refs(a) + times <= u32::MAX,
    ensures
        retained_times(p, a, times).wf(n),
        retained_times(p, a, times).in_use(a),
        retained_times(p, a, times) == p.with_refs(a, (p.refs(a) + times) as u32),
    decreases times,
{
    if times == 0 {
        assert(p.with_refs(a, p.refs(a)) =~= p);
    } else {
        lemma_retained_times(p, n, a, (times - 1) as nat);
        law_retain(retained_times(p, a, (times - 1) as nat), n, a);
        assert(retained_times(p, a, times) =~= p.with_refs(a, (p.refs(a) + times) as u32));
    }
}

proof fn lemma_released_times(p: PoolView, n: usize, a: u32, times: nat)
    requires
        p.wf(n),
        p.in_use(a),
        0 < times <= p.refs(a),
    ensures
        released_times(p, a, times).wf(n),
        released_times(p, a, times) == (if times == p.refs(a) {
            PoolView { free: p.free.push(a), ..p.with_refs(a, 0) }
        } else {
            p.with_refs(a, (p.refs(a) - times) as u32)
        }),
    decreases times,
{
    reveal_with_fuel(released_times, 2);
    if times == 1 {
        law_release(p, n, a);
    } else {
        lemma_released_times(p, n, a, (times - 1) as nat);
        let q = released_times(p, a, (times - 1) as nat);
        law_release(q, n, a);
        assert(q.released(a).rc =~= p.with_refs(a, (p.refs(a) - times) as u32).rc);
    }
}

/// Two different slots share no byte, and both lie within the memory.
pub proof fn law_slots_are_disjoint(p: PoolView, n: usize, i: int, j: int)
    requires
        p.wf(n),
        0 <= i < j < p.total(),
    ensures
        0 <= p.start(n, i),
        p.start(n, i) + buf_size(n) <= p.start(n, j),
        p.start(n, j) + buf_size(n) <= p.mem.len(),
{
    lemma_slot_bounds(i, j, buf_size(n));
    lemma_slot_bounds(j, p.total(), buf_size(n));
}

/// Every slot starts on a page of its own.
pub proof fn law_slots_start_on_pages(p: PoolView, n: usize, i: int)
    requires
        p.wf(n),
        0 <= i < p.total(),
    ensures
        p.address(n, i) % PAGE_SIZE as int == 0,
{
    assert(i * (n * PAGE_SIZE) == (i * n) * PAGE_SIZE) by (nonlinear_arith);
    vstd::arithmetic::div_mod::lemma_mod_multiples_vanish(
        i * n,
        p.base as int,
        PAGE_SIZE as int,
    );
}

/// Reading a slot gives what was written to it, and no other slot has changed.
pub proof fn law_slot_read_after_write(p: PoolView, n: usize, i: int, j: int, bytes: Seq<u8>)
    requires
        p.wf(n),
        0 <= i < p.total(),
        0 <= j < p.total(),
        bytes.len() == buf_size(n),
    ensures
        p.with_slot(n, i, bytes).wf(n),
        p.with_slot(n, i, bytes).slot(n, i) == bytes,
        i != j ==> p.with_slot(n, i, bytes).slot(n, j) == p.slot(n, j),
{
    let q = p.with_slot(n, i, bytes);
    lemma_slot_bounds(i, p.total(), buf_size(n));
    lemma_slot_bounds(j, p.total(), buf_size(n));
    if i < j {
        law_slots_are_disjoint(p, n, i, j);
    } else if j < i {
        law_slots_are_disjoint(p, n, j, i);
    }
    assert forall|k: u32| q.is_write_slot(k) && #[trigger] q.refs(k) == 0 implies q.free.contains(
        k,
    ) by {
        assert(p.refs(k) == 0);
    }
    assert forall|k: int| 0 <= k < q.free.len() implies q.is_write_slot(#[trigger] q.free[k])
        && q.refs(q.free[k]) == 0 by {
        assert(p.refs(p.free[k]) == 0);
    }
    assert(q.slot(n, i) =~= bytes);
    assert(i != j ==> q.slot(n, j) =~= p.slot(n, j));
}

} // verus!
