//! Slots of memory, and the ring that lends read slots to the kernel.

use crate::buf_pool::{BufPool, IoVec, PoolView, RwBuffer, WBuffer};
use crate::buf_ring::{BufRing, RingEntry, RingUpdate};
use crate::sqe::Sqe;
use vstd::prelude::*;

verus! {

/// A new pool has zeroed slots, and its write slots are free, in ascending order.
pub proof fn law_new_pool<const N: usize>(reads: u32, writes: u32, pool: BufPool<N>)
    requires
        call_ensures(BufPool::<N>::new, (reads, writes), pool),
        reads + writes <= u32::MAX,
    ensures
        pool@.read_count == reads,
        pool@.mem.len() == (reads + writes) * (N * 4096),
        forall|j: int| 0 <= j < pool@.mem.len() ==> #[trigger] pool@.mem[j] == 0,
        pool@.free.len() == writes,
        forall|i: int| 0 <= i < writes ==> #[trigger] pool@.free[i] == reads + i,
        pool@.rc.len() == writes,
        forall|i: int| 0 <= i < writes ==> #[trigger] pool@.rc[i] == 0,
        pool@.base % 4096 == 0,
{
    assert(0 <= (reads + writes) * (N * 4096)) by (nonlinear_arith)
        requires
            reads >= 0,
            writes >= 0,
            N >= 0,
    ;
}

/// A pool that is laid out in a block begins at the first page boundary in it: less
/// than a page from its start, and with the bytes that stand there.
pub proof fn law_pool_in_a_block<const N: usize>(
    mem: Vec<u8>,
    start: usize,
    reads: u32,
    writes: u32,
    pool: BufPool<N>,
)
    requires
        call_ensures(BufPool::<N>::laid_out, (mem, start, reads, writes), pool),
        reads + writes <= u32::MAX,
        mem@.len() == (reads + writes) * (N * 4096) + 4096,
    ensures
        start <= pool@.base < start + 4096,
        pool@.base % 4096 == 0,
        pool@.mem.len() == (reads + writes) * (N * 4096),
        forall|j: int|
            0 <= j < pool@.mem.len() ==> #[trigger] pool@.mem[j] == mem@[pool@.base - start + j],
        pool@.read_count == reads,
        pool@.free.len() == writes,
        forall|i: int| 0 <= i < writes ==> #[trigger] pool@.free[i] == reads + i,
        pool@.rc.len() == writes,
        forall|i: int| 0 <= i < writes ==> #[trigger] pool@.rc[i] == 0,
{
    assert(0 <= (reads + writes) * (N * 4096)) by (nonlinear_arith)
        requires
            reads >= 0,
            writes >= 0,
            N >= 0,
    ;
}

/// Slots lie one behind the other, `N` pages each, read slots first; and the table
/// of all slots says the same as the addresses of the single ones.
pub proof fn law_addresses<const N: usize>(
    pool: &BufPool<N>,
    read: u32,
    r: usize,
    write: u16,
    w: usize,
    table: Vec<IoVec>,
    i: int,
    size: usize,
)
    requires
        pool.wf(),
        read < pool@.read_count,
        write < pool@.rc.len(),
        0 <= i < pool@.read_count + pool@.rc.len(),
        call_ensures(BufPool::<N>::read_buf_addr, (pool, read), r),
        call_ensures(BufPool::<N>::write_buf_ptr, (pool, write), w),
        call_ensures(BufPool::<N>::build_iovecs, (pool,), table),
        call_ensures(BufPool::<N>::slot_size, (), size),
    ensures
        r == pool@.base + read * (N * 4096),
        w == pool@.base + (pool@.read_count + write) * (N * 4096),
        table@.len() == pool@.read_count + pool@.rc.len(),
        table@[i].base == pool@.base + i * (N * 4096),
        table@[i].len == N * 4096,
        size == N * 4096,
{
}

/// A read slot that is checked out is the one that was named, with the connection and
/// the number of bytes that were given.
pub proof fn law_checkout<const N: usize>(
    pool: &BufPool<N>,
    buf_idx: u32,
    fd_idx: u32,
    bytes: u32,
    buf: RwBuffer<N>,
)
    requires
        call_ensures(BufPool::<N>::checkout_read, (pool, buf_idx, fd_idx, bytes), buf),
    ensures
        buf.buf_idx == buf_idx,
        buf.fd_idx == fd_idx,
        buf.bytes == bytes,
{
}

/// What is read from a read slot are the bytes received: as many as were, from the
/// start of the slot.
pub proof fn law_received_bytes<const N: usize>(
    buf: &RwBuffer<N>,
    pool: &BufPool<N>,
    r: &[u8],
    j: int,
)
    requires
        pool.wf(),
        buf.buf_idx < pool@.read_count,
        buf.bytes <= N * 4096,
        call_ensures(RwBuffer::<N>::read_slice, (buf, pool), r),
        0 <= j < buf.bytes,
    ensures
        r@.len() == buf.bytes,
        r@[j] == pool@.mem[buf.buf_idx * (N * 4096) + j],
{
    lemma_slot(pool@, N, buf.buf_idx as int, j);
}

proof fn lemma_slot(p: PoolView, n: usize, i: int, j: int)
    requires
        p.wf(n),
        0 <= i < p.total(),
        0 <= j < n * 4096,
    ensures
        p.slot(n, i).len() == n * 4096,
        p.slot(n, i)[j] == p.mem[i * (n * 4096) + j],
        0 <= i * (n * 4096) + j < p.mem.len(),
{
    assert(0 <= i * (n * 4096) && i * (n * 4096) + n * 4096 <= p.total() * (n * 4096))
        by (nonlinear_arith)
        requires
            0 <= i < p.total(),
            n >= 0,
    ;
}

/// The whole slot is handed out to write an answer in place. What is written there is
/// what the slot holds afterwards, byte by byte, and no byte outside it changes, nor
/// anything else about the pool.
pub proof fn law_answer_is_written_in_place<const N: usize>(
    buf: &mut RwBuffer<N>,
    pool: &mut BufPool<N>,
    r: &mut [u8],
    j: int,
)
    requires
        old(pool).wf(),
        old(buf).buf_idx < old(pool)@.read_count,
        call_ensures(RwBuffer::<N>::write_slice, (buf, pool), r),
        final(r)@.len() == N * 4096,
        0 <= j < old(pool)@.mem.len(),
    ensures
        *final(buf) == *old(buf),
        old(r)@.len() == N * 4096,
        final(pool)@ == (PoolView { mem: final(pool)@.mem, ..old(pool)@ }),
        final(pool)@.mem.len() == old(pool)@.mem.len(),
        ({
            let start = old(buf).buf_idx * (N * 4096);
            if start <= j < start + N * 4096 {
                &&& old(r)@[j - start] == old(pool)@.mem[j]
                &&& final(pool)@.mem[j] == final(r)@[j - start]
            } else {
                final(pool)@.mem[j] == old(pool)@.mem[j]
            }
        }),
{
    let i = old(buf).buf_idx as int;
    lemma_slot(old(pool)@, N, i, 0);
    lemma_slot(old(pool)@, N, i, N * 4096 - 1);
}

/// The same of a write slot.
pub proof fn law_slot_is_written_in_place<const N: usize>(
    buf: &mut WBuffer<N>,
    pool: &mut BufPool<N>,
    r: &mut [u8],
    j: int,
)
    requires
        old(pool).wf(),
        old(pool)@.read_count <= old(buf)@ < old(pool)@.read_count + old(pool)@.rc.len(),
        call_ensures(WBuffer::<N>::write_slice, (buf, pool), r),
        final(r)@.len() == N * 4096,
        0 <= j < old(pool)@.mem.len(),
    ensures
        *final(buf) == *old(buf),
        old(r)@.len() == N * 4096,
        final(pool)@ == (PoolView { mem: final(pool)@.mem, ..old(pool)@ }),
        final(pool)@.mem.len() == old(pool)@.mem.len(),
        ({
            let start = old(buf)@ * (N * 4096);
            if start <= j < start + N * 4096 {
                &&& old(r)@[j - start] == old(pool)@.mem[j]
                &&& final(pool)@.mem[j] == final(r)@[j - start]
            } else {
                final(pool)@.mem[j] == old(pool)@.mem[j]
            }
        }),
{
    let i = old(buf)@ as int;
    lemma_slot(old(pool)@, N, i, 0);
    lemma_slot(old(pool)@, N, i, N * 4096 - 1);
}

/// What is read from a write slot is the whole slot.
pub proof fn law_slot_is_read<const N: usize>(
    buf: &WBuffer<N>,
    pool: &BufPool<N>,
    r: &[u8],
    j: int,
)
    requires
        pool.wf(),
        pool@.read_count <= buf@ < pool@.read_count + pool@.rc.len(),
        call_ensures(WBuffer::<N>::read_slice, (buf, pool), r),
        0 <= j < N * 4096,
    ensures
        r@.len() == N * 4096,
        r@[j] == pool@.mem[buf@ * (N * 4096) + j],
{
    lemma_slot(pool@, N, buf@ as int, j);
}

/// The write slot that is handed out is the one that has been free for longest. It
/// gets one reference, leaves the queue, and nothing else changes.
pub proof fn law_slot_is_handed_out<const N: usize>(pool: &mut BufPool<N>, buf: WBuffer<N>)
    requires
        old(pool).wf(),
        old(pool)@.free.len() > 0,
        call_ensures(BufPool::<N>::alloc_write, (pool,), buf),
    ensures
        buf@ == old(pool)@.free[0],
        old(pool)@.rc[buf@ - old(pool)@.read_count] == 0,
        final(pool)@ == (PoolView {
            free: old(pool)@.free.subrange(1, old(pool)@.free.len() as int),
            rc: old(pool)@.rc.update(buf@ - old(pool)@.read_count, 1),
            ..old(pool)@
        }),
{
    crate::buf_pool::law_allocate(old(pool)@, N);
}

/// One reference less to a write slot, whether a write from it has completed or it was
/// given back. Exactly with the last one the slot goes to the end of the queue of free
/// ones, and nothing else changes.
pub proof fn law_slot_is_given_back<const N: usize>(
    a: &mut BufPool<N>,
    abs_idx: u32,
    b: &mut BufPool<N>,
    buf: WBuffer<N>,
)
    requires
        old(a).wf(),
        old(a)@.in_use(abs_idx),
        call_ensures(BufPool::<N>::on_write_cqe, (a, abs_idx), ()),
        *old(b) == *old(a),
        buf@ == abs_idx,
        call_ensures(WBuffer::<N>::release, (buf, b), ()),
    ensures
        ({
            let rel = abs_idx - old(a)@.read_count;
            &&& final(a)@ == (PoolView { free: final(a)@.free, rc: final(a)@.rc, ..old(a)@ })
            &&& final(a)@.rc.len() == old(a)@.rc.len()
            &&& final(a)@.rc[rel] == old(a)@.rc[rel] - 1
            &&& forall|i: int|
                0 <= i < old(a)@.rc.len() && i != rel ==> #[trigger] final(a)@.rc[i]
                    == old(a)@.rc[i]
            &&& final(a)@.free == (if old(a)@.rc[rel] == 1 {
                old(a)@.free.push(abs_idx)
            } else {
                old(a)@.free
            })
            &&& final(b)@ == final(a)@
        }),
{
}

/// A clone refers to the same slot, has one reference of its own, and nothing else
/// changes.
pub proof fn law_slot_is_shared<const N: usize>(
    buf: &WBuffer<N>,
    pool: &mut BufPool<N>,
    other: WBuffer<N>,
)
    requires
        old(pool).wf(),
        old(pool)@.in_use(buf@),
        old(pool)@.refs(buf@) < u32::MAX,
        call_ensures(WBuffer::<N>::clone, (buf, pool), other),
    ensures
        other@ == buf@,
        final(pool)@ == (PoolView { rc: final(pool)@.rc, ..old(pool)@ }),
        final(pool)@.rc.len() == old(pool)@.rc.len(),
        final(pool)@.rc[buf@ - old(pool)@.read_count] == old(pool)@.rc[buf@
            - old(pool)@.read_count] + 1,
        forall|i: int|
            0 <= i < old(pool)@.rc.len() && i != buf@ - old(pool)@.read_count
                ==> #[trigger] final(pool)@.rc[i] == old(pool)@.rc[i],
{
}

/// What is asked about the pool is answered from the references: a slot is in use
/// exactly if it is a write slot with a reference.
pub proof fn law_pool_is_read<const N: usize>(
    pool: &BufPool<N>,
    abs_idx: u32,
    used: bool,
    free: bool,
    reads: u32,
    writes: usize,
    n: u32,
)
    requires
        pool.wf(),
        call_ensures(BufPool::<N>::is_in_use, (pool, abs_idx), used),
        call_ensures(BufPool::<N>::has_free_write, (pool,), free),
        call_ensures(BufPool::<N>::read_count, (pool,), reads),
        call_ensures(BufPool::<N>::write_count, (pool,), writes),
        pool@.is_write_slot(abs_idx) ==> call_ensures(BufPool::<N>::ref_count, (pool, abs_idx), n),
    ensures
        used <==> reads <= abs_idx < reads + writes && pool@.rc[abs_idx - reads] > 0,
        free <==> pool@.free.len() > 0,
        reads == pool@.read_count,
        writes == pool@.rc.len(),
        reads <= abs_idx < reads + writes ==> n == pool@.rc[abs_idx - reads],
{
}

/// The request that writes a slot names the slot by its position and its address, and
/// has the connection, the length and the word that were given.
pub proof fn law_write_of_a_slot<const N: usize>(
    buf: &WBuffer<N>,
    pool: &BufPool<N>,
    fd_idx: u32,
    len: u32,
    user_data: u64,
    sqe: Sqe,
    short: u16,
    long: u32,
)
    requires
        pool.wf(),
        pool@.in_use(buf@),
        call_ensures(WBuffer::<N>::write, (buf, pool, fd_idx, len, user_data), sqe),
        call_ensures(WBuffer::<N>::index, (buf,), short),
        call_ensures(WBuffer::<N>::slot_index, (buf,), long),
    ensures
        long == buf@,
        buf@ <= 0xFFFF ==> short == buf@,
        sqe matches Sqe::WriteFixed { fd, addr, len: l, buf_index, user_data: word } && {
            &&& fd == fd_idx
            &&& addr == pool@.base + buf@ * (N * 4096)
            &&& l == len
            &&& buf_index == short
            &&& word == user_data
        },
{
    lemma_slot(pool@, N, buf@ as int, 0);
}

/// A new ring holds the entries that were given, and lends all of them.
pub proof fn law_new_ring(
    entries: Vec<RingEntry>,
    ring: BufRing,
    i: usize,
    e: RingEntry,
    n: usize,
    tail: u16,
)
    requires
        entries@.len() <= 0x8000,
        i < entries@.len(),
        call_ensures(BufRing::new, (entries,), ring),
        call_ensures(BufRing::entry, (&ring, i), e),
        call_ensures(BufRing::len, (&ring,), n),
        call_ensures(BufRing::tail, (&ring,), tail),
    ensures
        n == entries@.len(),
        tail == entries@.len(),
        e == entries@[i as int],
{
}

/// Lending a buffer writes its entry at the tail, modulo the size of the ring, moves
/// the tail on by one, and changes no other entry; and what is to be written to the
/// shared memory is that entry, at that place, and that tail.
pub proof fn law_buffer_is_lent(ring: &mut BufRing, entry: RingEntry, update: RingUpdate, i: int)
    requires
        old(ring).wf(),
        call_ensures(BufRing::release, (ring, entry), update),
        0 <= i < old(ring)@.entries.len(),
    ensures
        final(ring)@.entries.len() == old(ring)@.entries.len(),
        final(ring)@.entries[i] == (if i == old(ring)@.tail as int % old(
            ring,
        )@.entries.len() as int {
            entry
        } else {
            old(ring)@.entries[i]
        }),
        final(ring)@.tail == (if old(ring)@.tail == 0xFFFF {
            0
        } else {
            old(ring)@.tail + 1
        }),
        update.offset == 16 * (old(ring)@.tail as int % old(ring)@.entries.len() as int),
        update.entry == entry,
        update.tail == final(ring)@.tail,
{
}

} // verus!
