//! The ring through which read slots are lent to the kernel.
//!
//! The kernel shares the ring as an array of 16-byte entries:
//!
//! ```text
//! offset  0 : addr  u64
//! offset  8 : len   u32
//! offset 12 : bid   u16
//! offset 14 : resv  u16, which in the first entry holds the tail of the ring
//! ```

use vstd::prelude::*;

verus! {

/// The number of bytes from one entry to the next.
pub const ENTRY_SIZE: usize = 16;

/// Where the address stands within an entry.
pub const ADDR_OFFSET: usize = 0;

/// Where the length stands within an entry.
pub const LEN_OFFSET: usize = 8;

/// Where the buffer number stands within an entry.
pub const BID_OFFSET: usize = 12;

/// Where the tail stands within the ring.
pub const TAIL_OFFSET: usize = 14;

/// A buffer that the kernel may fill.
#[derive(Clone, Copy, Debug, PartialEq, Eq, Structural)]
pub struct RingEntry {
    pub addr: u64,
    pub len: u32,
    pub bid: u16,
}

/// What has to be written to the shared ring: the entry at byte `offset`, and
/// after it the new tail.
#[derive(Clone, Copy, Debug, PartialEq, Eq, Structural)]
pub struct RingUpdate {
    pub offset: usize,
    pub entry: RingEntry,
    pub tail: u16,
}

/// The entries and the tail of the ring, as the kernel sees them.
pub struct BufRing {
    entries: Vec<RingEntry>,
    tail: u16,
}

/// What a ring holds.
#[verifier::ext_equal]
pub struct RingView {
    pub entries: Seq<RingEntry>,
    pub tail: u16,
}

/// The kernel takes rings of a power of two up to 32768 entries.
pub open spec fn is_ring_size(n: int) -> bool {
    0 < n <= 0x8000 && (n as u16) & ((n - 1) as u16) == 0
}

impl RingView {
    /// The ring has a size that the kernel takes.
    pub open spec fn wf(self) -> bool {
        is_ring_size(self.entries.len() as int)
    }

    /// Where the next entry goes.
    pub open spec fn position(self) -> int {
        self.tail as int % self.entries.len() as int
    }

    /// The number of entries between the kernel's `head` and the tail.
    pub open spec fn lent(self, head: u16) -> int {
        (self.tail - head) % 0x1_0000
    }

    /// The buffers that the kernel may fill when it has taken entries up to
    /// `head`, in the order in which it takes them.
    pub open spec fn available(self, head: u16) -> Seq<u16> {
        Seq::new(
            self.lent(head) as nat,
            |i: int| self.entries[((head + i) % 0x1_0000) % self.entries.len() as int].bid,
        )
    }

    /// The ring after `entry` has been added.
    pub open spec fn released(self, entry: RingEntry) -> Self {
        RingView {
            entries: self.entries.update(self.position(), entry),
            tail: ((self.tail + 1) % 0x1_0000) as u16,
        }
    }
}

impl View for BufRing {
    type V = RingView;

    closed spec fn view(&self) -> RingView {
        RingView { entries: self.entries@, tail: self.tail }
    }
}

impl BufRing {
    /// The ring is in a consistent state.
    pub open spec fn wf(&self) -> bool {
        self@.wf()
    }

    /// A ring that lends all of `entries` to the kernel.
    pub fn new(entries: Vec<RingEntry>) -> (ring: Self)
        requires
            is_ring_size(entries@.len() as int),
        ensures
            ring.wf(),
            ring@ == (RingView { entries: entries@, tail: entries@.len() as u16 }),
    {
        let tail: u16 = entries.len() as u16;
        BufRing { entries, tail }
    }

    /// The number of entries.
    pub fn len(&self) -> (n: usize)
        ensures
            n == self@.entries.len(),
    {
        self.entries.len()
    }

    /// The entry at position `i`.
    pub fn entry(&self, i: usize) -> (e: RingEntry)
        requires
            i < self@.entries.len(),
        ensures
            e == self@.entries[i as int],
    {
        self.entries[i]
    }

    /// The tail.
    pub fn tail(&self) -> (tail: u16)
        ensures
            tail == self@.tail,
    {
        self.tail
    }

    /// Lends a buffer to the kernel again: the entry goes to the position of
    /// the tail, and the tail moves on, wrapping at 16 bits.
    pub fn release(&mut self, entry: RingEntry) -> (update: RingUpdate)
        requires
            old(self).wf(),
        ensures
            final(self).wf(),
            final(self)@ == old(self)@.released(entry),
            update == (RingUpdate {
                offset: (old(self)@.position() * ENTRY_SIZE) as usize,
                entry,
                tail: final(self)@.tail,
            }),
            update.offset + ENTRY_SIZE <= old(self)@.entries.len() * ENTRY_SIZE,
    {
        let tail: u16 = self.tail;
        let n: u16 = self.entries.len() as u16;
        let mask: u16 = n - 1;
        assert(0 < n <= 0x8000 && n == mask + 1 && n & mask == 0 ==> (tail & mask) == tail % n)
            by (bit_vector);
        let slot: usize = (tail & mask) as usize;
        self.entries.set(slot, entry);
        self.tail = tail.wrapping_add(1);
        RingUpdate { offset: slot * ENTRY_SIZE, entry, tail: self.tail }
    }
}

/// A new ring lends every entry once, in order.
pub proof fn law_new_ring_lends_all(entries: Seq<RingEntry>)
    requires
        is_ring_size(entries.len() as int),
    ensures
        (RingView { entries, tail: entries.len() as u16 }).available(0) == entries.map_values(
            |e: RingEntry| e.bid,
        ),
{
    let ring = RingView { entries, tail: entries.len() as u16 };
    assert forall|i: int| 0 <= i < entries.len() implies #[trigger] ring.available(0)[i]
        == entries[i].bid by {
        vstd::arithmetic::div_mod::lemma_small_mod(i as nat, entries.len());
    }
    assert(ring.available(0) =~= entries.map_values(|e: RingEntry| e.bid));
}

proof fn lemma_ring_size_divides(n: int)
    requires
        is_ring_size(n),
    ensures
        n == 1 || n == 2 || n == 4 || n == 8 || n == 16 || n == 32 || n == 64 || n == 128 || n
            == 256 || n == 512 || n == 1024 || n == 2048 || n == 4096 || n == 8192 || n == 16384
            || n == 32768,
{
    let m = n as u16;
    let mask = (n - 1) as u16;
    assert(0 < m <= 0x8000 && m == mask + 1 && m & mask == 0 ==> m == 1 || m == 2 || m == 4 || m
        == 8 || m == 16 || m == 32 || m == 64 || m == 128 || m == 256 || m == 512 || m == 1024 || m
        == 2048 || m == 4096 || m == 8192 || m == 16384 || m == 32768) by (bit_vector);
}

proof fn lemma_positions_differ(n: int, head: int, i: int, tail: int)
    requires
        is_ring_size(n),
        0 <= head < 0x1_0000,
        0 <= tail < 0x1_0000,
        0 <= i < (tail - head) % 0x1_0000 < n,
    ensures
        ((head + i) % 0x1_0000) % n != tail % n,
{
    lemma_ring_size_divides(n);
    let c = (tail - head) % 0x1_0000;
    let k = 0x1_0000int / n;
    assert(n * k == 0x1_0000);
    vstd::arithmetic::div_mod::lemma_mod_mod(head + i, n, k);
    vstd::arithmetic::div_mod::lemma_mod_mod(head + c, n, k);
    assert(tail == (head + c) % 0x1_0000);
    vstd::arithmetic::div_mod::lemma_mod_equivalence(head + c, head + i, n);
    vstd::arithmetic::div_mod::lemma_small_mod((c - i) as nat, n as nat);
}

/// Lending a buffer puts it behind all that the kernel has not taken yet, as
/// long as the kernel has taken at least one.
pub proof fn law_release_appends(ring: RingView, head: u16, entry: RingEntry)
    requires
        ring.wf(),
        ring.lent(head) < ring.entries.len(),
    ensures
        ring.released(entry).available(head) == ring.available(head).push(entry.bid),
{
    let after = ring.released(entry);
    let n = ring.entries.len() as int;
    let c = ring.lent(head);
    assert(after.lent(head) == c + 1);
    assert((head + c) % 0x1_0000 == ring.tail);
    assert forall|i: int| 0 <= i <= c implies #[trigger] after.available(head)[i]
        == ring.available(head).push(entry.bid)[i] by {
        if i < c {
            lemma_positions_differ(n, head as int, i, ring.tail as int);
        }
    }
    assert(after.available(head) =~= ring.available(head).push(entry.bid));
}

/// The kernel takes buffers in the order in which they were lent.
pub proof fn law_kernel_takes_the_oldest(ring: RingView, head: u16)
    requires
        ring.wf(),
        ring.lent(head) > 0,
    ensures
        ring.available(((head + 1) % 0x1_0000) as u16) == ring.available(head).skip(1),
{
    let next = ((head + 1) % 0x1_0000) as u16;
    assert(ring.lent(next) == ring.lent(head) - 1);
    assert forall|i: int| 0 <= i < ring.lent(next) implies #[trigger] ring.available(next)[i]
        == ring.available(head)[i + 1] by {
        assert((next + i) % 0x1_0000 == (head + (i + 1)) % 0x1_0000);
    }
    assert(ring.available(next) =~= ring.available(head).skip(1));
}

/// The bytes of an entry that are written never touch the bytes of the tail.
pub proof fn law_entry_spares_the_tail(position: nat)
    ensures
        ({
            let first = position * ENTRY_SIZE + ADDR_OFFSET;
            let end = position * ENTRY_SIZE + BID_OFFSET + 2;
            end <= TAIL_OFFSET || TAIL_OFFSET + 2 <= first
        }),
{
}

} // verus!
