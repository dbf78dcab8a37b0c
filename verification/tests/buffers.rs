use onlyio::buf_pool::{BufPool, IoVec, PAGE_SIZE};
use onlyio::buf_ring::{BufRing, RingEntry, RingUpdate};
use onlyio::sqe::Sqe;

fn entry(i: u16) -> RingEntry {
    RingEntry { addr: 0x1000 * i as u64, len: 4096, bid: i }
}

#[test]
fn iovecs_cover_all_slots() {
    let pool: BufPool<2> = BufPool::new(3, 2);
    assert_eq!(BufPool::<2>::slot_size(), 2 * PAGE_SIZE);
    assert_eq!(pool.read_count(), 3);
    assert_eq!(pool.write_count(), 2);
    let table = pool.build_iovecs();
    assert_eq!(table.len(), 5);
    let base = pool.read_buf_addr(0);
    assert_eq!(base % PAGE_SIZE, 0);
    for i in 0..5 {
        assert_eq!(table[i], IoVec { base: base + i * 8192, len: 8192 });
    }
    assert_eq!(pool.read_buf_addr(2), base + 2 * 8192);
    assert_eq!(pool.write_buf_ptr(0), base + 3 * 8192);
    assert_eq!(pool.write_buf_ptr(1), base + 4 * 8192);
}

#[test]
fn slot_address_is_where_the_bytes_are() {
    let mut pool: BufPool<1> = BufPool::new(2, 2);
    let mut buf = pool.checkout_read(1, 7, 3);
    let address = pool.read_buf_addr(1);
    assert_ne!(address, 0);
    assert_eq!(buf.write_slice(&mut pool).as_ptr() as usize, address);
    let w = pool.alloc_write();
    assert_eq!(w.read_slice(&pool).as_ptr() as usize, pool.write_buf_ptr(0));
}

#[test]
fn slots_are_laid_out_from_the_first_page_boundary() {
    for (start, base) in [(8192, 8192), (8193, 12288), (12287, 12288), (1, 4096)] {
        let mut mem = vec![0u8; 3 * 4096 + 4096];
        mem[base - start] = 7;
        mem[base - start + 2 * 4096] = 8;
        let mut pool: BufPool<1> = BufPool::laid_out(mem, start, 2, 1);
        assert_eq!(pool.read_buf_addr(0), base);
        assert_eq!(pool.read_buf_addr(1), base + 4096);
        assert_eq!(pool.write_buf_ptr(0), base + 8192);
        assert_eq!(pool.checkout_read(0, 0, 1).read_slice(&pool), &[7u8]);
        assert_eq!(pool.alloc_write().read_slice(&pool)[0], 8);
    }
}

#[test]
fn write_slots_are_handed_out_in_order() {
    let mut pool: BufPool<1> = BufPool::new(2, 3);
    let a = pool.alloc_write();
    let b = pool.alloc_write();
    let c = pool.alloc_write();
    assert_eq!((a.index(), b.index(), c.index()), (2, 3, 4));
    assert!(!pool.has_free_write());
    b.release(&mut pool);
    a.release(&mut pool);
    assert_eq!(pool.alloc_write().index(), 3);
    assert_eq!(pool.alloc_write().index(), 2);
    assert!(!pool.has_free_write());
}

#[test]
fn fan_out_frees_with_the_last_completion() {
    let mut pool: BufPool<1> = BufPool::new(1, 1);
    let a = pool.alloc_write();
    let b = a.clone(&mut pool);
    let c = b.clone(&mut pool);
    assert_eq!(c.slot_index(), 1);
    assert_eq!(pool.ref_count(1), 3);
    assert!(pool.is_in_use(1));
    pool.on_write_cqe(1);
    assert!(!pool.has_free_write());
    pool.on_write_cqe(1);
    assert!(!pool.has_free_write());
    pool.on_write_cqe(1);
    assert!(pool.has_free_write());
    assert!(!pool.is_in_use(1));
}

#[test]
fn read_slots_are_never_in_use_for_writing() {
    let pool: BufPool<1> = BufPool::new(2, 2);
    for i in [0u32, 1, 2, 3, 4, u32::MAX] {
        assert!(!pool.is_in_use(i));
    }
}

#[test]
fn reading_gives_what_was_written() {
    let mut pool: BufPool<1> = BufPool::new(2, 1);
    let mut first = pool.checkout_read(0, 5, 4);
    let second = pool.checkout_read(1, 5, 4096);
    let bytes = first.write_slice(&mut pool);
    assert_eq!(bytes.len(), 4096);
    bytes[0..4].copy_from_slice(b"ping");
    bytes[4095] = 9;
    assert_eq!(first.read_slice(&pool), b"ping");
    assert!(second.read_slice(&pool).iter().all(|b| *b == 0));
    let mut w = pool.alloc_write();
    assert!(w.read_slice(&pool).iter().all(|b| *b == 0));
    w.write_slice(&mut pool)[0] = 3;
    assert_eq!(w.read_slice(&pool)[0], 3);
    assert_eq!(first.read_slice(&pool), b"ping");
}

#[test]
fn checkout_keeps_what_the_completion_said() {
    let pool: BufPool<1> = BufPool::new(4, 1);
    let buf = pool.checkout_read(3, 17, 12);
    assert_eq!((buf.buf_idx, buf.fd_idx, buf.bytes), (3, 17, 12));
    assert_eq!(buf.read_slice(&pool).len(), 12);
}

#[test]
fn writes_name_slot_and_address() {
    let mut pool: BufPool<1> = BufPool::new(2, 2);
    let w = pool.alloc_write();
    assert_eq!(
        w.write(&pool, 9, 100, 77),
        Sqe::WriteFixed {
            fd: 9,
            addr: pool.write_buf_ptr(0),
            len: 100,
            buf_index: 2,
            user_data: 77
        }
    );
}

#[test]
fn new_ring_lends_everything() {
    let ring = BufRing::new(vec![entry(0), entry(1), entry(2), entry(3)]);
    assert_eq!(ring.len(), 4);
    assert_eq!(ring.tail(), 4);
    assert_eq!(ring.entry(2), entry(2));
}

#[test]
fn released_slots_go_to_the_tail() {
    let mut ring = BufRing::new(vec![entry(0), entry(1), entry(2), entry(3)]);
    assert_eq!(ring.release(entry(2)), RingUpdate { offset: 0, entry: entry(2), tail: 5 });
    assert_eq!(ring.release(entry(0)), RingUpdate { offset: 16, entry: entry(0), tail: 6 });
    assert_eq!(ring.entry(0), entry(2));
    assert_eq!(ring.entry(1), entry(0));
    assert_eq!(ring.entry(2), entry(2));
    assert_eq!(ring.tail(), 6);
}

#[test]
fn tail_wraps_at_sixteen_bits() {
    let mut ring = BufRing::new(vec![entry(0), entry(1)]);
    for _ in 2..0xFFFFu32 {
        ring.release(entry(1));
    }
    assert_eq!(ring.tail(), 0xFFFF);
    assert_eq!(ring.release(entry(0)), RingUpdate { offset: 16, entry: entry(0), tail: 0 });
    assert_eq!(ring.release(entry(1)), RingUpdate { offset: 0, entry: entry(1), tail: 1 });
}
