use onlyio::buf_pool::RwBuffer;
use onlyio::calls::accept::{AcceptFuture, AcceptStream};
use onlyio::calls::commit::{CommitFuture, CommitProgress, CommitWrite};
use onlyio::calls::read::{ReadFuture, ReadStream};
use onlyio::calls::socket::{connect, SocketFuture};
use onlyio::calls::write::{WriteMultipleFuture, WriteResult};
use onlyio::calls::CallError;
use onlyio::completion::Cqe;
use onlyio::runtime::{Dispatch, Runtime, Step};
use onlyio::sqe::Sqe;
use onlyio::stream::{Progress, Stream, StreamExt};
use onlyio::{accept, accept_stream, block_on, read, read_stream};

type Rt = Runtime<&'static str>;

/// A runtime in the first poll of a task.
fn in_poll() -> Rt {
    let mut rt: Rt = Runtime::new();
    block_on(&mut rt, "a");
    rt
}

/// Ends the poll, enters the kernel, and gives the requests.
fn suspend(rt: &mut Rt) -> Vec<Sqe> {
    rt.end_poll("a", false);
    loop {
        match rt.step() {
            Step::Submit { sqes, .. } => return sqes,
            Step::Continue => {}
            _ => panic!("no task is to be polled"),
        }
    }
}

fn word(sqe: Sqe) -> u64 {
    match sqe {
        Sqe::Read { user_data, .. } => user_data,
        Sqe::Accept { user_data, .. } => user_data,
        Sqe::WriteFixed { user_data, .. } => user_data,
        Sqe::RecvMulti { user_data, .. } => user_data,
        Sqe::AcceptMulti { user_data, .. } => user_data,
        Sqe::Connect { user_data, .. } => user_data,
        Sqe::Socket { user_data, .. } => user_data,
    }
}

/// Completes a request, which has to poll its task.
fn complete(rt: &mut Rt, sqe: Sqe, result: i32, flags: u32) -> &'static str {
    let cqe = Cqe { user_data: word(sqe), result, flags };
    assert!(rt.can_dispatch(&cqe));
    match rt.dispatch(&cqe) {
        Dispatch::Poll(name) => name,
        _ => panic!("a task is to be polled"),
    }
}

fn buffer(r: Progress<Option<RwBuffer<1>>>) -> RwBuffer<1> {
    match r {
        Progress::Ready(Some(buf)) => buf,
        _ => panic!("a buffer is to be delivered"),
    }
}

#[test]
fn accept_gives_the_file_index() {
    let mut rt = in_poll();
    let mut f: AcceptFuture = accept(4);
    assert_eq!(f.poll(&mut rt), Progress::Pending);
    let sqes = suspend(&mut rt);
    assert_eq!(sqes, vec![Sqe::Accept { listen_fd: 4, user_data: 0 }]);
    complete(&mut rt, sqes[0], 0, 0);
    assert_eq!(f.poll(&mut rt), Progress::Ready(Ok(0)));
}

#[test]
fn accept_gives_the_error() {
    let mut rt = in_poll();
    let mut f = accept(4);
    f.poll(&mut rt);
    let sqes = suspend(&mut rt);
    complete(&mut rt, sqes[0], -24, 0);
    assert_eq!(f.poll(&mut rt), Progress::Ready(Err(CallError { code: -24 })));
}

#[test]
fn accept_stream_ends_after_the_last() {
    let mut rt = in_poll();
    let mut s: AcceptStream = accept_stream(4);
    assert_eq!(s.poll_next(&mut rt), Progress::Pending);
    let sqes = suspend(&mut rt);
    assert_eq!(sqes, vec![Sqe::AcceptMulti { listen_fd: 4, user_data: 0x8000_0000 }]);
    complete(&mut rt, sqes[0], 10, 2);
    assert_eq!(s.poll_next(&mut rt), Progress::Ready(Some(10)));
    rt.end_poll("a", false);
    complete(&mut rt, sqes[0], 11, 0);
    assert_eq!(s.poll_next(&mut rt), Progress::Ready(Some(11)));
    assert_eq!(s.poll_next(&mut rt), Progress::Ready(None));
    assert_eq!(s.poll_next(&mut rt), Progress::Ready(None));
}

#[test]
fn accept_stream_ends_with_an_error() {
    let mut rt = in_poll();
    let mut s = accept_stream(4);
    s.poll_next(&mut rt);
    let sqes = suspend(&mut rt);
    complete(&mut rt, sqes[0], -1, 2);
    assert_eq!(s.poll_next(&mut rt), Progress::Ready(None));
    assert_eq!(s.poll_next(&mut rt), Progress::Ready(None));
}

#[test]
fn next_asks_its_stream() {
    let mut rt = in_poll();
    let mut s = accept_stream(4);
    {
        let mut next = StreamExt::<&'static str>::next(&mut s);
        assert_eq!(next.poll(&mut rt), Progress::Pending);
    }
    let sqes = suspend(&mut rt);
    complete(&mut rt, sqes[0], 10, 2);
    let mut next = StreamExt::<&'static str>::next(&mut s);
    assert_eq!(next.poll(&mut rt), Progress::Ready(Some(10)));
}

#[test]
fn read_gives_the_slot_that_was_filled() {
    let mut rt = in_poll();
    let mut f: ReadFuture = read(6);
    assert!(matches!(f.poll(&mut rt), Progress::Pending));
    let sqes = suspend(&mut rt);
    assert_eq!(sqes, vec![Sqe::Read { fd: 6, len: 4096, buf_group: 0, user_data: 0 }]);
    complete(&mut rt, sqes[0], 12, (77 << 16) | 1);
    match f.poll(&mut rt) {
        Progress::Ready(Ok(buf)) => {
            assert_eq!((buf.buf_idx, buf.fd_idx, buf.bytes), (77, 6, 12));
        }
        _ => panic!("a buffer is to be delivered"),
    }
}

#[test]
fn read_gives_the_error() {
    let mut rt = in_poll();
    let mut f = read(6);
    f.poll(&mut rt);
    let sqes = suspend(&mut rt);
    complete(&mut rt, sqes[0], -105, 0);
    match f.poll(&mut rt) {
        Progress::Ready(Err(e)) => assert_eq!(e, CallError { code: -105 }),
        _ => panic!("an error is to be delivered"),
    }
}

#[test]
fn read_stream_waits_between_buffers() {
    let mut rt = in_poll();
    let mut s: ReadStream = read_stream(6);
    assert!(matches!(s.poll_next(&mut rt), Progress::Pending));
    let sqes = suspend(&mut rt);
    complete(&mut rt, sqes[0], 4, (3 << 16) | 3);
    let buf = buffer(s.poll_next(&mut rt));
    assert_eq!((buf.buf_idx, buf.fd_idx, buf.bytes), (3, 6, 4));
    assert!(matches!(s.poll_next(&mut rt), Progress::Pending));
    rt.end_poll("a", false);
    complete(&mut rt, sqes[0], 5, (4 << 16) | 3);
    assert_eq!(buffer(s.poll_next(&mut rt)).bytes, 5);
    rt.end_poll("a", false);
    assert!(rt.can_dispatch(&Cqe { user_data: word(sqes[0]), result: 0, flags: 0 }));
}

#[test]
fn read_stream_ends_when_the_connection_does() {
    for result in [0, -104] {
        let mut rt = in_poll();
        let mut s = read_stream(6);
        s.poll_next(&mut rt);
        let sqes = suspend(&mut rt);
        complete(&mut rt, sqes[0], result, 0);
        assert!(matches!(s.poll_next(&mut rt), Progress::Ready(None)));
        assert!(matches!(s.poll_next(&mut rt), Progress::Ready(None)));
    }
}

#[test]
fn read_stream_delivers_the_last_buffer() {
    let mut rt = in_poll();
    let mut s = read_stream(6);
    s.poll_next(&mut rt);
    let sqes = suspend(&mut rt);
    complete(&mut rt, sqes[0], 9, 1 << 16);
    assert_eq!(buffer(s.poll_next(&mut rt)).bytes, 9);
    assert!(matches!(s.poll_next(&mut rt), Progress::Ready(None)));
}

#[test]
fn echo_doubles_what_it_reads() {
    let mut rt = in_poll();
    let mut reads = read_stream(6);
    reads.poll_next(&mut rt);
    let recv = suspend(&mut rt)[0];
    let slot = rt.buffer().checkout_read(3, 6, 4);
    let mut kernel = slot;
    kernel.write_slice(rt.buffer_mut())[0..4].copy_from_slice(b"ping");

    complete(&mut rt, recv, 4, (3 << 16) | 3);
    let mut buf = buffer(reads.poll_next(&mut rt));
    let len = buf.bytes as usize;
    buf.write_slice(rt.buffer_mut()).copy_within(0..len, len);
    let addr = rt.buffer().read_buf_addr(3);
    let mut commit: CommitFuture<1> = buf.commit(rt.buffer(), 2 * len as u32);
    let mut writer: CommitWrite = match commit.poll(&mut rt) {
        CommitProgress::Spawn(writer) => writer,
        _ => panic!("the write is to be spawned"),
    };
    rt.spawn("writer");
    assert_eq!(writer.poll(&mut rt), Progress::Pending);
    rt.end_poll("writer", false);
    let sqes = suspend(&mut rt);
    assert_eq!(
        sqes,
        vec![Sqe::WriteFixed { fd: 6, addr, len: 8, buf_index: 3, user_data: 1 << 32 }]
    );
    let sent = rt.buffer().checkout_read(3, 6, 8);
    assert_eq!(sent.read_slice(rt.buffer()), b"pingping");

    assert_eq!(complete(&mut rt, sqes[0], 8, 0), "writer");
    assert_eq!(rt.buf_ring().tail(), 512);
    assert_eq!(writer.poll(&mut rt), Progress::Ready(()));
    assert!(writer.into_ticket().is_none());
    rt.end_poll("writer", true);

    assert!(matches!(rt.step(), Step::Poll("a")));
    assert_eq!(rt.current_result(), 8);
    match commit.poll(&mut rt) {
        CommitProgress::Ready(result, update) => {
            assert_eq!(result, 8);
            assert_eq!(update.entry.bid, 3);
            assert_eq!(update.tail, 513);
        }
        _ => panic!("the write is done"),
    }
    assert!(matches!(reads.poll_next(&mut rt), Progress::Pending));
    assert_eq!(rt.buf_ring().tail(), 513);
}

#[test]
fn message_that_comes_during_a_commit_is_kept() {
    let mut rt = in_poll();
    let mut reads = read_stream(6);
    reads.poll_next(&mut rt);
    let recv = suspend(&mut rt)[0];
    complete(&mut rt, recv, 4, (3 << 16) | 3);
    let buf = buffer(reads.poll_next(&mut rt));
    let mut commit = buf.commit(rt.buffer(), 8);
    let mut writer = match commit.poll(&mut rt) {
        CommitProgress::Spawn(writer) => writer,
        _ => panic!("the write is to be spawned"),
    };
    rt.spawn("writer");
    writer.poll(&mut rt);
    rt.end_poll("writer", false);
    let sqes = suspend(&mut rt);

    let second = Cqe { user_data: word(recv), result: 5, flags: (4 << 16) | 3 };
    assert!(rt.can_dispatch(&second));
    assert!(matches!(rt.dispatch(&second), Dispatch::Handled));
    assert!(!rt.is_polling());
    assert_eq!(rt.buf_ring().tail(), 512);

    assert_eq!(complete(&mut rt, sqes[0], 8, 0), "writer");
    assert_eq!(writer.poll(&mut rt), Progress::Ready(()));
    rt.end_poll("writer", true);
    let third = Cqe { user_data: word(recv), result: 6, flags: (5 << 16) | 3 };
    assert!(matches!(rt.dispatch(&third), Dispatch::Handled));
    assert_eq!(rt.buf_ring().tail(), 512);

    assert!(matches!(rt.step(), Step::Poll("a")));
    match commit.poll(&mut rt) {
        CommitProgress::Ready(result, update) => {
            assert_eq!((result, update.entry.bid, update.tail), (8, 3, 513));
        }
        _ => panic!("the write is done"),
    }
    assert!(matches!(commit.poll(&mut rt), CommitProgress::Waiting));
    assert!(matches!(reads.poll_next(&mut rt), Progress::Pending));
    rt.end_poll("a", false);

    assert!(matches!(rt.step(), Step::Poll("a")));
    let buf = buffer(reads.poll_next(&mut rt));
    assert_eq!((buf.buf_idx, buf.bytes), (4, 5));
    assert!(matches!(reads.poll_next(&mut rt), Progress::Pending));
    rt.end_poll("a", false);
    assert!(matches!(rt.step(), Step::Poll("a")));
    let buf = buffer(reads.poll_next(&mut rt));
    assert_eq!((buf.buf_idx, buf.bytes), (5, 6));
    assert_eq!(rt.buf_ring().tail(), 513);
}

#[test]
fn commit_waits_whatever_else_wakes_its_task() {
    let mut rt = in_poll();
    let waker = rt.waker();
    let buf = rt.buffer().checkout_read(3, 6, 4);
    let mut commit = buf.commit(rt.buffer(), 4);
    let _writer = match commit.poll(&mut rt) {
        CommitProgress::Spawn(writer) => writer,
        _ => panic!("the write is to be spawned"),
    };
    rt.yield_now();
    rt.end_poll("a", false);
    rt.wake(waker, 77);
    assert!(matches!(rt.step(), Step::Poll("a")));
    assert!(matches!(commit.poll(&mut rt), CommitProgress::Waiting));
    rt.end_poll("a", false);
    assert!(matches!(rt.step(), Step::Continue));
    assert!(matches!(rt.step(), Step::Poll("a")));
    assert!(matches!(commit.poll(&mut rt), CommitProgress::Waiting));
    assert_eq!(rt.buf_ring().tail(), 512);
}

#[test]
fn calls_wait_when_woken_without_a_completion() {
    let mut rt = in_poll();
    let waker = rt.waker();
    let mut f = accept(4);
    let mut g = read(5);
    let mut h = onlyio::calls::write::write(6, 0, 1);
    let mut s = accept_stream(7);
    let mut t = read_stream(8);
    let mut m = rt.alloc_write_buffer().write_multiple(vec![9], 1);
    let mut c = connect([127, 0, 0, 1], 80);
    f.poll(&mut rt);
    g.poll(&mut rt);
    h.poll(&mut rt);
    s.poll_next(&mut rt);
    t.poll_next(&mut rt);
    m.poll(&mut rt);
    c.poll(&mut rt, 0x3000);
    rt.end_poll("a", false);
    rt.wake(waker, 3);
    assert!(matches!(rt.step(), Step::Poll("a")));
    assert_eq!(f.poll(&mut rt), Progress::Pending);
    assert!(matches!(g.poll(&mut rt), Progress::Pending));
    assert_eq!(h.poll(&mut rt), Progress::Pending);
    assert_eq!(s.poll_next(&mut rt), Progress::Pending);
    assert!(matches!(t.poll_next(&mut rt), Progress::Pending));
    assert!(matches!(m.poll(&mut rt), Progress::Pending));
    assert_eq!(c.poll(&mut rt, 0x3000), Progress::Pending);
}

#[test]
fn abandoned_commit_gives_its_ticket_up() {
    let mut rt = in_poll();
    let buf = rt.buffer().checkout_read(0, 6, 4);
    let mut commit = buf.commit(rt.buffer(), 4);
    let writer = match commit.poll(&mut rt) {
        CommitProgress::Spawn(writer) => writer,
        _ => panic!("the write is to be spawned"),
    };
    rt.end_poll("a", false);
    let ticket = writer.into_ticket().unwrap();
    assert!(rt.is_writing(&ticket));
    assert_eq!(rt.drop_write(ticket), Some("a"));
}

#[test]
fn unanswered_read_slot_goes_back_at_once() {
    let mut rt = in_poll();
    let buf = rt.buffer().checkout_read(9, 6, 4);
    let update = buf.release(&mut rt);
    assert_eq!((update.offset, update.entry.bid, update.tail), (0, 9, 513));
    assert_eq!(update.entry.addr as usize, rt.buffer().read_buf_addr(9));
}

#[test]
fn write_gives_the_number_of_bytes() {
    let mut rt = in_poll();
    let mut f = onlyio::calls::write::write(6, 2, 100);
    assert_eq!(f.poll(&mut rt), Progress::Pending);
    let addr = rt.buffer().write_buf_ptr(2);
    let sqes = suspend(&mut rt);
    assert_eq!(
        sqes,
        vec![Sqe::WriteFixed { fd: 6, addr, len: 100, buf_index: 514, user_data: 0 }]
    );
    complete(&mut rt, sqes[0], 60, 0);
    assert_eq!(f.poll(&mut rt), Progress::Ready(60));
}

#[test]
fn fan_out_reports_what_did_not_go_through() {
    let mut rt = in_poll();
    let buf = rt.alloc_write_buffer();
    let mut f: WriteMultipleFuture = buf.write_multiple(vec![20, 21, 22], 5);
    assert!(matches!(f.poll(&mut rt), Progress::Pending));
    let addr = rt.buffer().write_buf_ptr(0);
    let sqes = suspend(&mut rt);
    for i in 0..3u32 {
        assert_eq!(
            sqes[i as usize],
            Sqe::WriteFixed {
                fd: 20 + i,
                addr,
                len: 5,
                buf_index: 512,
                user_data: 0x8000_0000 + i as u64
            }
        );
    }
    complete(&mut rt, sqes[2], 3, 0);
    assert!(matches!(f.poll(&mut rt), Progress::Pending));
    rt.end_poll("a", false);
    complete(&mut rt, sqes[0], 5, 0);
    assert!(matches!(f.poll(&mut rt), Progress::Pending));
    rt.end_poll("a", false);
    assert!(rt.buffer().is_in_use(512));
    complete(&mut rt, sqes[1], -32, 0);
    match f.poll(&mut rt) {
        Progress::Ready(reports) => assert_eq!(
            reports,
            vec![
                WriteResult::Partial { fd: 22, len: 3 },
                WriteResult::Failed { fd: 21 },
                WriteResult::Partial { fd: 21, len: (-32i32) as u32 },
            ]
        ),
        Progress::Pending => panic!("all writes have completed"),
    }
    assert!(rt.buffer().is_in_use(512));
    assert_eq!(rt.current_task().tag.syscall_nb, 1);
    let buf = f.into_buffer().unwrap();
    assert_eq!(buf.index(), 512);
    buf.release(rt.buffer_mut());
    assert!(!rt.buffer().is_in_use(512));
}

#[test]
fn abandoned_fan_out_gives_its_slot_up() {
    let mut rt = in_poll();
    let buf = rt.alloc_write_buffer();
    let mut f = buf.write_multiple(vec![20, 21], 5);
    f.poll(&mut rt);
    let buf = f.into_buffer().unwrap();
    assert_eq!(buf.index(), 512);
    buf.release(rt.buffer_mut());
    assert!(!rt.buffer().is_in_use(512));
}

#[test]
fn task_moves_on_after_a_fan_out() {
    let mut rt = in_poll();
    let mut f = rt.alloc_write_buffer().write_multiple(vec![20], 5);
    f.poll(&mut rt);
    let sqes = suspend(&mut rt);
    complete(&mut rt, sqes[0], 5, 0);
    assert!(matches!(f.poll(&mut rt), Progress::Ready(_)));
    let mut g = accept(4);
    g.poll(&mut rt);
    let sqes = suspend(&mut rt);
    assert_eq!(sqes, vec![Sqe::Accept { listen_fd: 4, user_data: 1 << 16 }]);
    complete(&mut rt, sqes[0], 3, 0);
    assert_eq!(g.poll(&mut rt), Progress::Ready(Ok(3)));
}

#[test]
fn socket_is_created_and_connected() {
    let mut rt = in_poll();
    let mut f = connect([127, 0, 0, 1], 6379);
    match &f {
        SocketFuture::CreateSocket { addr } => {
            assert_eq!(addr.family, 2);
            assert_eq!(addr.port, 6379u16.to_be_bytes());
            assert_eq!(addr.addr, [127, 0, 0, 1]);
        }
        _ => panic!("nothing was polled yet"),
    }
    assert_eq!(f.poll(&mut rt, 0x3000), Progress::Pending);
    let sqes = suspend(&mut rt);
    assert_eq!(
        sqes,
        vec![Sqe::Socket { domain: 2, socket_type: 0x80801, protocol: 0, user_data: 0 }]
    );
    complete(&mut rt, sqes[0], 0, 0);
    assert_eq!(f.poll(&mut rt, 0x3000), Progress::Pending);
    let sqes = suspend(&mut rt);
    assert_eq!(
        sqes,
        vec![Sqe::Connect { fd: 0, addr: 0x3000, addrlen: 16, user_data: 1 << 16 }]
    );
    complete(&mut rt, sqes[0], 0, 0);
    assert_eq!(f.poll(&mut rt, 0x3000), Progress::Ready(0));
}
