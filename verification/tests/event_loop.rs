use onlyio::block_on;
use onlyio::completion::Cqe;
use onlyio::runtime::{submission_failed, Dispatch, Runtime, Step, Waker};
use onlyio::sqe::Sqe;
use onlyio::task_slab::SlabIdx;
use onlyio::user_data::UserDataPayload;
use std::cell::RefCell;
use std::future::Future;
use std::pin::Pin;
use std::rc::Rc;
use std::task::Context;

type BoxedFuture = Pin<Box<dyn Future<Output = ()>>>;

/// Polls a future and ends the poll.
fn finish(rt: &RefCell<Runtime<BoxedFuture>>, mut future: BoxedFuture) {
    let mut cx = Context::from_waker(std::task::Waker::noop());
    let done = future.as_mut().poll(&mut cx).is_ready();
    let dropped = rt.borrow_mut().end_poll(future, done);
    drop(dropped);
}

/// Runs the loop until it wants to enter the kernel; `None` when it is done.
fn turn(rt: &RefCell<Runtime<BoxedFuture>>) -> Option<(Vec<Sqe>, bool)> {
    loop {
        let step = rt.borrow_mut().step();
        match step {
            Step::Poll(future) => finish(rt, future),
            Step::Drop(future) => drop(future),
            Step::Continue => {}
            Step::Submit { sqes, wait } => return Some((sqes, wait)),
            Step::Done => return None,
        }
    }
}

fn start(rt: &RefCell<Runtime<BoxedFuture>>, future: impl Future<Output = ()> + 'static) {
    let first = block_on(&mut rt.borrow_mut(), Box::pin(future));
    finish(rt, first);
}

/// A label instead of a future, for the bookkeeping alone.
fn labels() -> Runtime<&'static str> {
    Runtime::new()
}

fn word(task_idx: u32, syscall_nb: u16, response_gen: u16) -> u64 {
    UserDataPayload { task_idx: SlabIdx(task_idx), response_gen, syscall_nb }.into_user_data()
}

fn submitted(rt: &mut Runtime<&'static str>) -> (Vec<Sqe>, bool) {
    loop {
        match rt.step() {
            Step::Submit { sqes, wait } => return (sqes, wait),
            Step::Continue => {}
            _ => panic!("no task is to be polled"),
        }
    }
}

fn polled(rt: &mut Runtime<&'static str>) -> &'static str {
    loop {
        match rt.step() {
            Step::Poll(name) => return name,
            Step::Continue => {}
            _ => panic!("a task is to be polled"),
        }
    }
}

#[test]
fn test_runtime() {
    let rt = RefCell::new(Runtime::new());
    let hello = async {
        println!("Hello !");
    };
    start(&rt, hello);
    assert!(turn(&rt).is_none());
    assert_eq!(rt.borrow().count(), 0);
}

#[test]
fn spawned_tasks_run_at_once() {
    let rt = Rc::new(RefCell::new(Runtime::new()));
    let log = Rc::new(RefCell::new(Vec::new()));
    let (rt2, log2) = (rt.clone(), log.clone());
    start(&rt, async move {
        log2.borrow_mut().push("outer begins");
        let log3 = log2.clone();
        let inner: BoxedFuture = Box::pin(async move { log3.borrow_mut().push("inner") });
        let first = rt2.borrow_mut().spawn(inner);
        finish(&rt2, first);
        assert_eq!(rt2.borrow().current_task().tag.task_idx, SlabIdx(0));
        log2.borrow_mut().push("outer ends");
    });
    assert!(turn(&rt).is_none());
    assert_eq!(*log.borrow(), vec!["outer begins", "inner", "outer ends"]);
}

#[test]
fn no_task_outlives_the_loop() {
    let mut rt = labels();
    assert_eq!(rt.count(), 0);
    assert!(rt.has_room());
    assert!(!rt.is_polling());
    assert_eq!(block_on(&mut rt, "a"), "a");
    assert!(rt.is_polling());
    assert_eq!(rt.count(), 1);
    assert_eq!(rt.end_poll("a", true), Some("a"));
    assert_eq!(rt.count(), 1);
    assert!(matches!(rt.step(), Step::Continue));
    assert!(matches!(rt.step(), Step::Continue));
    assert!(matches!(rt.step(), Step::Done));
    assert_eq!(rt.count(), 0);
}

#[test]
fn pending_task_without_a_request_is_dropped() {
    let mut rt = labels();
    block_on(&mut rt, "a");
    assert_eq!(rt.end_poll("a", false), Some("a"));
}

#[test]
fn completion_reaches_the_task_that_asked() {
    let mut rt = labels();
    block_on(&mut rt, "a");
    assert!(rt.can_submit(1));
    rt.submit_accept(5);
    assert_eq!(rt.end_poll("a", false), None);
    let (sqes, wait) = submitted(&mut rt);
    assert_eq!(sqes, vec![Sqe::Accept { listen_fd: 5, user_data: word(0, 0, 0) }]);
    assert!(wait);

    let cqe = Cqe { user_data: word(0, 0, 0), result: 9, flags: 4 };
    assert!(rt.can_dispatch(&cqe));
    assert!(matches!(rt.dispatch(&cqe), Dispatch::Poll("a")));
    assert_eq!(rt.current_result(), 9);
    assert_eq!(rt.current_cqe_flags(), 4);
    assert_eq!(rt.current_task().tag.syscall_nb, 1);
    assert_eq!(rt.end_poll("a", true), Some("a"));
    assert!(!rt.can_dispatch(&cqe));
    assert!(matches!(rt.step(), Step::Continue));
    assert!(matches!(rt.step(), Step::Continue));
    assert!(matches!(rt.step(), Step::Done));
}

#[test]
fn multishot_polls_again_and_again() {
    let mut rt = labels();
    block_on(&mut rt, "a");
    rt.submit_recv_multishot(3);
    rt.end_poll("a", false);
    let (sqes, _) = submitted(&mut rt);
    assert_eq!(
        sqes,
        vec![Sqe::RecvMulti { fd: 3, buf_group: 0, user_data: word(0, 0x8000, 0) }]
    );
    for i in 0..3 {
        let cqe = Cqe { user_data: word(0, 0x8000, 0), result: i, flags: 2 };
        assert!(matches!(rt.dispatch(&cqe), Dispatch::Poll("a")));
        assert_eq!(rt.current_result(), i);
        assert_eq!(rt.end_poll("a", false), None);
    }
    let last = Cqe { user_data: word(0, 0x8000, 0), result: 0, flags: 0 };
    assert!(matches!(rt.dispatch(&last), Dispatch::Poll("a")));
    assert_eq!(rt.end_poll("a", false), Some("a"));
}

#[test]
fn stale_completion_only_gives_its_reference_back() {
    let mut rt = labels();
    block_on(&mut rt, "a");
    rt.submit_read(3);
    rt.submit_read(4);
    rt.end_poll("a", false);
    let cqe = Cqe { user_data: word(0, 0, 0), result: 1, flags: 0 };
    assert!(matches!(rt.dispatch(&cqe), Dispatch::Poll("a")));
    assert_eq!(rt.end_poll("a", false), None);
    assert!(matches!(rt.dispatch(&cqe), Dispatch::Drop("a")));
    assert!(!rt.is_polling());
}

#[test]
fn stale_completion_with_more_to_come_changes_nothing() {
    let mut rt = labels();
    block_on(&mut rt, "a");
    rt.submit_read(3);
    rt.submit_read(4);
    rt.end_poll("a", false);
    rt.dispatch(&Cqe { user_data: word(0, 0, 0), result: 1, flags: 0 });
    rt.end_poll("a", false);
    let more = Cqe { user_data: word(0, 0, 0), result: 1, flags: 2 };
    assert!(matches!(rt.dispatch(&more), Dispatch::Handled));
    assert!(rt.can_dispatch(&more));
}

#[test]
fn newer_completion_is_ignored() {
    let mut rt = labels();
    block_on(&mut rt, "a");
    rt.submit_read(3);
    rt.submit_read(4);
    rt.submit_read(5);
    rt.end_poll("a", false);
    let newer = Cqe { user_data: word(0, 1, 0), result: 1, flags: 0 };
    assert!(matches!(rt.dispatch(&newer), Dispatch::Handled));
    assert!(!rt.is_polling());
    let marked = Cqe { user_data: word(0, 0x8000, 0), result: 1, flags: 0 };
    assert!(matches!(rt.dispatch(&marked), Dispatch::Handled));
    assert!(!rt.is_polling());
    let awaited = Cqe { user_data: word(0, 0, 0), result: 1, flags: 0 };
    assert!(matches!(rt.dispatch(&awaited), Dispatch::Poll("a")));
    assert_eq!(rt.end_poll("a", false), Some("a"));
}

#[test]
fn newer_completion_with_more_to_come_changes_nothing() {
    let mut rt = labels();
    block_on(&mut rt, "a");
    rt.submit_read(3);
    rt.end_poll("a", false);
    let newer = Cqe { user_data: word(0, 1, 0), result: 1, flags: 2 };
    assert!(matches!(rt.dispatch(&newer), Dispatch::Handled));
    let awaited = Cqe { user_data: word(0, 0, 0), result: 1, flags: 0 };
    assert!(matches!(rt.dispatch(&awaited), Dispatch::Poll("a")));
}

#[test]
fn single_shot_before_a_multishot_is_ignored() {
    let mut rt = labels();
    block_on(&mut rt, "a");
    rt.submit_accept(3);
    rt.submit_recv_multishot(4);
    rt.end_poll("a", false);
    let single = Cqe { user_data: word(0, 0, 0), result: 1, flags: 0 };
    assert!(matches!(rt.dispatch(&single), Dispatch::Handled));
    let received = Cqe { user_data: word(0, 0x8000, 0), result: 4, flags: 0 };
    assert!(matches!(rt.dispatch(&received), Dispatch::Poll("a")));
    assert_eq!(rt.end_poll("a", false), Some("a"));
}

#[test]
fn completed_future_goes_with_the_last_reference() {
    let mut rt = labels();
    block_on(&mut rt, "a");
    let first = rt.waker();
    let second = rt.waker();
    assert_eq!(rt.end_poll("a", true), None);
    rt.wake(first, 1);
    assert!(matches!(rt.step(), Step::Continue));
    rt.wake(second, 2);
    assert!(matches!(rt.step(), Step::Drop("a")));
}

#[test]
fn completion_for_nobody_is_told_apart() {
    let rt = labels();
    assert!(!rt.can_dispatch(&Cqe { user_data: word(0, 0, 0), result: 1, flags: 0 }));
    assert!(!rt.can_dispatch(&Cqe { user_data: word(99, 0, 0), result: 1, flags: 0 }));
    assert!(rt.can_dispatch(&Cqe { user_data: u64::MAX, result: 1, flags: 0 }));
    assert!(!rt.can_dispatch(&Cqe { user_data: (1 << 63) | 600, result: 1, flags: 0 }));
    assert!(!rt.is_held_outside(SlabIdx(0)));
}

#[test]
fn completed_task_is_not_polled_again() {
    let mut rt = labels();
    block_on(&mut rt, "a");
    rt.submit_read(3);
    assert_eq!(rt.end_poll("a", true), None);
    assert!(matches!(submitted(&mut rt).0[0], Sqe::Read { fd: 3, len: 4096, .. }));
    let cqe = Cqe { user_data: word(0, 0, 0), result: 1, flags: 0 };
    assert!(matches!(rt.dispatch(&cqe), Dispatch::Drop("a")));
    assert!(matches!(rt.step(), Step::Continue));
    assert!(matches!(rt.step(), Step::Continue));
    assert!(matches!(rt.step(), Step::Done));
}

#[test]
fn internal_completions_wake_no_task() {
    let mut rt = labels();
    let buf = rt.alloc_write_buffer();
    assert_eq!(buf.index(), 512);
    buf.submit(&mut rt, 7, 10);
    assert!(rt.buffer().is_in_use(512));
    let cqe = Cqe { user_data: (1 << 63) | 512, result: 10, flags: 0 };
    assert!(rt.can_dispatch(&cqe));
    assert!(matches!(rt.dispatch(&cqe), Dispatch::Handled));
    assert!(!rt.buffer().is_in_use(512));
    assert!(!rt.can_dispatch(&cqe));
    let ignored = Cqe { user_data: u64::MAX, result: -1, flags: 0 };
    assert!(matches!(rt.dispatch(&ignored), Dispatch::Handled));
}

#[test]
fn wake_up_carries_a_result() {
    let mut rt = labels();
    block_on(&mut rt, "a");
    let waker: Waker = rt.waker();
    assert_eq!(rt.end_poll("a", false), None);
    assert!(rt.can_wake(&waker));
    rt.wake(waker, -7);
    assert_eq!(polled(&mut rt), "a");
    assert_eq!(rt.current_result(), -7);
    assert_eq!(rt.current_cqe_flags(), 0);
    assert_eq!(rt.end_poll("a", false), Some("a"));
}

#[test]
fn waker_takes_eight_bytes() {
    assert_eq!(std::mem::size_of::<Waker>(), 8);
}

#[test]
fn dropped_waker_gives_its_reference_back() {
    let mut rt = labels();
    block_on(&mut rt, "a");
    let waker = rt.waker();
    assert_eq!(rt.end_poll("a", false), None);
    assert_eq!(rt.drop_waker(waker), Some("a"));
    assert!(matches!(rt.step(), Step::Continue));
    assert!(matches!(rt.step(), Step::Continue));
    assert!(matches!(rt.step(), Step::Done));
}

#[test]
fn chain_of_wake_ups_is_worked_off_in_one_turn() {
    let mut rt = labels();
    block_on(&mut rt, "a");
    let wake_a = rt.waker();
    rt.end_poll("a", false);
    rt.spawn("b");
    let wake_b = rt.waker();
    rt.end_poll("b", false);

    rt.wake(wake_a, 1);
    assert_eq!(polled(&mut rt), "a");
    rt.wake(wake_b, 2);
    rt.end_poll("a", true);
    assert_eq!(polled(&mut rt), "b");
    assert_eq!(rt.current_result(), 2);
    rt.submit_read(3);
    rt.end_poll("b", false);
    let (sqes, wait) = submitted(&mut rt);
    assert_eq!(sqes.len(), 1);
    assert!(wait);
}

#[test]
fn yielding_again_waits_for_the_next_turn() {
    let mut rt = labels();
    block_on(&mut rt, "a");
    rt.yield_now();
    rt.end_poll("a", false);
    rt.spawn("b");
    rt.yield_now();
    rt.end_poll("b", false);

    assert_eq!(polled(&mut rt), "a");
    assert_eq!(rt.current_result(), 0);
    rt.yield_now();
    rt.end_poll("a", false);
    assert_eq!(polled(&mut rt), "b");
    rt.end_poll("b", true);
    let (sqes, wait) = submitted(&mut rt);
    assert!(sqes.is_empty());
    assert!(!wait);
    assert_eq!(polled(&mut rt), "a");
    rt.end_poll("a", true);
    assert!(matches!(rt.step(), Step::Continue));
    assert!(matches!(rt.step(), Step::Done));
}

#[test]
fn requests_of_one_turn_are_submitted_together() {
    let mut rt = labels();
    block_on(&mut rt, "a");
    rt.submit_socket();
    rt.submit_connect(2, 0x1000, 16);
    rt.submit_accept_multishot(4);
    rt.submit_write(5, 3, 8);
    rt.submit_commit_write(0x2000, 6, 9, 2);
    rt.sqe_queue_push(Sqe::Accept { listen_fd: 1, user_data: u64::MAX });
    rt.end_poll("a", false);
    let addr = rt.buffer().write_buf_ptr(3);
    let (sqes, wait) = submitted(&mut rt);
    assert!(wait);
    assert_eq!(
        sqes,
        vec![
            Sqe::Socket { domain: 2, socket_type: 0x80801, protocol: 0, user_data: 0 },
            Sqe::Connect { fd: 2, addr: 0x1000, addrlen: 16, user_data: 0 },
            Sqe::AcceptMulti { listen_fd: 4, user_data: 0x8000_0000 },
            Sqe::WriteFixed { fd: 5, addr, len: 8, buf_index: 515, user_data: 0 },
            Sqe::WriteFixed { fd: 6, addr: 0x2000, len: 9, buf_index: 2, user_data: 0 },
            Sqe::Accept { listen_fd: 1, user_data: u64::MAX },
        ]
    );
    assert_eq!(submitted(&mut rt).0, vec![]);
}

#[test]
fn read_slots_are_lent_at_the_start() {
    let mut rt = labels();
    assert_eq!(rt.buf_ring().len(), 512);
    assert_eq!(rt.buf_ring().tail(), 512);
    for i in 0..512u32 {
        let e = rt.buf_ring().entry(i as usize);
        assert_eq!(e.bid as u32, i);
        assert_eq!(e.len, 4096);
        assert_eq!(e.addr as usize, rt.buffer().read_buf_addr(i));
    }
    let update = rt.release_read_buf(5);
    assert_eq!(update.offset, 0);
    assert_eq!(update.entry.bid, 5);
    assert_eq!(update.tail, 513);
}

#[test]
fn references_are_counted_up_to_their_limit() {
    let mut rt = labels();
    assert!(!rt.can_submit(0));
    block_on(&mut rt, "a");
    assert!(rt.can_submit(65534));
    assert!(!rt.can_submit(65535));
    rt.submit_read(1);
    assert!(!rt.can_submit(65534));
}

#[test]
fn references_of_a_task_are_what_is_in_flight() {
    let mut rt = labels();
    block_on(&mut rt, "a");
    rt.submit_read(1);
    rt.submit_accept_multishot(2);
    let waker = rt.waker();
    rt.yield_now();
    assert!(rt.can_submit(65530));
    assert!(!rt.can_submit(65531));
    rt.end_poll("a", false);
    assert_eq!(rt.drop_waker(waker), None);
}

#[test]
fn registered_task_waits_for_its_first_poll() {
    let mut rt = labels();
    let idx = rt.register_future("a");
    assert_eq!(idx, SlabIdx(0));
    assert!(rt.is_held_outside(idx));
    assert!(!rt.is_polling());
    assert_eq!(rt.begin_initial_poll(idx), "a");
    assert!(!rt.is_held_outside(idx));
    assert_eq!(rt.current_result(), i32::MAX);
    rt.end_poll("a", true);
}

#[test]
fn submission_fails_if_nothing_was_taken() {
    assert!(submission_failed(3, 0));
    assert!(!submission_failed(3, 3));
    assert!(!submission_failed(0, 0));
}
