use onlyio::task::{
    mark_multiple, successor, RawTask, SyscallNbCompResult, Task, MULTIPLE_MASK,
};
use onlyio::task_slab::SlabIdx;
use std::future::Future;
use std::mem::size_of;
use std::pin::Pin;
use std::sync::atomic::{AtomicBool, Ordering};
use std::sync::Arc;
use std::task::{Context, Poll, Waker};

type BoxedFuture = Pin<Box<dyn Future<Output = ()>>>;

fn boxed(future: impl Future<Output = ()> + 'static) -> BoxedFuture {
    Box::pin(future)
}

/// Polls the future of a task, unless it has completed, and puts it back.
fn poll(task: &mut Task<BoxedFuture>) -> Poll<()> {
    if task.is_done() {
        return Poll::Ready(());
    }
    let mut future = task.take_future().unwrap();
    let mut cx = Context::from_waker(Waker::noop());
    let result = future.as_mut().poll(&mut cx);
    task.put_future(future, result.is_ready());
    result
}

struct DropProbe(Arc<AtomicBool>);

impl Drop for DropProbe {
    fn drop(&mut self) {
        self.0.store(true, Ordering::SeqCst);
    }
}

#[test]
fn layout() {
    assert_eq!(size_of::<RawTask<BoxedFuture>>(), 32);
    assert_eq!(size_of::<Task<BoxedFuture>>(), size_of::<usize>());
    assert_eq!(size_of::<Option<Task<BoxedFuture>>>(), size_of::<usize>());
}

#[test]
fn ready_future() {
    let mut t = Task::new(boxed(async {}));
    assert!(poll(&mut t).is_ready());
    assert_eq!(t.get_rc(), 1);
}

#[test]
fn completed_future_is_not_polled_again() {
    let mut t = Task::new(boxed(async {}));
    assert!(!t.is_done());
    assert!(poll(&mut t).is_ready());
    assert!(t.is_done());
    assert!(poll(&mut t).is_ready());
    assert!(t.take_future().is_some());
}

#[test]
fn pending_future_stays() {
    let mut t = Task::new(boxed(std::future::pending::<()>()));
    assert!(poll(&mut t).is_pending());
    assert!(t.take_future().is_some());
}

#[test]
fn clone_bump_et_drop_dec() {
    let mut free_list: Vec<SlabIdx> = Vec::new();
    let mut t1 = Task::new(boxed(async {}));
    assert_eq!(t1.get_rc(), 1);

    t1.inc_rc();
    assert_eq!(t1.get_rc(), 2);

    assert!(t1.release(&mut free_list).is_none());
    assert_eq!(t1.get_rc(), 1);
}

#[test]
fn drop_fn_appele_si_future_non_consommee() {
    let dropped = Arc::new(AtomicBool::new(false));
    let probe = DropProbe(dropped.clone());
    let mut t = Task::new(boxed(async move {
        let _p = probe;
        std::future::pending::<()>().await;
    }));

    let mut free_list: Vec<SlabIdx> = Vec::new();
    let future = t.release(&mut free_list);
    assert!(future.is_some());
    drop(future);
    assert!(dropped.load(Ordering::SeqCst), "drop_fn non appelé");
}

#[test]
fn into_raw_from_raw_preserves_rc() {
    let t = Task::new(boxed(async {}));
    assert_eq!(t.get_rc(), 1);

    let raw = t.into_raw();
    assert_eq!(raw.get_rc(), 1);

    let t2 = Task::from_raw(raw);
    assert_eq!(t2.get_rc(), 1);
}

#[test]
fn futures_up_to_the_alignment_of_the_header_fit() {
    assert!(Task::<BoxedFuture>::fits());
    assert!(Task::<std::arch::x86_64::__m256i>::fits());
    assert!(!Task::<std::arch::x86_64::__m512i>::fits());
}

#[test]
fn writes_are_counted() {
    let mut t = Task::new(());
    assert_eq!(t.get_writes(), 0);
    t.begin_write();
    t.begin_write();
    t.end_write();
    assert_eq!(t.get_writes(), 1);
}

#[test]
fn last_release_names_the_slot() {
    let mut free_list: Vec<SlabIdx> = Vec::new();
    let mut t = Task::new(11u8);
    t.set_task_idx(SlabIdx(7));
    t.inc_rc();
    assert_eq!(t.release(&mut free_list), None);
    assert!(free_list.is_empty());
    assert_eq!(t.release(&mut free_list), Some(11));
    assert_eq!(free_list, vec![SlabIdx(7)]);
    assert_eq!(t.get_rc(), 0);
}

#[test]
fn release_outside_a_slab_names_no_slot() {
    let mut free_list: Vec<SlabIdx> = Vec::new();
    let mut t = Task::new(11u8);
    assert_eq!(t.release(&mut free_list), Some(11));
    assert!(free_list.is_empty());
}

#[test]
fn numbers_are_compared() {
    let mut t = Task::new(());
    assert_eq!(t.get_syscall_nb(), 0);
    assert_eq!(t.evaluate_syscall_nb(0), SyscallNbCompResult::Normal);
    assert_eq!(t.evaluate_syscall_nb(1), SyscallNbCompResult::Error);
    assert_eq!(t.evaluate_syscall_nb(0x8000), SyscallNbCompResult::Error);

    t.augmente_syscall_nb();
    assert_eq!(t.get_syscall_nb(), 1);
    assert_eq!(t.evaluate_syscall_nb(0), SyscallNbCompResult::Expired);
    assert_eq!(t.evaluate_syscall_nb(0x8000), SyscallNbCompResult::Expired);
    assert_eq!(t.evaluate_syscall_nb(1), SyscallNbCompResult::Normal);

    t.set_multishot();
    assert_eq!(t.get_syscall_nb(), 0x8001);
    assert_eq!(t.evaluate_syscall_nb(0x8001), SyscallNbCompResult::Multiple);
    assert_eq!(t.evaluate_syscall_nb(1), SyscallNbCompResult::Error);
    assert_eq!(t.evaluate_syscall_nb(0x8002), SyscallNbCompResult::Error);
    assert_eq!(t.evaluate_syscall_nb(0), SyscallNbCompResult::Expired);

    t.advance_syscall_nb();
    assert_eq!(t.get_syscall_nb(), 2);
    assert_eq!(t.evaluate_syscall_nb(0x8001), SyscallNbCompResult::Expired);
}

#[test]
fn marks_and_successors() {
    assert_eq!(mark_multiple(0), MULTIPLE_MASK);
    assert_eq!(mark_multiple(0x8005), 0x8005);
    assert_eq!(successor(0x8005), 6);
    assert_eq!(successor(5), 6);
    assert_eq!(successor(0xFFFF), 0x8000);
}
