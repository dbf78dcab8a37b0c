use onlyio::task::Task;
use onlyio::task_slab::{free_slot, Slab, SlabIdx, SlabSlot};
use std::future::Future;
use std::pin::Pin;
use std::task::{Context, Waker};

type BoxedFuture = Pin<Box<dyn Future<Output = ()>>>;

fn task(future: impl Future<Output = ()> + 'static) -> Task<BoxedFuture> {
    Task::new(Box::pin(future))
}

#[test]
fn simple_test() {
    let mut slab: Slab<BoxedFuture> = Slab::with_capacity(1);
    let idx = slab.insert(task(async { println!("hey") }));
    assert_eq!(idx.0, 0);
    let mut task = slab.remove(idx);
    let waker = Waker::noop();
    let mut context = Context::from_waker(waker);
    let mut future = task.take_future().unwrap();
    assert!(future.as_mut().poll(&mut context).is_ready());
}

#[test]
fn free_list_reuse() {
    let mut slab: Slab<BoxedFuture> = Slab::with_capacity(2);
    let i0 = slab.insert(task(async {}));
    let i1 = slab.insert(task(async {}));
    assert_eq!(i0.0, 0);
    assert_eq!(i1.0, 1);

    slab.remove(i0);
    let i2 = slab.insert(task(async {}));
    assert_eq!(i2.0, 0, "slot 0 doit être réutilisé");
}

#[test]
fn growth() {
    let mut slab: Slab<BoxedFuture> = Slab::with_capacity(2);
    let _i0 = slab.insert(task(async {}));
    let _i1 = slab.insert(task(async {}));
    let i2 = slab.insert(task(async {}));
    assert_eq!(i2.0, 2);
    assert_eq!(slab.len(), 4);
}

#[test]
fn slots_are_reused_last_freed_first() {
    let mut slab: Slab<u8> = Slab::with_capacity(4);
    for x in 0..4u8 {
        slab.insert(Task::new(x));
    }
    assert_eq!(slab.count(), 4);
    slab.remove(SlabIdx(1));
    slab.remove(SlabIdx(3));
    assert_eq!(slab.count(), 2);
    assert!(!slab.contains(SlabIdx(1)));
    assert!(slab.contains(SlabIdx(2)));
    assert!(!slab.contains(SlabIdx(99)));
    assert_eq!(slab.insert(Task::new(10)), SlabIdx(3));
    assert_eq!(slab.insert(Task::new(11)), SlabIdx(1));
    assert_eq!(slab.insert(Task::new(12)), SlabIdx(4));
    assert_eq!(slab.len(), 8);
    assert_eq!(slab.count(), 5);
}

#[test]
fn removing_gives_what_was_inserted() {
    let mut slab: Slab<u8> = Slab::with_capacity(1);
    let a = slab.insert(Task::new(1));
    let b = slab.insert(Task::new(2));
    let c = slab.insert(Task::new(3));
    assert_eq!(slab.len(), 4);
    assert_eq!(slab.remove(b).take_future(), Some(2));
    assert_eq!(slab.remove(c).take_future(), Some(3));
    assert_eq!(slab.remove(a).take_future(), Some(1));
    assert_eq!(slab.count(), 0);
}

#[test]
fn tasks_are_changed_in_place() {
    let mut slab: Slab<u8> = Slab::with_capacity(2);
    let a = slab.insert(Task::new(1));
    let b = slab.insert(Task::new(2));
    slab.index_mut(b).inc_rc();
    assert_eq!(slab.index(a).get_rc(), 1);
    assert_eq!(slab.index(b).get_rc(), 2);
}

#[test]
fn dropped_tasks_are_removed() {
    let mut slab: Slab<u8> = Slab::with_capacity(2);
    let a = slab.insert(Task::new(1));
    let mut free_list: Vec<SlabIdx> = Vec::new();
    slab.index_mut(a).set_task_idx(a);
    assert_eq!(slab.index_mut(a).release(&mut free_list), Some(1));
    assert_eq!(free_list, vec![a]);
    slab.remove_dropped_task(a);
    assert_eq!(slab.count(), 0);
}

#[test]
fn slots_know_what_they_are() {
    let free: SlabSlot<u8> = free_slot(5);
    assert!(free.is_free());
    assert!(!free.is_task());
    assert_eq!(free.next_free(), 5);
    let used: SlabSlot<u8> = SlabSlot::Used(Task::new(1));
    assert!(!used.is_free());
    assert!(used.is_task());
}
