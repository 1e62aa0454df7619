use std::sync::atomic::{AtomicUsize, Ordering};
use std::sync::Arc;
use std::task::{Context, Poll, Wake, Waker};

use selectme::{Poller, PollerWaker, Snapshot, StaticWaker, DISABLED};

struct Counter(AtomicUsize);

impl Wake for Counter {
    fn wake(self: Arc<Self>) {
        self.0.fetch_add(1, Ordering::SeqCst);
    }
}

fn counter() -> (Arc<Counter>, Waker) {
    let counter = Arc::new(Counter(AtomicUsize::new(0)));
    let waker = Waker::from(counter.clone());
    (counter, waker)
}

fn woken(counter: &Arc<Counter>) -> usize {
    counter.0.load(Ordering::SeqCst)
}

#[test]
fn a_new_poller_yields_every_branch_lowest_first() {
    let shared = StaticWaker::new();
    let (count, waker) = counter();
    let mut cx = Context::from_waker(&waker);
    let mut poller = Poller::new(&shared, Snapshot::new(0b1011u8));
    assert_eq!(poller.poll(&mut cx), Poll::Ready(0));
    assert_eq!(poller.poll(&mut cx), Poll::Ready(1));
    assert_eq!(poller.poll(&mut cx), Poll::Ready(3));
    // The ready branches are used up: the shared set is consulted in the
    // same poll, the continuation is registered, and the poller suspends.
    assert_eq!(poller.poll(&mut cx), Poll::Pending);
    assert_eq!(woken(&count), 0);
    shared.parent().wake_by_ref();
    assert_eq!(woken(&count), 1);
    assert_eq!(poller.poll(&mut cx), Poll::Pending);
    assert_eq!(woken(&count), 1);
}

#[test]
fn a_woken_branch_is_yielded_by_the_next_poll() {
    let shared = StaticWaker::new();
    let (count, waker) = counter();
    let mut cx = Context::from_waker(&waker);
    let mut poller = Poller::new(&shared, Snapshot::new(0b11u8));
    assert_eq!(poller.poll(&mut cx), Poll::Ready(0));
    assert_eq!(poller.poll(&mut cx), Poll::Ready(1));
    assert_eq!(poller.poll(&mut cx), Poll::Pending);
    assert_eq!(woken(&count), 0);
    PollerWaker::new(&shared, 1).wake_by_ref();
    assert_eq!(woken(&count), 1);
    // No poll is spent on finding the ready branches used up.
    assert_eq!(poller.poll(&mut cx), Poll::Ready(1));
    assert_eq!(poller.poll(&mut cx), Poll::Pending);
    assert_eq!(woken(&count), 1);
}

#[test]
fn a_branch_woken_before_the_last_ready_one_is_found_without_a_wait() {
    let shared = StaticWaker::new();
    let (count, waker) = counter();
    let mut cx = Context::from_waker(&waker);
    let mut poller = Poller::new(&shared, Snapshot::new(0b11u8));
    shared.set().set(0);
    // The ready branches are used up first.
    assert_eq!(poller.poll(&mut cx), Poll::Ready(0));
    assert_eq!(poller.poll(&mut cx), Poll::Ready(1));
    assert_eq!(poller.snapshot().state(), 0);
    // Then the shared set is consulted, in the poll that finds none ready.
    assert_eq!(poller.poll(&mut cx), Poll::Ready(0));
    assert_eq!(woken(&count), 0);
    assert_eq!(shared.set().take(), 0);
}

#[test]
fn a_cleared_branch_is_not_yielded() {
    let shared = StaticWaker::new();
    let (_count, waker) = counter();
    let mut cx = Context::from_waker(&waker);
    let mut poller = Poller::new(&shared, Snapshot::new(0b111u8));
    poller.clear(1);
    assert_eq!(poller.mask().state(), 0b101);
    assert_eq!(poller.snapshot().state(), 0b101);
    assert_eq!(poller.poll(&mut cx), Poll::Ready(0));
    assert_eq!(poller.poll(&mut cx), Poll::Ready(2));
    PollerWaker::new(&shared, 1).wake_by_ref();
    assert_eq!(poller.poll(&mut cx), Poll::Pending);
    assert_eq!(poller.poll(&mut cx), Poll::Pending);
    assert_eq!(poller.snapshot().state(), 0);
}

#[test]
fn without_branches_the_poller_yields_the_sentinel() {
    let shared = StaticWaker::new();
    let (count, waker) = counter();
    let mut cx = Context::from_waker(&waker);
    let mut poller = Poller::new(&shared, Snapshot::new(0u64));
    assert!(poller.is_disabled());
    assert_eq!(poller.poll(&mut cx), Poll::Ready(DISABLED));
    assert_eq!(poller.poll(&mut cx), Poll::Ready(DISABLED));
    assert_eq!(woken(&count), 0);
    let mut other = Poller::new(&shared, Snapshot::new(0b10u64));
    assert!(!other.is_disabled());
    other.clear(1);
    assert!(other.is_disabled());
    assert_eq!(other.poll(&mut cx), Poll::Ready(DISABLED));
}

#[test]
fn absorb_adds_only_enabled_branches() {
    let shared = StaticWaker::new();
    let mut poller = Poller::new(&shared, Snapshot::new(0b0110u8));
    poller.visit(1);
    poller.visit(2);
    assert_eq!(poller.snapshot().state(), 0);
    poller.absorb(0b1111_0101);
    assert_eq!(poller.snapshot().state(), 0b0100);
    poller.absorb(1 << 100);
    assert_eq!(poller.snapshot().state(), 0b0100);
    poller.absorb(0b10);
    assert_eq!(poller.snapshot().state(), 0b0110);
    assert_eq!(poller.mask().state(), 0b0110);
}

#[test]
fn merge_from_shared_takes_what_has_gathered() {
    let shared = StaticWaker::new();
    let mut poller = Poller::new(&shared, Snapshot::new(0b0111u16));
    poller.visit(0);
    poller.visit(1);
    poller.visit(2);
    shared.set().set(1);
    shared.set().set(9);
    poller.merge_from_shared();
    assert_eq!(poller.snapshot().state(), 0b010);
    assert_eq!(shared.set().take(), 0);
}

#[test]
fn merge_answers_whether_to_suspend() {
    let shared = StaticWaker::new();
    let (count, waker) = counter();
    let mut cx = Context::from_waker(&waker);
    let mut poller = Poller::new(&shared, Snapshot::new(0b1u8));
    assert!(!poller.merge(&mut cx));
    poller.visit(0);
    assert!(poller.merge(&mut cx));
    shared.set().set(0);
    assert!(!poller.merge(&mut cx));
    assert_eq!(woken(&count), 0);
}

#[test]
fn restrict_keeps_only_the_working_branches() {
    let shared = StaticWaker::new();
    let mut poller = Poller::new(&shared, Snapshot::new(0b1111u8));
    poller.visit(0);
    poller.restrict(Snapshot::new(0b1011_0101));
    assert_eq!(poller.mask().state(), 0b0101);
    assert_eq!(poller.snapshot().state(), 0b0100);
}

#[test]
fn release_gives_the_ready_branches_back() {
    let shared = StaticWaker::new();
    let mut poller = Poller::new(&shared, Snapshot::new((1u128 << 127) | (1 << 64) | 0b101));
    poller.visit(0);
    poller.release();
    assert_eq!(poller.snapshot().state(), 0);
    assert_eq!(poller.mask().state(), (1u128 << 127) | (1 << 64) | 0b101);
    assert_eq!(shared.set().take(), (1u128 << 127) | (1 << 64) | 0b100);
}
