use std::sync::atomic::{AtomicUsize, Ordering};
use std::sync::Arc;
use std::task::{Wake, Waker};

use selectme::atomic_waker::{clears, delivers, enters, redelivers, IDLE, LOOP, REGISTER, WAKE_BY_REF};
use selectme::interest::{join, split};
use selectme::{AtomicWaker, PollerWaker, SharedSet, StaticWaker};

struct Counter(AtomicUsize);

impl Wake for Counter {
    fn wake(self: Arc<Self>) {
        self.0.fetch_add(1, Ordering::SeqCst);
    }
}

fn counter() -> (Arc<Counter>, Waker) {
    let counter = Arc::new(Counter(AtomicUsize::new(0)));
    let waker = Waker::from(counter.clone());
    (counter, waker)
}

fn woken(counter: &Arc<Counter>) -> usize {
    counter.0.load(Ordering::SeqCst)
}

#[test]
fn an_empty_cell_wakes_nobody() {
    let cell = AtomicWaker::new();
    cell.wake_by_ref();
    cell.wake_by_ref();
}

#[test]
fn a_registered_continuation_is_notified_and_stays() {
    let cell = AtomicWaker::new();
    let (count, waker) = counter();
    cell.register(&waker);
    assert_eq!(woken(&count), 0);
    cell.wake_by_ref();
    assert_eq!(woken(&count), 1);
    cell.wake_by_ref();
    assert_eq!(woken(&count), 2);
}

#[test]
fn registering_the_same_continuation_again_changes_nothing() {
    let cell = AtomicWaker::new();
    let (count, waker) = counter();
    cell.register(&waker);
    cell.register(&waker);
    cell.register(&waker.clone());
    // One handle is held by the test, one by its clone in the cell.
    assert_eq!(Arc::strong_count(&count), 3);
    cell.wake_by_ref();
    assert_eq!(woken(&count), 1);
}

#[test]
fn a_new_continuation_replaces_the_old_one() {
    let cell = AtomicWaker::new();
    let (first, first_waker) = counter();
    let (second, second_waker) = counter();
    cell.register(&first_waker);
    cell.register(&second_waker);
    cell.wake_by_ref();
    assert_eq!(woken(&first), 0);
    assert_eq!(woken(&second), 1);
    // The cell has let go of the first continuation.
    drop(first_waker);
    assert_eq!(Arc::strong_count(&first), 1);
}

#[test]
fn set_then_take_observes_every_bit_once() {
    let set = SharedSet::empty();
    assert_eq!(set.take(), 0);
    set.set(0);
    set.set(63);
    set.set(64);
    set.set(127);
    set.set(63);
    assert_eq!(set.take(), 1 | (1 << 63) | (1 << 64) | (1 << 127));
    assert_eq!(set.take(), 0);
}

#[test]
fn set_ignores_an_index_that_no_branch_has() {
    let set = SharedSet::empty();
    set.set(128);
    set.set(u32::MAX);
    assert_eq!(set.take(), 0);
}

#[test]
fn merge_and_reset() {
    let set = SharedSet::empty();
    set.set(2);
    set.merge((1 << 100) | 0b11);
    assert_eq!(set.take(), (1 << 100) | 0b111);
    set.merge(0);
    assert_eq!(set.take(), 0);
    set.set(5);
    set.reset((1 << 70) | 1);
    assert_eq!(set.take(), (1 << 70) | 1);
}

#[test]
fn cumulative_sets_equal_cumulative_takes() {
    let set = SharedSet::empty();
    let mut expected: u128 = 0;
    let mut observed: u128 = 0;
    let mut x: u32 = 12345;
    for round in 0..2000 {
        x = x.wrapping_mul(1103515245).wrapping_add(12345);
        let index = (x >> 16) % 128;
        set.set(index);
        expected |= 1 << index;
        if round % 7 == 0 {
            observed |= set.take();
        }
    }
    observed |= set.take();
    assert_eq!(observed, expected);
}

#[test]
fn join_and_split_are_inverse() {
    assert_eq!(join(0, 0), 0);
    assert_eq!(join(5, 0), 5);
    assert_eq!(join(0, 1), 1 << 64);
    assert_eq!(join(u64::MAX, u64::MAX), u128::MAX);
    assert_eq!(join(7, 3), (3 << 64) | 7);
    assert_eq!(split((3 << 64) | 7), (7, 3));
    assert_eq!(split(u128::MAX), (u64::MAX, u64::MAX));
    assert_eq!(split(1 << 63), (1 << 63, 0));
}

#[test]
fn a_branch_handle_sets_its_bit_and_notifies() {
    let shared = StaticWaker::new();
    let (count, waker) = counter();
    shared.parent().register(&waker);
    let handle = PollerWaker::new(&shared, 70);
    assert_eq!(handle.index(), 70);
    handle.wake_by_ref();
    handle.wake_by_ref();
    assert_eq!(woken(&count), 2);
    assert_eq!(shared.set().take(), 1 << 70);
}

#[test]
fn a_branch_handle_can_be_given_up_on_waking() {
    let shared = StaticWaker::new();
    let (count, waker) = counter();
    shared.parent().register(&waker);
    let handle = PollerWaker::new(&shared, 3);
    let copy = handle;
    handle.wake();
    assert_eq!(woken(&count), 1);
    assert_eq!(shared.set().take(), 0b1000);
    copy.wake();
    assert_eq!(woken(&count), 2);
    assert_eq!(shared.set().take(), 0b1000);
}

#[test]
fn reset_replaces_what_was_reported() {
    let shared = StaticWaker::new();
    PollerWaker::new(&shared, 1).wake_by_ref();
    shared.reset(0b1000);
    assert_eq!(shared.set().take(), 0b1000);
}

#[test]
fn the_flags_of_the_cell() {
    assert_eq!(IDLE, 0);
    assert_eq!(REGISTER, 1);
    assert_eq!(WAKE_BY_REF, 2);
    assert_eq!(LOOP, 3);
}

#[test]
fn a_registration_enters_an_idle_cell_only() {
    assert!(enters(IDLE));
    assert!(!enters(REGISTER));
    assert!(!enters(WAKE_BY_REF));
    assert!(!enters(REGISTER | WAKE_BY_REF));
}

#[test]
fn a_registration_redelivers_a_notification_that_came_meanwhile() {
    assert!(!redelivers(true, REGISTER));
    assert!(redelivers(true, REGISTER | WAKE_BY_REF));
    assert!(redelivers(false, REGISTER));
    assert!(redelivers(false, REGISTER | WAKE_BY_REF));
}

#[test]
fn a_notification_delivers_unless_a_registration_is_in_flight() {
    assert!(delivers(IDLE));
    assert!(delivers(WAKE_BY_REF));
    assert!(!delivers(REGISTER));
    assert!(!delivers(REGISTER | WAKE_BY_REF));
    assert!(clears(IDLE));
    assert!(!clears(WAKE_BY_REF));
    assert!(!clears(REGISTER));
    assert!(!clears(REGISTER | WAKE_BY_REF));
}
