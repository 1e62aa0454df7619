//! The standard library's task types, as far as the selection uses them.

use vstd::prelude::*;
use core::task::{Context, Poll, Waker};
use std::sync::{RwLock, RwLockReadGuard, RwLockWriteGuard};

verus! {

/// `core::task::Waker`: the handle that resumes a suspended task. Nothing of
/// its inside is visible here.
#[verifier::external_type_specification]
#[verifier::external_body]
pub struct ExWaker(Waker);

/// `core::task::Context`: what a poll is handed; it carries the waker of the
/// task that polls.
#[verifier::external_type_specification]
#[verifier::external_body]
pub struct ExContext<'a>(Context<'a>);

/// `core::task::Poll`, with its two variants `Ready` and `Pending`.
#[verifier::external_type_specification]
#[verifier::reject_recursive_types(T)]
pub struct ExPoll<T>(Poll<T>);

/// `std::sync::RwLock`: shared storage that many may read or one may write.
#[verifier::external_type_specification]
#[verifier::external_body]
#[verifier::reject_recursive_types(T)]
pub struct ExRwLock<T: ?Sized>(RwLock<T>);

/// `std::sync::RwLockReadGuard`: read access to the content of a lock, for
/// as long as the guard lives.
#[verifier::external_type_specification]
#[verifier::external_body]
#[verifier::reject_recursive_types(T)]
pub struct ExRwLockReadGuard<'a, T: ?Sized>(RwLockReadGuard<'a, T>);

/// `std::sync::RwLockWriteGuard`: write access to the content of a lock, for
/// as long as the guard lives.
#[verifier::external_type_specification]
#[verifier::external_body]
#[verifier::reject_recursive_types(T)]
pub struct ExRwLockWriteGuard<'a, T: ?Sized + 'a>(RwLockWriteGuard<'a, T>);

/// `Context::waker` returns the waker of the task that polls.
pub assume_specification<'a>[ Context::<'a>::waker ](cx: &Context<'a>) -> &'a Waker;

/// `Waker::wake_by_ref` asks for the task to be polled again.
pub assume_specification[ Waker::wake_by_ref ](waker: &Waker);

/// `Waker::will_wake` tells whether two wakers resume the same task; `true`
/// is only a best effort, so nothing is claimed of the answer.
pub assume_specification[ Waker::will_wake ](waker: &Waker, other: &Waker) -> bool;

/// `Waker::clone` makes another handle for the same task.
pub assume_specification[ <Waker as Clone>::clone ](waker: &Waker) -> Waker;

/// `core::hint::spin_loop` tells the processor that the caller is waiting in
/// a loop.
pub assume_specification[ core::hint::spin_loop ]();

/// `RwLock::new` makes a lock that holds `value`.
pub assume_specification<T>[ RwLock::<T>::new ](value: T) -> RwLock<T>;

/// `RwLock::try_read` gives read access unless a writer holds the lock or a
/// writer has panicked while holding it; it never waits. `None` stands for
/// both refusals.
#[verifier::external_body]
pub(crate) fn try_read<'a>(slot: &'a RwLock<Option<Waker>>) -> Option<
    RwLockReadGuard<'a, Option<Waker>>,
> {
    slot.try_read().ok()
}

/// The content that a read guard gives access to (`Deref::deref`).
#[verifier::external_body]
pub(crate) fn held<'a, 'b>(guard: &'a RwLockReadGuard<'b, Option<Waker>>) -> &'a Option<Waker> {
    guard
}

/// `RwLock::try_write` gives write access unless the lock is held or
/// poisoned; it never waits. `None` stands for both refusals.
#[verifier::external_body]
pub(crate) fn try_write<'a>(slot: &'a RwLock<Option<Waker>>) -> Option<
    RwLockWriteGuard<'a, Option<Waker>>,
> {
    slot.try_write().ok()
}

/// Puts `waker` in the place of the content that a write guard gives access
/// to (`DerefMut::deref_mut`).
#[verifier::external_body]
pub(crate) fn put(guard: &mut RwLockWriteGuard<'_, Option<Waker>>, waker: Waker) {
    **guard = Some(waker);
}

} // verus!
