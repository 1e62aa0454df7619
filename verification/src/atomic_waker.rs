//! The waker cell: one slot for the continuation of the task that selects,
//! which any thread may notify.

use vstd::prelude::*;
use core::sync::atomic::{AtomicUsize, Ordering};
use core::task::Waker;
use std::sync::RwLock;
use crate::task::{held, put, try_read, try_write};

verus! {

/// Nobody registers and no notification is being delivered.
pub const IDLE: usize = 0;

/// A registration is in flight.
pub const REGISTER: usize = 0b01;

/// A notification has arrived and has not been delivered yet.
pub const WAKE_BY_REF: usize = 0b10;

/// How often a registration tries to enter before it gives up.
pub const LOOP: usize = 3;

/// Whether a registration that found the state word `observed` has entered:
/// it has, if the cell was idle.
pub open spec fn spec_enters(observed: usize) -> bool {
    observed == IDLE
}

/// Whether a registration that found the state word `observed` has entered.
#[verifier::when_used_as_spec(spec_enters)]
pub fn enters(observed: usize) -> (r: bool)
    ensures
        r == spec_enters(observed),
{
    observed == IDLE
}

/// Whether a registration wakes its own continuation when it leaves: it
/// does, if it could not store the continuation, or if the state word
/// `released` that it found on leaving has a notification flagged.
pub open spec fn spec_redelivers(stored: bool, released: usize) -> bool {
    !stored || released & WAKE_BY_REF != 0
}

/// Whether a registration wakes its own continuation when it leaves.
#[verifier::when_used_as_spec(spec_redelivers)]
pub fn redelivers(stored: bool, released: usize) -> (r: bool)
    ensures
        r == spec_redelivers(stored, released),
{
    !stored || released & WAKE_BY_REF != 0
}

/// Whether a notification that found the state word `observed` wakes the
/// continuation that the cell holds: it does, unless a registration is in
/// flight.
pub open spec fn spec_delivers(observed: usize) -> bool {
    observed & REGISTER == 0
}

/// Whether a notification that found the state word `observed` wakes the
/// continuation that the cell holds.
#[verifier::when_used_as_spec(spec_delivers)]
pub fn delivers(observed: usize) -> (r: bool)
    ensures
        r == spec_delivers(observed),
{
    observed & REGISTER == 0
}

/// Whether a notification that found the state word `observed` removes its
/// flag after the delivery: it does, if the cell was idle.
pub open spec fn spec_clears(observed: usize) -> bool {
    observed == IDLE
}

/// Whether a notification that found the state word `observed` removes its
/// flag after the delivery.
#[verifier::when_used_as_spec(spec_clears)]
pub fn clears(observed: usize) -> (r: bool)
    ensures
        r == spec_clears(observed),
{
    observed == IDLE
}

/// A cell that holds at most one continuation. One task registers, any
/// number of threads notify; two flag bits arbitrate between them, and
/// neither side ever waits for the other.
pub struct AtomicWaker {
    state: AtomicUsize,
    waker: RwLock<Option<Waker>>,
}

impl AtomicWaker {
    /// A cell that holds no continuation.
    pub fn new() -> Self {
        Self { state: AtomicUsize::new(IDLE), waker: RwLock::new(None) }
    }

    /// Makes `waker` the continuation to notify. Nothing is done when the
    /// cell already holds a continuation for the same task. When a
    /// notification arrives during the registration, or the cell stays busy
    /// for `LOOP` attempts, `waker` is woken at once: a poll too many rather
    /// than a wakeup lost.
    ///
    /// Only one caller at a time may register.
    pub fn register(&self, waker: &Waker) {
        if self.holds(waker) {
            return ;
        }
        let mut attempt: usize = 0;
        while attempt < LOOP
            invariant
                attempt <= LOOP,
            decreases LOOP - attempt,
        {
            let observed: usize = match self.state.compare_exchange(
                IDLE,
                REGISTER,
                Ordering::Acquire,
                Ordering::Acquire,
            ) {
                Ok(previous) => previous,
                Err(previous) => previous,
            };
            if enters(observed) {
                let stored = match try_write(&self.waker) {
                    Some(mut guard) => {
                        put(&mut guard, waker.clone());
                        true
                    },
                    None => false,
                };
                let released: usize = self.state.swap(IDLE, Ordering::AcqRel);
                if redelivers(stored, released) {
                    waker.wake_by_ref();
                }
                return ;
            }
            core::hint::spin_loop();
            attempt = attempt + 1;
        }
        waker.wake_by_ref();
    }

    /// Notifies the continuation that the cell holds, which stays
    /// registered. While a registration is in flight the notification is
    /// left flagged, and the registration delivers it. Of several
    /// notifications at a time each wakes the continuation, and the first
    /// one removes the flag.
    pub fn wake_by_ref(&self) {
        let observed: usize = self.state.fetch_or(WAKE_BY_REF, Ordering::AcqRel);
        if delivers(observed) {
            self.wake_held();
            if clears(observed) {
                let _previous: usize = self.state.fetch_and(!WAKE_BY_REF, Ordering::Release);
            }
        }
    }

    /// Whether the cell holds a continuation that resumes the task of
    /// `waker`.
    fn holds(&self, waker: &Waker) -> bool {
        match try_read(&self.waker) {
            Some(guard) => match held(&guard) {
                Some(existing) => waker.will_wake(existing),
                None => false,
            },
            None => false,
        }
    }

    /// Wakes the continuation that the cell holds, if any.
    fn wake_held(&self) {
        match try_read(&self.waker) {
            Some(guard) => match held(&guard) {
                Some(existing) => {
                    existing.wake_by_ref();
                },
                None => {},
            },
            None => {},
        }
    }
}

} // verus!
