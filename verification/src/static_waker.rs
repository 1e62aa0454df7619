//! What a selection shares with the wakers of its branches.

use vstd::prelude::*;
use crate::atomic_waker::AtomicWaker;
use crate::interest::SharedSet;

verus! {

/// The waker cell of the task that selects, together with the interest set
/// in which its branches report that they are ready.
pub struct StaticWaker {
    /// The cell that holds the continuation of the task that selects.
    pub(crate) parent: AtomicWaker,
    /// The branches that have been woken since the set was last taken.
    pub(crate) set: SharedSet,
}

impl StaticWaker {
    /// A waker without a continuation and with no branch reported.
    pub fn new() -> Self {
        Self { parent: AtomicWaker::new(), set: SharedSet::empty() }
    }

    /// Replaces the branches reported by those given as the bits of
    /// `snapshot`.
    pub fn reset(&self, snapshot: u128) {
        self.set.reset(snapshot);
    }

    /// The cell that holds the continuation of the task that selects.
    pub fn parent(&self) -> (r: &AtomicWaker)
        ensures
            r == self.cell(),
    {
        &self.parent
    }

    /// The interest set of the selection.
    pub fn set(&self) -> (r: &SharedSet)
        ensures
            r == self.interest(),
    {
        &self.set
    }

    /// The waker cell that is part of this waker.
    pub closed spec fn cell(&self) -> &AtomicWaker {
        &self.parent
    }

    /// The interest set that is part of this waker.
    pub closed spec fn interest(&self) -> &SharedSet {
        &self.set
    }
}

} // verus!
