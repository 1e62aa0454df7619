//! The notification handle of one branch.

use vstd::prelude::*;
use crate::static_waker::StaticWaker;

verus! {

/// The handle through which branch `index` reports that it can make
/// progress: a reference to what the selection shares, and the index.
/// Nothing is owned by it, so that copying and dropping it cost nothing.
#[derive(Clone, Copy)]
pub struct PollerWaker<'a> {
    waker: &'a StaticWaker,
    index: u32,
}

impl<'a> PollerWaker<'a> {
    /// The index of the branch that the handle stands for.
    pub closed spec fn branch(&self) -> u32 {
        self.index
    }

    /// What the handle reports to: the waker that the selection shares.
    pub closed spec fn shared(&self) -> &StaticWaker {
        self.waker
    }

    /// The handle of branch `index` of the selection that shares `waker`.
    pub fn new(waker: &'a StaticWaker, index: u32) -> (r: Self)
        ensures
            r.branch() == index,
            r.shared() == waker,
    {
        Self { waker, index }
    }

    /// The index of the branch that the handle stands for.
    pub fn index(&self) -> (r: u32)
        ensures
            r == self.branch(),
    {
        self.index
    }

    /// Reports the branch as ready: adds its index to the interest set, then
    /// notifies the task that selects.
    pub fn wake_by_ref(&self) {
        self.waker.set.set(self.index);
        self.waker.parent.wake_by_ref();
    }

    /// Reports the branch as ready and gives the handle up.
    pub fn wake(self) {
        self.wake_by_ref();
    }
}

} // verus!
