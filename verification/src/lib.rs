//! A fair multi-way selection primitive: wait for the first of several
//! concurrent operations to complete.
//!
//! A selection has up to 128 branches. Each branch has a bit in the mask of
//! the selection; its waker reports in a shared interest set that the branch
//! can make progress, and notifies the task that selects. A poll of the
//! selection takes what has gathered in the interest set, visits the ready
//! branches in the order of a bias, and stops at the first branch that
//! completes with a result.

use vstd::prelude::*;
use core::task::{Context, Poll};

pub mod atomic_waker;
pub mod bias;
pub mod entry;
pub mod interest;
pub mod number;
pub mod order;
pub mod poller;
pub mod poller_waker;
pub mod protocol;
pub mod rand;
pub mod select;
pub mod set;
pub mod static_waker;
pub mod task;
pub mod width;

pub use crate::atomic_waker::AtomicWaker;
pub use crate::bias::{Bias, Random, RandomIter, Unbiased};
pub use crate::interest::SharedSet;
pub use crate::number::Number;
pub use crate::poller::{Poller, DISABLED};
pub use crate::poller_waker::PollerWaker;
pub use crate::select::{settle, Select};
pub use crate::set::{Indices, Iter, Snapshot};
pub use crate::static_waker::StaticWaker;
pub use crate::width::{initial_mask, mask_type, MaskType, TooManyBranches, BRANCH_LIMIT};

verus! {

/// A bias that starts its visit at a random one of the first 64 branches:
/// at the first number that a generator seeded anew puts out, scaled down
/// to the range below 64.
pub fn random() -> (r: Random)
    ensures
        r.offset() < 64,
        exists|seed: u64| r.offset() == #[trigger] crate::rand::first_below(seed, 64),
{
    Random::new(crate::rand::thread_rng_n(64))
}

/// The bias that visits the ready branches from the lowest index up.
pub fn unbiased() -> Unbiased {
    Unbiased
}

/// A selection over the branches whose bits are set in `mask`, on the
/// operations `state`, with `poll` as the callback that polls a branch.
pub fn select<'a, Bits, S, B, T, O>(
    waker: &'a StaticWaker,
    mask: Bits,
    bias: B,
    state: S,
    poll: T,
) -> (r: Select<'a, Bits, S, B, T>) where
    Bits: Number,
    B: Bias<Bits>,
    T: FnMut(&mut Context<'_>, &mut S, &mut Snapshot<Bits>, u32) -> Poll<O>,

    ensures
        r.enabled() == mask.members(),
        r.ready() == mask.members(),
        r.callback() == poll,
        r.bias() == bias,
        r.operations() == state,
        r.shared() == waker,
{
    Select::new(waker, Snapshot::new(mask), bias, state, poll)
}

} // verus!
