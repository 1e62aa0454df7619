//! The shared form of an interest set: the board on which woken branches
//! publish their index, from any thread.

use vstd::prelude::*;
use core::sync::atomic::{AtomicU64, Ordering};

verus! {

/// The value of one 64-bit half in the upper position of a 128-bit word.
pub const HALF: u128 = 0x1_0000_0000_0000_0000;

/// The 128-bit word whose lower half is `low` and whose upper half is `high`.
pub fn join(low: u64, high: u64) -> (r: u128)
    ensures
        r == low + high * HALF,
{
    let r: u128 = (low as u128) | ((high as u128) << 64);
    assert(r == low + high * 0x1_0000_0000_0000_0000) by (bit_vector)
        requires
            r == (low as u128) | ((high as u128) << 64),
    ;
    r
}

/// The lower and the upper half of a 128-bit word.
pub fn split(bits: u128) -> (r: (u64, u64))
    ensures
        r.0 == bits % HALF,
        r.1 == bits / HALF,
{
    let low: u64 = (bits & 0xffff_ffff_ffff_ffff) as u64;
    let high: u64 = (bits >> 64) as u64;
    assert(low == bits % 0x1_0000_0000_0000_0000 && high == bits / 0x1_0000_0000_0000_0000)
        by (bit_vector)
        requires
            low == (bits & 0xffff_ffff_ffff_ffff) as u64,
            high == (bits >> 64) as u64,
    ;
    (low, high)
}

/// An interest set that any number of threads may add to while one thread
/// takes what has gathered. It has room for 128 branches. What it holds at
/// any moment depends on every thread that can reach it, so nothing is
/// stated of what an access finds.
pub struct SharedSet {
    low: AtomicU64,
    high: AtomicU64,
}

impl SharedSet {
    /// A set without any member.
    pub fn empty() -> Self {
        Self { low: AtomicU64::new(0), high: AtomicU64::new(0) }
    }

    /// Adds `index` to the set. An index that no branch can have, 128 or
    /// more, is left out.
    pub fn set(&self, index: u32) {
        if index < 64 {
            let _previous: u64 = self.low.fetch_or(1u64 << index, Ordering::AcqRel);
        } else if index < 128 {
            let _previous: u64 = self.high.fetch_or(1u64 << (index - 64), Ordering::AcqRel);
        }
    }

    /// Takes every member out of the set and returns them as the bits of a
    /// word. A member added while this runs is either among them or stays
    /// for the next call.
    pub fn take(&self) -> u128 {
        let low: u64 = self.low.swap(0, Ordering::AcqRel);
        let high: u64 = self.high.swap(0, Ordering::AcqRel);
        join(low, high)
    }

    /// Adds the members given as the bits of `bits`.
    pub fn merge(&self, bits: u128) {
        let (low, high) = split(bits);
        if low != 0 {
            let _previous: u64 = self.low.fetch_or(low, Ordering::AcqRel);
        }
        if high != 0 {
            let _previous: u64 = self.high.fetch_or(high, Ordering::AcqRel);
        }
    }

    /// Replaces the members by those given as the bits of `bits`.
    pub fn reset(&self, bits: u128) {
        let (low, high) = split(bits);
        self.low.store(low, Ordering::Release);
        self.high.store(high, Ordering::Release);
    }
}

} // verus!
