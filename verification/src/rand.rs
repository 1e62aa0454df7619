//! A small, fast random number generator, used to pick the offset at which
//! a selection starts to visit its branches.

use vstd::prelude::*;
use std::hash::{BuildHasher, Hasher, RandomState};
use std::collections::hash_map::DefaultHasher;

verus! {

/// The first state word after one step from the state (`one`, `two`).
pub open spec fn next_one(one: u32, two: u32) -> u32 {
    two
}

/// The second state word after one step from the state (`one`, `two`).
pub open spec fn next_two(one: u32, two: u32) -> u32 {
    let mixed: u32 = one ^ (one << 17);
    mixed ^ two ^ (mixed >> 7) ^ (two >> 16)
}

/// The number that one step from the state (`one`, `two`) puts out: the sum
/// of the two new state words, wrapped to 32 bits.
pub open spec fn output(one: u32, two: u32) -> u32 {
    ((next_one(one, two) + next_two(one, two)) % 0x1_0000_0000) as u32
}

/// The number below `n` that `value` is scaled down to: `value * n`
/// divided by 2^32.
pub open spec fn scaled(value: u32, n: u32) -> u32 {
    ((value as int * n as int) / 0x1_0000_0000) as u32
}

/// A xorshift generator with two 32-bit state words.
pub struct FastRand {
    one: u32,
    two: u32,
}

impl FastRand {
    /// The state of the generator.
    pub closed spec fn words(&self) -> (u32, u32) {
        (self.one, self.two)
    }

    /// A generator whose state is made of the two halves of `seed`, the
    /// upper half first; a lower half of zero is replaced by one.
    pub fn new(seed: u64) -> (r: FastRand)
        ensures
            r.words().0 == seed / 0x1_0000_0000,
            r.words().1 == if seed % 0x1_0000_0000 == 0 {
                1
            } else {
                seed % 0x1_0000_0000
            },
    {
        let one: u32 = #[verifier::truncate] ((seed >> 32) as u32);
        let mut two: u32 = #[verifier::truncate] ((seed & 0xffff_ffff) as u32);
        assert(one == seed / 0x1_0000_0000 && two == seed % 0x1_0000_0000) by (bit_vector)
            requires
                one == (seed >> 32) as u32,
                two == (seed & 0xffff_ffff) as u32,
        ;
        if two == 0 {
            two = 1;
        }
        FastRand { one, two }
    }

    /// The next number scaled down to the range below `n`; zero when `n` is
    /// zero.
    pub fn fastrand_n(&mut self, n: u32) -> (r: u32)
        ensures
            r == scaled(output(old(self).words().0, old(self).words().1), n),
            n > 0 ==> r < n,
            n == 0 ==> r == 0,
            final(self).words() == (
                next_one(old(self).words().0, old(self).words().1),
                next_two(old(self).words().0, old(self).words().1),
            ),
    {
        let value: u32 = self.fastrand();
        assert(value as int * n as int <= 0xffff_ffff * 0xffff_ffff) by (nonlinear_arith)
            requires
                0 <= value <= 0xffff_ffff,
                0 <= n <= 0xffff_ffff,
        ;
        let product: u64 = (value as u64) * (n as u64);
        let r: u32 = #[verifier::truncate] ((product >> 32) as u32);
        assert(r == (value as int * n as int) / 0x1_0000_0000 && (n > 0 ==> r < n) && (n == 0
            ==> r == 0)) by (bit_vector)
            requires
                product == (value as u64) * (n as u64),
                r == (product >> 32) as u32,
        ;
        r
    }

    /// The next number; the state moves one step on.
    pub fn fastrand(&mut self) -> (r: u32)
        ensures
            r == output(old(self).words().0, old(self).words().1),
            final(self).words() == (
                next_one(old(self).words().0, old(self).words().1),
                next_two(old(self).words().0, old(self).words().1),
            ),
    {
        let mut s1: u32 = self.one;
        let s0: u32 = self.two;
        s1 = s1 ^ (s1 << 17);
        s1 = s1 ^ s0 ^ (s1 >> 7) ^ (s0 >> 16);
        self.one = s0;
        self.two = s1;
        s0.wrapping_add(s1)
    }
}

/// `RandomState::new`: a hasher factory with keys that differ from one
/// factory to the next, and from one run of the program to the next.
#[verifier::external_body]
fn random_state() -> RandomState {
    RandomState::new()
}

/// `BuildHasher::build_hasher` of `RandomState`: a hasher with the keys of
/// the factory.
#[verifier::external_body]
fn build_hasher(state: &RandomState) -> DefaultHasher {
    state.build_hasher()
}

/// A seed that differs from call to call.
pub fn seed() -> u64 {
    let state = random_state();
    let hasher = build_hasher(&state);
    hasher.finish()
}

/// A number below `n` from a generator that is seeded anew; zero when `n`
/// is zero. It is the first number that the generator puts out for its
/// seed, scaled down to the range below `n`.
pub fn thread_rng_n(n: u32) -> (r: u32)
    ensures
        n > 0 ==> r < n,
        n == 0 ==> r == 0,
        exists|seed: u64| r == #[trigger] first_below(seed, n),
{
    let seed = seed();
    let mut rng = FastRand::new(seed);
    let r = rng.fastrand_n(n);
    assert(r == first_below(seed, n));
    r
}

/// The state that a generator starts with for `seed`: the upper half of the
/// seed, and its lower half, or one if that half is zero.
pub open spec fn seeded(seed: u64) -> (u32, u32) {
    (
        (seed / 0x1_0000_0000) as u32,
        if seed % 0x1_0000_0000 == 0 {
            1u32
        } else {
            (seed % 0x1_0000_0000) as u32
        },
    )
}

/// The first number that a generator seeded with `seed` puts out, scaled
/// down to the range below `n`.
pub open spec fn first_below(seed: u64, n: u32) -> u32 {
    scaled(output(seeded(seed).0, seeded(seed).1), n)
}

} // verus!
