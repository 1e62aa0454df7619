//! `u32` as a set of 32 branch indices.

use vstd::prelude::*;
use crate::number::{rotated, wide_bit, wide_members, Number};
use vstd::std_specs::bits::axiom_u32_trailing_zeros;

verus! {

/// Whether bit `index` of `x` is set.
pub open spec fn bit(x: u32, index: nat) -> bool {
    index < 32 && (x >> (index as u32)) & 1 == 1
}

/// How single bits behave under the word operations used here.
proof fn lemma_bitwise(x: u32, y: u32, b: u32, i: u32)
    by (bit_vector)
    requires
        i < 32,
    ensures
        (0u32 >> i) & 1 == 0,
        b < 32 ==> (((1u32 << b) >> i) & 1 == 1 <==> i == b),
        b < 32 ==> (((x & !(1u32 << b)) >> i) & 1 == 1 <==> ((x >> i) & 1 == 1 && i != b)),
        ((x & y) >> i) & 1 == 1 <==> ((x >> i) & 1 == 1 && (y >> i) & 1 == 1),
        ((x | y) >> i) & 1 == 1 <==> ((x >> i) & 1 == 1 || (y >> i) & 1 == 1),
{
}

/// `x` rotated right by `n`, for `n` between 1 and 32 - 1.
pub open spec fn turned_right(x: u32, n: u32) -> u32 {
    (x >> n) | (x << ((32 - n) as u32))
}

/// `x` rotated left by `n`, for `n` between 1 and 32 - 1.
pub open spec fn turned_left(x: u32, n: u32) -> u32 {
    (x << n) | (x >> ((32 - n) as u32))
}

/// The index `i + n`, wrapped around at the width.
pub open spec fn wrapped(i: u32, n: u32) -> u32 {
    if i + n < 32 {
        (i + n) as u32
    } else {
        (i + n - 32) as u32
    }
}

/// A rotation by `n` moves bit `i` to the wrapped index `i + n`, or from
/// there, according to its direction.
proof fn lemma_rotate(x: u32, n: u32, i: u32)
    by (bit_vector)
    requires
        0 < n < 32,
        i < 32,
    ensures
        (turned_right(x, n) >> i) & 1 == 1 <==> (x >> wrapped(i, n)) & 1 == 1,
        (turned_left(x, n) >> wrapped(i, n)) & 1 == 1 <==> (x >> i) & 1 == 1,
{
}

/// Widening keeps every bit in place; narrowing keeps the low bits.
proof fn lemma_wide(x: u32, w: u128, i: u128)
    by (bit_vector)
    requires
        i < 128,
    ensures
        i < 32 ==> (((x as u128) >> i) & 1 == 1 <==> (x >> (i as u32)) & 1 == 1),
        i >= 32 ==> ((x as u128) >> i) & 1 == 0,
        i < 32 ==> ((((w & 0xffff_ffff) as u32) >> (i as u32)) & 1 == 1 <==> (w >> i) & 1 == 1),
{
}

impl Number for u32 {
    open spec fn width() -> nat {
        32
    }

    open spec fn members(self) -> Set<nat> {
        Set::new(|i: nat| bit(self, i))
    }

    proof fn lemma_width() {
    }

    proof fn lemma_members_bounded(self, index: nat) {
    }

    fn bits() -> (r: u32) {
        32
    }

    fn zero() -> (r: Self) {
        proof {
            assert forall|i: nat| !#[trigger] bit(0u32, i) by {
                if i < 32 {
                    lemma_bitwise(0, 0, 0, i as u32);
                }
            }
            assert(0u32.members() =~= Set::<nat>::empty());
        }
        0
    }

    fn from_bit(bit: u32) -> (r: Self) {
        if bit < 32 {
            let r: u32 = 1u32 << bit;
            proof {
                assert forall|i: nat| #[trigger] self::bit(r, i) <==> i == bit by {
                    if i < 32 {
                        lemma_bitwise(0, 0, bit as u32, i as u32);
                    }
                }
                assert(r.members() =~= Set::<nat>::empty().insert(bit as nat));
            }
            r
        } else {
            Self::zero()
        }
    }

    fn trailing_zeros(self) -> (r: u32) {
        let r = u32::trailing_zeros(self);
        proof {
            axiom_u32_trailing_zeros(self);
            if r == 32 {
                assert forall|i: nat| !#[trigger] bit(self, i) by {
                    if i < 32 {
                        lemma_bitwise(0, 0, 0, i as u32);
                    }
                }
                assert(self.members() =~= Set::<nat>::empty());
            } else {
                assert(bit(self, r as nat));
                assert(self.members().contains(r as nat));
            }
            assert forall|i: nat| self.members().contains(i) implies r <= i by {
                if i < r {
                    assert((self >> (i as u32)) & 1 == 0);
                }
            }
        }
        r
    }

    fn is_zero(self) -> (r: bool) {
        proof {
            axiom_u32_trailing_zeros(self);
            if self == 0 {
                assert forall|i: nat| !#[trigger] bit(self, i) by {
                    if i < 32 {
                        lemma_bitwise(0, 0, 0, i as u32);
                    }
                }
                assert(self.members() =~= Set::<nat>::empty());
            } else {
                assert(bit(self, u32::trailing_zeros(self) as nat));
                assert(self.members().contains(u32::trailing_zeros(self) as nat));
            }
        }
        self == 0
    }

    fn unset(&mut self, index: u32) {
        if index < 32 {
            let before: u32 = *self;
            *self = before & !(1u32 << index);
            proof {
                let after = *self;
                assert forall|i: nat| #[trigger] bit(after, i) <==> (bit(before, i) && i != index) by {
                    if i < 32 {
                        lemma_bitwise(before, 0, index as u32, i as u32);
                    }
                }
                assert(after.members() =~= before.members().remove(index as nat));
            }
        } else {
            proof {
                assert(self.members() =~= self.members().remove(index as nat));
            }
        }
    }

    fn rotate_left(self, bits: u32) -> (r: Self) {
        let n: u32 = bits % 32;
        if n == 0 {
            proof {
                assert forall|i: nat| i < 32 implies rotated(i, bits as nat, 32) == i by {
                    assert((i + bits as nat) % 32 == i) by (nonlinear_arith)
                        requires
                            i < 32,
                            bits as nat % 32 == 0,
                    ;
                }
            }
            self
        } else {
            let r: u32 = (self << n) | (self >> (32 - n));
            proof {
                assert(r == turned_left(self, n as u32));
                assert forall|i: nat| i < 32 implies (r.members().contains(
                    rotated(i, bits as nat, 32),
                ) <==> self.members().contains(i)) by {
                    lemma_same_rotation(i, bits as nat);
                    lemma_rotate(self, n as u32, i as u32);
                    assert(rotated(i, bits as nat, 32) == wrapped(i as u32, n as u32));
                }
            }
            r
        }
    }

    fn rotate_right(self, bits: u32) -> (r: Self) {
        let n: u32 = bits % 32;
        if n == 0 {
            proof {
                assert forall|i: nat| i < 32 implies rotated(i, bits as nat, 32) == i by {
                    assert((i + bits as nat) % 32 == i) by (nonlinear_arith)
                        requires
                            i < 32,
                            bits as nat % 32 == 0,
                    ;
                }
            }
            self
        } else {
            let r: u32 = (self >> n) | (self << (32 - n));
            proof {
                assert(r == turned_right(self, n as u32));
                assert forall|i: nat| i < 32 implies (r.members().contains(i)
                    <==> self.members().contains(rotated(i, bits as nat, 32))) by {
                    lemma_same_rotation(i, bits as nat);
                    lemma_rotate(self, n as u32, i as u32);
                    assert(rotated(i, bits as nat, 32) == wrapped(i as u32, n as u32));
                }
            }
            r
        }
    }

    fn intersect(self, other: Self) -> (r: Self) {
        let r: u32 = self & other;
        proof {
            assert forall|i: nat| #[trigger] bit(r, i) <==> (bit(self, i) && bit(other, i)) by {
                if i < 32 {
                    lemma_bitwise(self, other, 0, i as u32);
                }
            }
            assert(r.members() =~= self.members().intersect(other.members()));
        }
        r
    }

    fn union(self, other: Self) -> (r: Self) {
        let r: u32 = self | other;
        proof {
            assert forall|i: nat| #[trigger] bit(r, i) <==> (bit(self, i) || bit(other, i)) by {
                if i < 32 {
                    lemma_bitwise(self, other, 0, i as u32);
                }
            }
            assert(r.members() =~= self.members().union(other.members()));
        }
        r
    }

    fn from_wide(bits: u128) -> (r: Self) {
        let r: u32 = (bits & 0xffff_ffff) as u32;
        proof {
            assert forall|i: nat| #[trigger] bit(r, i) <==> (wide_bit(bits, i) && i < 32) by {
                if i < 32 {
                    lemma_wide(0, bits, i as u128);
                }
            }
            assert(r.members() =~= wide_members(bits).filter(|i: nat| i < 32));
        }
        r
    }

    fn to_wide(self) -> (r: u128) {
        let r: u128 = self as u128;
        proof {
            assert forall|i: nat| #[trigger] wide_bit(r, i) <==> bit(self, i) by {
                if i < 128 {
                    lemma_wide(self, 0, i as u128);
                }
            }
            assert(wide_members(r) =~= self.members());
        }
        r
    }
}

/// Rotating by `by` and by `by` modulo the width lead to the same index.
proof fn lemma_same_rotation(i: nat, by: nat)
    requires
        i < 32,
    ensures
        rotated(i, by, 32) == (i + by % 32) % 32,
        rotated(i, by, 32) < 32,
{
    vstd::arithmetic::div_mod::lemma_add_mod_noop_right(i as int, by as int, 32);
}

} // verus!
