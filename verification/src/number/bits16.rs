//! `u16` as a set of 16 branch indices.

use vstd::prelude::*;
use crate::number::{rotated, wide_bit, wide_members, Number};
use vstd::std_specs::bits::axiom_u16_trailing_zeros;

verus! {

/// Whether bit `index` of `x` is set.
pub open spec fn bit(x: u16, index: nat) -> bool {
    index < 16 && (x >> (index as u16)) & 1 == 1
}

/// How single bits behave under the word operations used here.
proof fn lemma_bitwise(x: u16, y: u16, b: u16, i: u16)
    by (bit_vector)
    requires
        i < 16,
    ensures
        (0u16 >> i) & 1 == 0,
        b < 16 ==> (((1u16 << b) >> i) & 1 == 1 <==> i == b),
        b < 16 ==> (((x & !(1u16 << b)) >> i) & 1 == 1 <==> ((x >> i) & 1 == 1 && i != b)),
        ((x & y) >> i) & 1 == 1 <==> ((x >> i) & 1 == 1 && (y >> i) & 1 == 1),
        ((x | y) >> i) & 1 == 1 <==> ((x >> i) & 1 == 1 || (y >> i) & 1 == 1),
{
}

/// `x` rotated right by `n`, for `n` between 1 and 16 - 1.
pub open spec fn turned_right(x: u16, n: u16) -> u16 {
    (x >> n) | (x << ((16 - n) as u16))
}

/// `x` rotated left by `n`, for `n` between 1 and 16 - 1.
pub open spec fn turned_left(x: u16, n: u16) -> u16 {
    (x << n) | (x >> ((16 - n) as u16))
}

/// The index `i + n`, wrapped around at the width.
pub open spec fn wrapped(i: u16, n: u16) -> u16 {
    if i + n < 16 {
        (i + n) as u16
    } else {
        (i + n - 16) as u16
    }
}

/// A rotation by `n` moves bit `i` to the wrapped index `i + n`, or from
/// there, according to its direction.
proof fn lemma_rotate(x: u16, n: u16, i: u16)
    by (bit_vector)
    requires
        0 < n < 16,
        i < 16,
    ensures
        (turned_right(x, n) >> i) & 1 == 1 <==> (x >> wrapped(i, n)) & 1 == 1,
        (turned_left(x, n) >> wrapped(i, n)) & 1 == 1 <==> (x >> i) & 1 == 1,
{
}

/// Widening keeps every bit in place; narrowing keeps the low bits.
proof fn lemma_wide(x: u16, w: u128, i: u128)
    by (bit_vector)
    requires
        i < 128,
    ensures
        i < 16 ==> (((x as u128) >> i) & 1 == 1 <==> (x >> (i as u16)) & 1 == 1),
        i >= 16 ==> ((x as u128) >> i) & 1 == 0,
        i < 16 ==> ((((w & 0xffff) as u16) >> (i as u16)) & 1 == 1 <==> (w >> i) & 1 == 1),
{
}

impl Number for u16 {
    open spec fn width() -> nat {
        16
    }

    open spec fn members(self) -> Set<nat> {
        Set::new(|i: nat| bit(self, i))
    }

    proof fn lemma_width() {
    }

    proof fn lemma_members_bounded(self, index: nat) {
    }

    fn bits() -> (r: u32) {
        16
    }

    fn zero() -> (r: Self) {
        proof {
            assert forall|i: nat| !#[trigger] bit(0u16, i) by {
                if i < 16 {
                    lemma_bitwise(0, 0, 0, i as u16);
                }
            }
            assert(0u16.members() =~= Set::<nat>::empty());
        }
        0
    }

    fn from_bit(bit: u32) -> (r: Self) {
        if bit < 16 {
            let r: u16 = 1u16 << bit;
            proof {
                assert forall|i: nat| #[trigger] self::bit(r, i) <==> i == bit by {
                    if i < 16 {
                        lemma_bitwise(0, 0, bit as u16, i as u16);
                    }
                }
                assert(r.members() =~= Set::<nat>::empty().insert(bit as nat));
            }
            r
        } else {
            Self::zero()
        }
    }

    fn trailing_zeros(self) -> (r: u32) {
        let r = u16::trailing_zeros(self);
        proof {
            axiom_u16_trailing_zeros(self);
            if r == 16 {
                assert forall|i: nat| !#[trigger] bit(self, i) by {
                    if i < 16 {
                        lemma_bitwise(0, 0, 0, i as u16);
                    }
                }
                assert(self.members() =~= Set::<nat>::empty());
            } else {
                assert(bit(self, r as nat));
                assert(self.members().contains(r as nat));
            }
            assert forall|i: nat| self.members().contains(i) implies r <= i by {
                if i < r {
                    assert((self >> (i as u16)) & 1 == 0);
                }
            }
        }
        r
    }

    fn is_zero(self) -> (r: bool) {
        proof {
            axiom_u16_trailing_zeros(self);
            if self == 0 {
                assert forall|i: nat| !#[trigger] bit(self, i) by {
                    if i < 16 {
                        lemma_bitwise(0, 0, 0, i as u16);
                    }
                }
                assert(self.members() =~= Set::<nat>::empty());
            } else {
                assert(bit(self, u16::trailing_zeros(self) as nat));
                assert(self.members().contains(u16::trailing_zeros(self) as nat));
            }
        }
        self == 0
    }

    fn unset(&mut self, index: u32) {
        if index < 16 {
            let before: u16 = *self;
            *self = before & !(1u16 << index);
            proof {
                let after = *self;
                assert forall|i: nat| #[trigger] bit(after, i) <==> (bit(before, i) && i != index) by {
                    if i < 16 {
                        lemma_bitwise(before, 0, index as u16, i as u16);
                    }
                }
                assert(after.members() =~= before.members().remove(index as nat));
            }
        } else {
            proof {
                assert(self.members() =~= self.members().remove(index as nat));
            }
        }
    }

    fn rotate_left(self, bits: u32) -> (r: Self) {
        let n: u32 = bits % 16;
        if n == 0 {
            proof {
                assert forall|i: nat| i < 16 implies rotated(i, bits as nat, 16) == i by {
                    assert((i + bits as nat) % 16 == i) by (nonlinear_arith)
                        requires
                            i < 16,
                            bits as nat % 16 == 0,
                    ;
                }
            }
            self
        } else {
            let r: u16 = (self << n) | (self >> (16 - n));
            proof {
                assert(r == turned_left(self, n as u16));
                assert forall|i: nat| i < 16 implies (r.members().contains(
                    rotated(i, bits as nat, 16),
                ) <==> self.members().contains(i)) by {
                    lemma_same_rotation(i, bits as nat);
                    lemma_rotate(self, n as u16, i as u16);
                    assert(rotated(i, bits as nat, 16) == wrapped(i as u16, n as u16));
                }
            }
            r
        }
    }

    fn rotate_right(self, bits: u32) -> (r: Self) {
        let n: u32 = bits % 16;
        if n == 0 {
            proof {
                assert forall|i: nat| i < 16 implies rotated(i, bits as nat, 16) == i by {
                    assert((i + bits as nat) % 16 == i) by (nonlinear_arith)
                        requires
                            i < 16,
                            bits as nat % 16 == 0,
                    ;
                }
            }
            self
        } else {
            let r: u16 = (self >> n) | (self << (16 - n));
            proof {
                assert(r == turned_right(self, n as u16));
                assert forall|i: nat| i < 16 implies (r.members().contains(i)
                    <==> self.members().contains(rotated(i, bits as nat, 16))) by {
                    lemma_same_rotation(i, bits as nat);
                    lemma_rotate(self, n as u16, i as u16);
                    assert(rotated(i, bits as nat, 16) == wrapped(i as u16, n as u16));
                }
            }
            r
        }
    }

    fn intersect(self, other: Self) -> (r: Self) {
        let r: u16 = self & other;
        proof {
            assert forall|i: nat| #[trigger] bit(r, i) <==> (bit(self, i) && bit(other, i)) by {
                if i < 16 {
                    lemma_bitwise(self, other, 0, i as u16);
                }
            }
            assert(r.members() =~= self.members().intersect(other.members()));
        }
        r
    }

    fn union(self, other: Self) -> (r: Self) {
        let r: u16 = self | other;
        proof {
            assert forall|i: nat| #[trigger] bit(r, i) <==> (bit(self, i) || bit(other, i)) by {
                if i < 16 {
                    lemma_bitwise(self, other, 0, i as u16);
                }
            }
            assert(r.members() =~= self.members().union(other.members()));
        }
        r
    }

    fn from_wide(bits: u128) -> (r: Self) {
        let r: u16 = (bits & 0xffff) as u16;
        proof {
            assert forall|i: nat| #[trigger] bit(r, i) <==> (wide_bit(bits, i) && i < 16) by {
                if i < 16 {
                    lemma_wide(0, bits, i as u128);
                }
            }
            assert(r.members() =~= wide_members(bits).filter(|i: nat| i < 16));
        }
        r
    }

    fn to_wide(self) -> (r: u128) {
        let r: u128 = self as u128;
        proof {
            assert forall|i: nat| #[trigger] wide_bit(r, i) <==> bit(self, i) by {
                if i < 128 {
                    lemma_wide(self, 0, i as u128);
                }
            }
            assert(wide_members(r) =~= self.members());
        }
        r
    }
}

/// Rotating by `by` and by `by` modulo the width lead to the same index.
proof fn lemma_same_rotation(i: nat, by: nat)
    requires
        i < 16,
    ensures
        rotated(i, by, 16) == (i + by % 16) % 16,
        rotated(i, by, 16) < 16,
{
    vstd::arithmetic::div_mod::lemma_add_mod_noop_right(i as int, by as int, 16);
}

} // verus!
