//! `u128` as a set of 128 branch indices.

use vstd::prelude::*;
use crate::number::{rotated, wide_members, Number};
use vstd::std_specs::bits::axiom_u64_trailing_zeros;

verus! {

/// Whether bit `index` of `x` is set.
pub open spec fn bit(x: u128, index: nat) -> bool {
    index < 128 && (x >> (index as u128)) & 1 == 1
}

/// How single bits behave under the word operations used here.
proof fn lemma_bitwise(x: u128, y: u128, b: u128, i: u128)
    by (bit_vector)
    requires
        i < 128,
    ensures
        (0u128 >> i) & 1 == 0,
        b < 128 ==> (((1u128 << b) >> i) & 1 == 1 <==> i == b),
        b < 128 ==> (((x & !(1u128 << b)) >> i) & 1 == 1 <==> ((x >> i) & 1 == 1 && i != b)),
        ((x & y) >> i) & 1 == 1 <==> ((x >> i) & 1 == 1 && (y >> i) & 1 == 1),
        ((x | y) >> i) & 1 == 1 <==> ((x >> i) & 1 == 1 || (y >> i) & 1 == 1),
{
}

/// Bit `i` of a shifted word is the bit that the shift moved there, if any.
proof fn lemma_shift(x: u128, n: u128, i: u128)
    by (bit_vector)
    requires
        n < 128,
        i < 128,
    ensures
        ((x >> n) >> i) & 1 == 1 <==> (i + n < 128 && (x >> ((i + n) as u128)) & 1 == 1),
        ((x << n) >> i) & 1 == 1 <==> (i >= n && (x >> ((i - n) as u128)) & 1 == 1),
{
}

/// `x` rotated right by `n`, for `n` between 1 and 127.
pub open spec fn turned_right(x: u128, n: u128) -> u128 {
    (x >> n) | (x << ((128 - n) as u128))
}

/// `x` rotated left by `n`, for `n` between 1 and 127.
pub open spec fn turned_left(x: u128, n: u128) -> u128 {
    (x << n) | (x >> ((128 - n) as u128))
}

/// The index `i + n`, wrapped around at the width.
pub open spec fn wrapped(i: u128, n: u128) -> u128 {
    if i + n < 128 {
        (i + n) as u128
    } else {
        (i + n - 128) as u128
    }
}

/// A rotation by `n` moves bit `i` to the wrapped index `i + n`, or from
/// there, according to its direction.
proof fn lemma_rotate(x: u128, n: u128, i: u128)
    requires
        0 < n < 128,
        i < 128,
    ensures
        (turned_right(x, n) >> i) & 1 == 1 <==> (x >> wrapped(i, n)) & 1 == 1,
        (turned_left(x, n) >> wrapped(i, n)) & 1 == 1 <==> (x >> i) & 1 == 1,
{
    let m: u128 = (128 - n) as u128;
    let j: u128 = wrapped(i, n);
    lemma_bitwise(x >> n, x << m, 0, i);
    lemma_shift(x, n, i);
    lemma_shift(x, m, i);
    lemma_bitwise(x << n, x >> m, 0, j);
    lemma_shift(x, n, j);
    lemma_shift(x, m, j);
}

/// The two 64-bit halves of a word hold its bits in place.
proof fn lemma_halves(x: u128, i: u128)
    by (bit_vector)
    requires
        i < 128,
    ensures
        i < 64 ==> ((((x & 0xffff_ffff_ffff_ffff) as u64) >> (i as u64)) & 1 == 1 <==> (x >> i) & 1 == 1),
        i >= 64 ==> ((((x >> 64) as u64) >> ((i - 64) as u64)) & 1 == 1 <==> (x >> i) & 1 == 1),
        (x & 0xffff_ffff_ffff_ffff) as u64 == 0 && (x >> 64) as u64 == 0 ==> x == 0,
{
}

impl Number for u128 {
    open spec fn width() -> nat {
        128
    }

    open spec fn members(self) -> Set<nat> {
        Set::new(|i: nat| bit(self, i))
    }

    proof fn lemma_width() {
    }

    proof fn lemma_members_bounded(self, index: nat) {
    }

    fn bits() -> (r: u32) {
        128
    }

    fn zero() -> (r: Self) {
        proof {
            assert forall|i: nat| !#[trigger] bit(0u128, i) by {
                if i < 128 {
                    lemma_bitwise(0, 0, 0, i as u128);
                }
            }
            assert(0u128.members() =~= Set::<nat>::empty());
        }
        0
    }

    fn from_bit(bit: u32) -> (r: Self) {
        if bit < 128 {
            let r: u128 = 1u128 << bit;
            proof {
                assert forall|i: nat| #[trigger] self::bit(r, i) <==> i == bit by {
                    if i < 128 {
                        lemma_bitwise(0, 0, bit as u128, i as u128);
                    }
                }
                assert(r.members() =~= Set::<nat>::empty().insert(bit as nat));
            }
            r
        } else {
            Self::zero()
        }
    }

    fn trailing_zeros(self) -> (r: u32) {
        let low: u64 = (self & 0xffff_ffff_ffff_ffff) as u64;
        if low != 0 {
            let r = low.trailing_zeros();
            proof {
                axiom_u64_trailing_zeros(low);
                lemma_halves(self, r as u128);
                assert(bit(self, r as nat));
                assert(self.members().contains(r as nat));
                assert forall|i: nat| self.members().contains(i) implies r <= i by {
                    if i < r {
                        lemma_halves(self, i as u128);
                        assert((low >> (i as u64)) & 1 == 0);
                    }
                }
            }
            r
        } else {
            let high: u64 = (self >> 64) as u64;
            let t = high.trailing_zeros();
            let r = 64 + t;
            proof {
                axiom_u64_trailing_zeros(high);
                axiom_u64_trailing_zeros(low);
                if t == 64 {
                    lemma_halves(self, 0);
                    assert forall|i: nat| !#[trigger] bit(self, i) by {
                        if i < 128 {
                            lemma_bitwise(0, 0, 0, i as u128);
                        }
                    }
                    assert(self.members() =~= Set::<nat>::empty());
                } else {
                    lemma_halves(self, r as u128);
                    assert(bit(self, r as nat));
                    assert(self.members().contains(r as nat));
                }
                assert forall|i: nat| self.members().contains(i) implies r <= i by {
                    if i < r {
                        lemma_halves(self, i as u128);
                        if i < 64 {
                            assert((low >> (i as u64)) & 1 == 0);
                        } else {
                            assert((high >> ((i - 64) as u64)) & 1 == 0);
                        }
                    }
                }
            }
            r
        }
    }

    fn is_zero(self) -> (r: bool) {
        if self == 0 {
            proof {
                assert forall|i: nat| !#[trigger] bit(self, i) by {
                    if i < 128 {
                        lemma_bitwise(0, 0, 0, i as u128);
                    }
                }
                assert(self.members() =~= Set::<nat>::empty());
            }
            true
        } else {
            proof {
                let low = (self & 0xffff_ffff_ffff_ffff) as u64;
                let high = (self >> 64) as u64;
                lemma_halves(self, 0);
                axiom_u64_trailing_zeros(low);
                axiom_u64_trailing_zeros(high);
                let lowest: nat = if low != 0 {
                    u64::trailing_zeros(low) as nat
                } else {
                    (64 + u64::trailing_zeros(high)) as nat
                };
                lemma_halves(self, lowest as u128);
                assert(bit(self, lowest));
                assert(self.members().contains(lowest));
            }
            false
        }
    }

    fn unset(&mut self, index: u32) {
        if index < 128 {
            let before: u128 = *self;
            *self = before & !(1u128 << index);
            proof {
                let after = *self;
                assert forall|i: nat| #[trigger] bit(after, i) <==> (bit(before, i) && i != index) by {
                    if i < 128 {
                        lemma_bitwise(before, 0, index as u128, i as u128);
                    }
                }
                assert(after.members() =~= before.members().remove(index as nat));
            }
        } else {
            proof {
                assert(self.members() =~= self.members().remove(index as nat));
            }
        }
    }

    fn rotate_left(self, bits: u32) -> (r: Self) {
        let n: u32 = bits % 128;
        if n == 0 {
            proof {
                assert forall|i: nat| i < 128 implies rotated(i, bits as nat, 128) == i by {
                    assert((i + bits as nat) % 128 == i) by (nonlinear_arith)
                        requires
                            i < 128,
                            bits as nat % 128 == 0,
                    ;
                }
            }
            self
        } else {
            let r: u128 = (self << n) | (self >> (128 - n));
            proof {
                assert(r == turned_left(self, n as u128));
                assert forall|i: nat| i < 128 implies (r.members().contains(
                    rotated(i, bits as nat, 128),
                ) <==> self.members().contains(i)) by {
                    lemma_same_rotation(i, bits as nat);
                    lemma_rotate(self, n as u128, i as u128);
                    assert(rotated(i, bits as nat, 128) == wrapped(i as u128, n as u128));
                }
            }
            r
        }
    }

    fn rotate_right(self, bits: u32) -> (r: Self) {
        let n: u32 = bits % 128;
        if n == 0 {
            proof {
                assert forall|i: nat| i < 128 implies rotated(i, bits as nat, 128) == i by {
                    assert((i + bits as nat) % 128 == i) by (nonlinear_arith)
                        requires
                            i < 128,
                            bits as nat % 128 == 0,
                    ;
                }
            }
            self
        } else {
            let r: u128 = (self >> n) | (self << (128 - n));
            proof {
                assert(r == turned_right(self, n as u128));
                assert forall|i: nat| i < 128 implies (r.members().contains(i)
                    <==> self.members().contains(rotated(i, bits as nat, 128))) by {
                    lemma_same_rotation(i, bits as nat);
                    lemma_rotate(self, n as u128, i as u128);
                    assert(rotated(i, bits as nat, 128) == wrapped(i as u128, n as u128));
                }
            }
            r
        }
    }

    fn intersect(self, other: Self) -> (r: Self) {
        let r: u128 = self & other;
        proof {
            assert forall|i: nat| #[trigger] bit(r, i) <==> (bit(self, i) && bit(other, i)) by {
                if i < 128 {
                    lemma_bitwise(self, other, 0, i as u128);
                }
            }
            assert(r.members() =~= self.members().intersect(other.members()));
        }
        r
    }

    fn union(self, other: Self) -> (r: Self) {
        let r: u128 = self | other;
        proof {
            assert forall|i: nat| #[trigger] bit(r, i) <==> (bit(self, i) || bit(other, i)) by {
                if i < 128 {
                    lemma_bitwise(self, other, 0, i as u128);
                }
            }
            assert(r.members() =~= self.members().union(other.members()));
        }
        r
    }

    fn from_wide(bits: u128) -> (r: Self) {
        proof {
            assert(bits.members() =~= wide_members(bits).filter(|i: nat| i < 128));
        }
        bits
    }

    fn to_wide(self) -> (r: u128) {
        proof {
            assert(wide_members(self) =~= self.members());
        }
        self
    }
}

/// Rotating by `by` and by `by` modulo the width lead to the same index.
proof fn lemma_same_rotation(i: nat, by: nat)
    requires
        i < 128,
    ensures
        rotated(i, by, 128) == (i + by % 128) % 128,
        rotated(i, by, 128) < 128,
{
    vstd::arithmetic::div_mod::lemma_add_mod_noop_right(i as int, by as int, 128);
}

} // verus!
