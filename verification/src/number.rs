//! Fixed-width unsigned integers seen as sets of bit indices.

use vstd::prelude::*;

pub mod bits128;
pub mod bits16;
pub mod bits32;
pub mod bits64;
pub mod bits8;

verus! {

/// The index that bit `index` moves to when a word of `width` bits is rotated
/// left by `by` positions.
pub open spec fn rotated(index: nat, by: nat, width: nat) -> nat {
    (index + by) % width
}

/// Whether bit `index` of a 128-bit word is set.
pub open spec fn wide_bit(bits: u128, index: nat) -> bool {
    index < 128 && (bits >> (index as u128)) & 1 == 1
}

/// The bit indices that are set in a 128-bit word.
pub open spec fn wide_members(bits: u128) -> Set<nat> {
    Set::new(|i: nat| wide_bit(bits, i))
}

/// An unsigned integer used as a set of branch indices: bit `i` is set when
/// index `i` is a member.
pub trait Number: Sized + Copy {
    /// The number of bits of the integer.
    spec fn width() -> nat;

    /// The indices of the bits that are set.
    spec fn members(self) -> Set<nat>;

    /// Every width is one of the five supported ones.
    proof fn lemma_width()
        ensures
            Self::width() == 8 || Self::width() == 16 || Self::width() == 32 || Self::width() == 64
                || Self::width() == 128,
    ;

    /// Only indices below the width can be members.
    proof fn lemma_members_bounded(self, index: nat)
        ensures
            self.members().contains(index) ==> index < Self::width(),
    ;

    /// The number of bits of the integer.
    fn bits() -> (r: u32)
        ensures
            r == Self::width(),
    ;

    /// The integer with no bit set.
    fn zero() -> (r: Self)
        ensures
            r.members() == Set::<nat>::empty(),
    ;

    /// The integer with only bit `bit` set; no bit at all when `bit` is not
    /// below the width.
    fn from_bit(bit: u32) -> (r: Self)
        ensures
            bit < Self::width() ==> r.members() == Set::<nat>::empty().insert(bit as nat),
            bit >= Self::width() ==> r.members() == Set::<nat>::empty(),
    ;

    /// The lowest member, or the width when there is none.
    fn trailing_zeros(self) -> (r: u32)
        ensures
            r <= Self::width(),
            r == Self::width() <==> self.members() == Set::<nat>::empty(),
            r < Self::width() ==> self.members().contains(r as nat),
            forall|i: nat| self.members().contains(i) ==> r <= i,
    ;

    /// Whether no bit is set.
    fn is_zero(self) -> (r: bool)
        ensures
            r <==> self.members() == Set::<nat>::empty(),
    ;

    /// Clears bit `index`.
    fn unset(&mut self, index: u32)
        ensures
            final(self).members() == old(self).members().remove(index as nat),
    ;

    /// Moves every bit `bits` positions up, wrapping around at the width.
    fn rotate_left(self, bits: u32) -> (r: Self)
        ensures
            forall|i: nat|
                i < Self::width() ==> (r.members().contains(rotated(i, bits as nat, Self::width()))
                    <==> self.members().contains(i)),
    ;

    /// Moves every bit `bits` positions down, wrapping around at zero.
    fn rotate_right(self, bits: u32) -> (r: Self)
        ensures
            forall|i: nat|
                i < Self::width() ==> (r.members().contains(i) <==> self.members().contains(
                    rotated(i, bits as nat, Self::width()),
                )),
    ;

    /// The bits set in both integers.
    fn intersect(self, other: Self) -> (r: Self)
        ensures
            r.members() == self.members().intersect(other.members()),
    ;

    /// The bits set in either integer.
    fn union(self, other: Self) -> (r: Self)
        ensures
            r.members() == self.members().union(other.members()),
    ;

    /// The low bits of a 128-bit word, as many as the width holds.
    fn from_wide(bits: u128) -> (r: Self)
        ensures
            r.members() == wide_members(bits).filter(|i: nat| i < Self::width()),
    ;

    /// The integer as a 128-bit word with the same bits set.
    fn to_wide(self) -> (r: u128)
        ensures
            wide_members(r) == self.members(),
    ;
}

} // verus!
