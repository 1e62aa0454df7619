//! The choice of the integer that holds one bit for each branch.

use vstd::prelude::*;
use crate::number::{wide_members, Number};

verus! {

/// The largest number of branches that a selection can have.
pub const BRANCH_LIMIT: usize = 128;

/// The unsigned integer types that can serve as the mask of a selection.
#[derive(Clone, Copy, Debug, PartialEq, Eq, Structural)]
pub enum MaskType {
    /// `u8`, for up to 8 branches.
    U8,
    /// `u16`, for up to 16 branches.
    U16,
    /// `u32`, for up to 32 branches.
    U32,
    /// `u64`, for up to 64 branches.
    U64,
    /// `u128`, for up to 128 branches.
    U128,
}

/// The refusal of a selection with more branches than the limit.
#[derive(Clone, Copy, Debug, PartialEq, Eq, Structural)]
pub struct TooManyBranches {
    /// The number of branches that was asked for.
    pub branches: usize,
}

impl MaskType {
    /// The number of bits of the type.
    pub open spec fn width(self) -> nat {
        match self {
            MaskType::U8 => 8,
            MaskType::U16 => 16,
            MaskType::U32 => 32,
            MaskType::U64 => 64,
            MaskType::U128 => 128,
        }
    }

    /// The number of bits of the type.
    pub fn bits(self) -> (r: u32)
        ensures
            r == self.width(),
    {
        match self {
            MaskType::U8 => 8,
            MaskType::U16 => 16,
            MaskType::U32 => 32,
            MaskType::U64 => 64,
            MaskType::U128 => 128,
        }
    }

    /// The name of the type.
    pub fn name(self) -> (r: &'static str)
        ensures
            r@ == match self {
                MaskType::U8 => "u8"@,
                MaskType::U16 => "u16"@,
                MaskType::U32 => "u32"@,
                MaskType::U64 => "u64"@,
                MaskType::U128 => "u128"@,
            },
    {
        match self {
            MaskType::U8 => "u8",
            MaskType::U16 => "u16",
            MaskType::U32 => "u32",
            MaskType::U64 => "u64",
            MaskType::U128 => "u128",
        }
    }
}

/// The type required to fit the given number of branches: the narrowest
/// one with a bit for each. More branches than `BRANCH_LIMIT` are refused.
pub fn mask_type(branches: usize) -> (r: Result<MaskType, TooManyBranches>)
    ensures
        branches <= BRANCH_LIMIT ==> r is Ok && r->Ok_0.width() >= branches && forall|
            other: MaskType,
        | #[trigger] other.width() >= branches ==> r->Ok_0.width() <= other.width(),
        branches > BRANCH_LIMIT ==> r == Err::<MaskType, TooManyBranches>(
            TooManyBranches { branches },
        ),
{
    if branches <= 8 {
        Ok(MaskType::U8)
    } else if branches <= 16 {
        Ok(MaskType::U16)
    } else if branches <= 32 {
        Ok(MaskType::U32)
    } else if branches <= 64 {
        Ok(MaskType::U64)
    } else if branches <= BRANCH_LIMIT {
        Ok(MaskType::U128)
    } else {
        Err(TooManyBranches { branches })
    }
}

/// Whether a branch with the guard `guard` is enabled: one without a guard
/// is, and so is one whose guard holds.
pub open spec fn passes(guard: Option<bool>) -> bool {
    guard != Some(false)
}

/// The branches that are enabled at the start of a selection whose
/// branches have the guards `guards`, in the order of their indices.
pub open spec fn enabled_at_start(guards: Seq<Option<bool>>) -> Set<nat> {
    Set::new(|i: nat| i < guards.len() && passes(guards[i as int]))
}

/// The mask that a selection starts with, as the bits of a word: bit `i`
/// is set exactly if branch `i` has no guard or its guard holds. More
/// branches than `BRANCH_LIMIT` are refused.
pub fn initial_mask(guards: &Vec<Option<bool>>) -> (r: Result<u128, TooManyBranches>)
    ensures
        guards@.len() <= BRANCH_LIMIT ==> r is Ok && wide_members(r->Ok_0) == enabled_at_start(
            guards@,
        ),
        guards@.len() > BRANCH_LIMIT ==> r == Err::<u128, TooManyBranches>(
            TooManyBranches { branches: guards@.len() as usize },
        ),
{
    if guards.len() > BRANCH_LIMIT {
        return Err(TooManyBranches { branches: guards.len() });
    }
    let mut mask: u128 = Number::zero();
    let mut index: u32 = 0;
    while (index as usize) < guards.len()
        invariant
            index <= guards@.len() <= BRANCH_LIMIT,
            mask.members() == enabled_at_start(guards@.take(index as int)),
        decreases guards@.len() - index,
    {
        let enabled = match guards[index as usize] {
            Some(holds) => holds,
            None => true,
        };
        let ghost before = mask;
        if enabled {
            mask = mask.union(Number::from_bit(index));
        }
        proof {
            let shorter = guards@.take(index as int);
            let longer = guards@.take(index + 1);
            assert forall|i: nat| enabled_at_start(longer).contains(i) <==> (enabled_at_start(
                shorter,
            ).contains(i) || (i == index && enabled)) by {
                if i < index {
                    assert(longer[i as int] == shorter[i as int]);
                }
            }
            assert(mask.members() =~= enabled_at_start(longer));
        }
        index = index + 1;
    }
    proof {
        assert(guards@.take(guards@.len() as int) =~= guards@);
    }
    Ok(mask.to_wide())
}

} // verus!
