//! Bias strategies: the order in which ready branches are examined.

use vstd::prelude::*;
use crate::number::{rotated, Number};
use crate::order::{
    ascending,
    bounded,
    lemma_rotated_onto,
    lemma_visit_order_complete,
    lemma_visit_order_rotated,
    rotate_by,
    visit_order,
};
use crate::set::{Indices, Iter, Snapshot};

verus! {

/// A bias decides in which order the branches of a ready set are visited.
pub trait Bias<Bits: Number> {
    /// The iterator that hands out the branches in that order.
    type Apply: Indices;

    /// The order in which the members of `ready` are visited.
    spec fn order(&self, ready: Set<nat>) -> Seq<nat>;

    /// Every ready branch is visited, and none twice.
    proof fn lemma_order_complete(&self, ready: Set<nat>)
        requires
            bounded(ready, Bits::width()),
        ensures
            self.order(ready).no_duplicates(),
            self.order(ready).to_set() == ready,
    ;

    /// Applies the bias to a snapshot of the ready branches.
    fn apply(&self, snapshot: Snapshot<Bits>) -> (it: Self::Apply)
        ensures
            it.remaining() == self.order(snapshot@),
    ;
}

/// The bias that visits the ready branches from the lowest index to the
/// highest.
#[non_exhaustive]
pub struct Unbiased;

impl<Bits: Number> Bias<Bits> for Unbiased {
    type Apply = Iter<Bits>;

    open spec fn order(&self, ready: Set<nat>) -> Seq<nat> {
        ascending(ready, Bits::width())
    }

    proof fn lemma_order_complete(&self, ready: Set<nat>) {
        Bits::lemma_width();
        lemma_visit_order_complete(ready, Bits::width(), 0);
    }

    fn apply(&self, snapshot: Snapshot<Bits>) -> (it: Self::Apply) {
        snapshot.iter()
    }
}

/// The bias that starts at a fixed offset and wraps around, so that no
/// branch is favoured over many selections with different offsets.
#[non_exhaustive]
pub struct Random(u32);

impl Random {
    /// The index at which the visit starts, before it is wrapped into the
    /// range of branch indices.
    pub closed spec fn offset(&self) -> nat {
        self.0 as nat
    }

    /// A bias that starts at `value`.
    pub fn new(value: u32) -> (r: Self)
        ensures
            r.offset() == value,
    {
        Self(value)
    }
}

impl<Bits: Number> Bias<Bits> for Random {
    type Apply = RandomIter<Bits>;

    open spec fn order(&self, ready: Set<nat>) -> Seq<nat> {
        visit_order(ready, Bits::width(), self.offset())
    }

    proof fn lemma_order_complete(&self, ready: Set<nat>) {
        Bits::lemma_width();
        lemma_visit_order_complete(ready, Bits::width(), self.offset());
    }

    fn apply(&self, set: Snapshot<Bits>) -> (it: Self::Apply) {
        let turned = Snapshot::new(set.state().rotate_right(self.0));
        proof {
            Bits::lemma_width();
            lemma_visit_order_rotated(set@, turned@, Bits::width(), self.0 as nat);
        }
        RandomIter { value: self.0, iter: turned.iter() }
    }
}

/// The iterator of the [`Random`] bias.
pub struct RandomIter<Bits> {
    value: u32,
    iter: Iter<Bits>,
}

impl<Bits: Number> Indices for RandomIter<Bits> {
    closed spec fn remaining(&self) -> Seq<nat> {
        self.iter.remaining().map_values(rotate_by(self.value as nat, Bits::width()))
    }

    fn next(&mut self) -> (r: Option<u32>) {
        let ghost before = self.iter.remaining();
        proof {
            self.iter.lemma_remaining();
        }
        match self.iter.next() {
            Some(index) => {
                let single = Bits::from_bit(index);
                let turned = single.rotate_left(self.value);
                proof {
                    let width = Bits::width();
                    let target = rotated(index as nat, self.value as nat, width);
                    Bits::lemma_width();
                    assert(before[0] < width);
                    assert forall|k: nat| turned.members().contains(k) <==> k == target by {
                        turned.lemma_members_bounded(k);
                        if k < width {
                            let i = lemma_rotated_onto(k, self.value as nat, width);
                            assert(single.members().contains(i) <==> i == index);
                            if i == index {
                                assert(k == target);
                            }
                            if k == target {
                                crate::order::lemma_rotated_injective(
                                    i,
                                    index as nat,
                                    self.value as nat,
                                    width,
                                );
                            }
                        } else {
                            assert(target < width) by {
                                vstd::arithmetic::div_mod::lemma_mod_bound(
                                    (index + self.value) as int,
                                    width as int,
                                );
                            }
                        }
                    }
                    assert(turned.members().contains(target));
                    assert(before.drop_first().map_values(rotate_by(self.value as nat, width))
                        =~= before.map_values(rotate_by(self.value as nat, width)).drop_first());
                }
                Some(turned.trailing_zeros())
            },
            None => None,
        }
    }
}

} // verus!
