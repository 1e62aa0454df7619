//! The local form of an interest set: a plain copy of the bits, owned by one
//! poll in progress.

use vstd::prelude::*;
use crate::number::Number;
use crate::order::{ascending, bounded, lemma_ascending_first, lemma_visit_order_empty};

verus! {

/// A source of branch indices that hands them out one at a time.
pub trait Indices {
    /// The indices still to come, in the order in which they will come.
    spec fn remaining(&self) -> Seq<nat>;

    /// Takes the next index, if there is one left.
    fn next(&mut self) -> (r: Option<u32>)
        ensures
            old(self).remaining().len() == 0 ==> r is None
                && final(self).remaining() == old(self).remaining(),
            old(self).remaining().len() > 0 ==> r is Some && r->0 == old(self).remaining()[0]
                && final(self).remaining() == old(self).remaining().drop_first(),
    ;
}

/// A snapshot of an interest set: bit `i` says that branch `i` is of
/// interest. Its view is the set of those branch indices.
#[derive(Clone, Copy, PartialEq, Eq)]
pub struct Snapshot<T> {
    state: T,
}

impl<T: Number> View for Snapshot<T> {
    type V = Set<nat>;

    closed spec fn view(&self) -> Set<nat> {
        self.state.members()
    }
}

impl<T: Number> Snapshot<T> {
    /// Every member is a valid bit index of the underlying integer.
    pub proof fn lemma_bounded(self)
        ensures
            bounded(self@, T::width()),
    {
        assert forall|i: nat| self@.contains(i) implies i < T::width() by {
            self.state.lemma_members_bounded(i);
        }
    }

    /// A snapshot with the bits of `state`.
    pub fn new(state: T) -> (r: Self)
        ensures
            r@ == state.members(),
    {
        Self { state }
    }

    /// The snapshot without any member.
    pub fn empty() -> (r: Self)
        ensures
            r@ == Set::<nat>::empty(),
    {
        Self { state: T::zero() }
    }

    /// The bits of the snapshot.
    pub fn state(&self) -> (r: T)
        ensures
            r.members() == self@,
    {
        self.state
    }

    /// Whether the snapshot has no member.
    pub fn is_empty(&self) -> (r: bool)
        ensures
            r <==> self@ == Set::<nat>::empty(),
    {
        self.state.is_zero()
    }

    /// Removes `index` from the snapshot; nothing changes if it is not a
    /// member.
    pub fn clear(&mut self, index: u32)
        ensures
            final(self)@ == old(self)@.remove(index as nat),
    {
        self.state.unset(index);
    }

    /// The lowest member, which stays in the snapshot; `None` if there is no
    /// member.
    pub fn next_index(&mut self) -> (r: Option<u32>)
        ensures
            final(self)@ == old(self)@,
            r is None <==> old(self)@ == Set::<nat>::empty(),
            r is Some ==> old(self)@.contains(r->0 as nat) && forall|i: nat|
                old(self)@.contains(i) ==> r->0 <= i,
    {
        if self.state.is_zero() {
            return None;
        }
        Some(self.state.trailing_zeros())
    }

    /// Removes the lowest member and returns it; `None` if there is no
    /// member.
    pub fn unset_next(&mut self) -> (r: Option<u32>)
        ensures
            r is None <==> old(self)@ == Set::<nat>::empty(),
            r is None ==> final(self)@ == old(self)@,
            r is Some ==> old(self)@.contains(r->0 as nat) && (forall|i: nat|
                old(self)@.contains(i) ==> r->0 <= i) && final(self)@ == old(self)@.remove(
                r->0 as nat,
            ),
    {
        if self.state.is_zero() {
            return None;
        }
        let index = self.state.trailing_zeros();
        self.state.unset(index);
        Some(index)
    }

    /// The members that are also members of `other`.
    pub fn mask(self, other: Self) -> (r: Self)
        ensures
            r@ == self@.intersect(other@),
    {
        Self { state: self.state.intersect(other.state) }
    }

    /// Adds the members of `other`.
    pub fn merge(&mut self, other: Self)
        ensures
            final(self)@ == old(self)@.union(other@),
    {
        self.state = self.state.union(other.state);
    }

    /// An iterator over the members, lowest first.
    pub fn iter(self) -> (it: Iter<T>)
        ensures
            it.remaining() == ascending(self@, T::width()),
    {
        Iter { state: self.state }
    }

    /// The members as a vector, lowest first.
    pub fn to_vec(self) -> (v: Vec<u32>)
        ensures
            v@.len() == ascending(self@, T::width()).len(),
            forall|k: int| 0 <= k < v@.len() ==> v@[k] == ascending(self@, T::width())[k],
    {
        let ghost all = ascending(self@, T::width());
        let mut it = self.iter();
        let mut v: Vec<u32> = Vec::new();
        proof {
            lemma_remaining_shrinks(all, 0);
        }
        loop
            invariant
                v@.len() <= all.len(),
                it.remaining() == all.skip(v@.len() as int),
                forall|k: int| 0 <= k < v@.len() ==> v@[k] == all[k],
            ensures
                v@.len() == all.len(),
                forall|k: int| 0 <= k < v@.len() ==> v@[k] == all[k],
            decreases all.len() - v@.len(),
        {
            let ghost done = v@.len() as int;
            match it.next() {
                Some(index) => {
                    v.push(index);
                    proof {
                        lemma_remaining_shrinks(all, done);
                    }
                },
                None => {
                    break ;
                },
            }
        }
        v
    }
}

/// Skipping one element more drops the first of what was left.
proof fn lemma_remaining_shrinks(all: Seq<nat>, done: int)
    requires
        0 <= done <= all.len(),
    ensures
        all.skip(0) == all,
        done < all.len() ==> all.skip(done).drop_first() == all.skip(done + 1) && all.skip(
            done,
        )[0] == all[done],
        all.skip(done).len() == all.len() - done,
{
    assert(all.skip(0) =~= all);
    if done < all.len() {
        assert(all.skip(done).drop_first() =~= all.skip(done + 1));
    }
}

/// An iterator over the members of a snapshot, lowest first.
pub struct Iter<T> {
    state: T,
}

impl<T: Number> Iter<T> {
    /// Every index still to come is a valid bit index, and the indices come
    /// in the ascending order of the members left.
    pub proof fn lemma_remaining(self)
        ensures
            forall|k: int|
                0 <= k < self.remaining().len() ==> #[trigger] self.remaining()[k] < T::width(),
    {
        let left = self.state.members();
        T::lemma_width();
        assert(bounded(left, T::width())) by {
            assert forall|i: nat| left.contains(i) implies i < T::width() by {
                self.state.lemma_members_bounded(i);
            }
        }
        crate::order::lemma_visit_order_complete(left, T::width(), 0);
        assert forall|k: int| 0 <= k < self.remaining().len() implies #[trigger] self.remaining()[k]
            < T::width() by {
            assert(self.remaining().to_set().contains(self.remaining()[k]));
        }
    }
}

impl<T: Number> Indices for Iter<T> {
    closed spec fn remaining(&self) -> Seq<nat> {
        ascending(self.state.members(), T::width())
    }

    fn next(&mut self) -> (r: Option<u32>) {
        if self.state.is_zero() {
            proof {
                lemma_visit_order_empty(T::width(), 0);
            }
            return None;
        }
        let index = self.state.trailing_zeros();
        proof {
            lemma_ascending_first(self.state.members(), T::width(), index as nat);
        }
        self.state.unset(index);
        Some(index)
    }
}

} // verus!
