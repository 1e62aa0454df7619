//! The bookkeeping of a selection: which branches are still enabled, which
//! are known to be ready, and the exchange with the shared interest set.

use vstd::prelude::*;
use core::task::{Context, Poll};
use crate::number::{wide_members, Number};
use crate::set::Snapshot;
use crate::static_waker::StaticWaker;

verus! {

/// The index that stands for "every branch is disabled".
pub const DISABLED: u32 = u32::MAX;

/// The state of a selection between polls.
///
/// It keeps the enabled branches, which only ever get fewer, and the ready
/// branches: those woken since they were last examined. A ready branch is
/// always an enabled one.
pub struct Poller<'a, Bits: Number> {
    /// The branches that are enabled.
    mask: Snapshot<Bits>,
    /// What the selection shares with the wakers of its branches.
    waker: &'a StaticWaker,
    /// The branches that are ready and have not been examined since.
    snapshot: Snapshot<Bits>,
}

impl<'a, Bits: Number> Poller<'a, Bits> {
    #[verifier::type_invariant]
    spec fn ready_is_enabled(self) -> bool {
        self.snapshot@.subset_of(self.mask@)
    }

    /// The branches that are enabled.
    pub closed spec fn enabled(&self) -> Set<nat> {
        self.mask@
    }

    /// The branches that are ready and have not been examined since.
    pub closed spec fn ready(&self) -> Set<nat> {
        self.snapshot@
    }

    /// The waker that the poller shares with the wakers of its branches.
    pub closed spec fn shared(&self) -> &StaticWaker {
        self.waker
    }

    /// Every enabled branch, and with it every ready one, has an index
    /// below the width of the mask.
    pub proof fn lemma_bounded(&self)
        ensures
            forall|i: nat| self.enabled().contains(i) ==> i < Bits::width(),
            forall|i: nat| self.ready().contains(i) ==> i < Bits::width(),
    {
        self.mask.lemma_bounded();
        self.snapshot.lemma_bounded();
    }

    /// A poller for the branches of `snapshot`: all of them are enabled, and
    /// all of them count as ready, so that each is examined once before
    /// anything has woken it.
    pub fn new(waker: &'a StaticWaker, snapshot: Snapshot<Bits>) -> (r: Self)
        ensures
            r.enabled() == snapshot@,
            r.ready() == snapshot@,
            r.shared() == waker,
    {
        Self { mask: snapshot, waker, snapshot }
    }

    /// A copy of the enabled branches.
    pub fn mask(&self) -> (r: Snapshot<Bits>)
        ensures
            r@ == self.enabled(),
    {
        self.mask
    }

    /// A copy of the ready branches, each of which is enabled.
    pub fn snapshot(&self) -> (r: Snapshot<Bits>)
        ensures
            r@ == self.ready(),
            self.ready().subset_of(self.enabled()),
    {
        proof {
            use_type_invariant(self);
        }
        self.snapshot
    }

    /// Whether no branch is enabled any more; no branch is ready then.
    pub fn is_disabled(&self) -> (r: bool)
        ensures
            r <==> self.enabled() == Set::<nat>::empty(),
            r ==> self.ready() == Set::<nat>::empty(),
    {
        proof {
            use_type_invariant(self);
            if self.mask@ == Set::<nat>::empty() {
                assert(self.snapshot@ =~= Set::<nat>::empty());
            }
        }
        self.mask.is_empty()
    }

    /// Disables branch `index` for good.
    pub fn clear(&mut self, index: u32)
        ensures
            final(self).enabled() == old(self).enabled().remove(index as nat),
            final(self).ready() == old(self).ready().remove(index as nat),
            final(self).shared() == old(self).shared(),
    {
        proof {
            use_type_invariant(&*self);
        }
        let mut snapshot = self.snapshot;
        snapshot.clear(index);
        self.snapshot = snapshot;
        let mut mask = self.mask;
        mask.clear(index);
        self.mask = mask;
    }

    /// Takes branch `index` out of the ready branches: it is being examined.
    pub fn visit(&mut self, index: u32)
        ensures
            final(self).enabled() == old(self).enabled(),
            final(self).ready() == old(self).ready().remove(index as nat),
            final(self).shared() == old(self).shared(),
    {
        proof {
            use_type_invariant(&*self);
        }
        let mut snapshot = self.snapshot;
        snapshot.clear(index);
        self.snapshot = snapshot;
    }

    /// Keeps enabled, and ready, only the branches of `working`.
    pub fn restrict(&mut self, working: Snapshot<Bits>)
        ensures
            final(self).enabled() == old(self).enabled().intersect(working@),
            final(self).ready() == old(self).ready().intersect(working@),
            final(self).shared() == old(self).shared(),
    {
        proof {
            use_type_invariant(&*self);
        }
        self.snapshot = self.snapshot.mask(working);
        self.mask = self.mask.mask(working);
    }

    /// Adds to the ready branches those of `taken`, given as the bits of a
    /// word, that are enabled.
    pub fn absorb(&mut self, taken: u128)
        ensures
            final(self).enabled() == old(self).enabled(),
            final(self).ready() == old(self).ready().union(
                wide_members(taken).intersect(old(self).enabled()),
            ),
            final(self).shared() == old(self).shared(),
    {
        proof {
            use_type_invariant(&*self);
            Bits::lemma_width();
            self.mask.lemma_bounded();
            assert(wide_members(taken).filter(|i: nat| i < Bits::width()).intersect(self.mask@)
                =~= wide_members(taken).intersect(self.mask@));
        }
        let woken = Snapshot::new(Bits::from_wide(taken)).mask(self.mask);
        let mut snapshot = self.snapshot;
        snapshot.merge(woken);
        self.snapshot = snapshot;
    }

    /// Moves what has gathered in the shared interest set to the ready
    /// branches, as far as it is enabled. Whatever the shared set held, no
    /// ready branch is lost and no disabled branch becomes ready.
    pub fn merge_from_shared(&mut self)
        ensures
            final(self).enabled() == old(self).enabled(),
            old(self).ready().subset_of(final(self).ready()),
            final(self).ready().subset_of(old(self).enabled()),
            final(self).shared() == old(self).shared(),
    {
        proof {
            use_type_invariant(&*self);
        }
        let taken = self.waker.set.take();
        self.absorb(taken);
    }

    /// Looks for ready branches, first without and then with the
    /// continuation of `cx` registered for the wakeups to come. Answers
    /// whether the caller should suspend: `true` exactly when no branch is
    /// ready even then.
    pub fn merge(&mut self, cx: &mut Context<'_>) -> (r: bool)
        ensures
            final(self).enabled() == old(self).enabled(),
            old(self).ready().subset_of(final(self).ready()),
            final(self).ready().subset_of(old(self).enabled()),
            final(self).shared() == old(self).shared(),
            r <==> final(self).ready() == Set::<nat>::empty(),
    {
        self.merge_from_shared();
        if !self.snapshot.is_empty() {
            return false;
        }
        self.waker.parent.register(cx.waker());
        self.merge_from_shared();
        self.snapshot.is_empty()
    }

    /// Gives back to the shared interest set the ready branches that have
    /// not been examined, so that a later selection on the same waker finds
    /// them. No branch is ready afterwards.
    pub fn release(&mut self)
        ensures
            final(self).enabled() == old(self).enabled(),
            final(self).ready() == Set::<nat>::empty(),
            final(self).shared() == old(self).shared(),
    {
        let left = self.snapshot.state().to_wide();
        self.waker.set.merge(left);
        self.snapshot = Snapshot::empty();
    }

    /// One step of the selection: the index of the next branch to examine.
    ///
    /// With no branch enabled the answer is `DISABLED`. Else the ready
    /// branches are used up first: the lowest one is taken out of them and
    /// returned. When none is ready, the shared interest set is consulted in
    /// the same poll, without and then with the continuation of `cx`
    /// registered; the answer is the lowest branch that this brings, and
    /// `Pending` only if it brings none.
    pub fn poll(&mut self, cx: &mut Context<'_>) -> (r: Poll<u32>)
        ensures
            final(self).enabled() == old(self).enabled(),
            final(self).shared() == old(self).shared(),
            old(self).enabled() == Set::<nat>::empty() ==> r == Poll::Ready(DISABLED)
                && final(self).ready() == old(self).ready(),
            old(self).enabled() != Set::<nat>::empty() ==> exists|merged: Set<nat>| #[trigger]
                stepped(*old(self), merged, *final(self), r),
    {
        proof {
            use_type_invariant(&*self);
        }
        if self.mask.is_empty() {
            return Poll::Ready(DISABLED);
        }
        if self.snapshot.is_empty() && self.merge(cx) {
            proof {
                assert(stepped(*old(self), self.ready(), *self, Poll::Pending));
            }
            return Poll::Pending;
        }
        let ghost merged = self.ready();
        let mut snapshot = self.snapshot;
        let next = snapshot.unset_next();
        self.snapshot = snapshot;
        match next {
            Some(index) => {
                proof {
                    assert(stepped(*old(self), merged, *self, Poll::Ready(index)));
                }
                Poll::Ready(index)
            },
            None => {
                // A branch is ready here, whether it was at entry or came
                // with the consultation.
                assert(false);
                Poll::Pending
            },
        }
    }
}

/// What one step makes of a poller with enabled branches, where `merged`
/// are the ready branches after the shared interest set was consulted, if
/// it was.
///
/// `merged` holds the branches that were ready before and only enabled
/// ones; it is what was ready before unless no branch was. If it holds a
/// branch, its lowest is the answer and leaves the ready branches. If it
/// holds none, the answer is `Pending` and no branch is ready.
pub open spec fn stepped<Bits: Number>(
    before: Poller<'_, Bits>,
    merged: Set<nat>,
    after: Poller<'_, Bits>,
    r: Poll<u32>,
) -> bool {
    &&& before.ready().subset_of(merged)
    &&& merged.subset_of(before.enabled())
    &&& before.ready() != Set::<nat>::empty() ==> merged == before.ready()
    &&& merged == Set::<nat>::empty() ==> r == Poll::<u32>::Pending && after.ready() == merged
    &&& merged != Set::<nat>::empty() ==> (r matches Poll::Ready(index) && merged.contains(
        index as nat,
    ) && (forall|i: nat| merged.contains(i) ==> index <= i) && after.ready() == merged.remove(
        index as nat,
    ))
}

} // verus!
