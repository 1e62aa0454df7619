//! The selection engine: drives the ready branches, in the order of the
//! bias, to the first result.

use vstd::prelude::*;
use core::task::{Context, Poll};
use crate::bias::Bias;
use crate::number::Number;
use crate::poller::{Poller, DISABLED};
use crate::set::{Indices, Snapshot};
use crate::static_waker::StaticWaker;

verus! {

/// Whether the callback `poll` may be asked, in a selection whose enabled
/// branches are `enabled`, whatever the selection asks: about a branch of
/// `enabled`, with a mask that holds only branches of `enabled`; and about
/// `DISABLED`, with a mask that holds no branch.
pub open spec fn accepts<Bits: Number, S, T, O>(poll: T, enabled: Set<nat>) -> bool where
    T: FnMut(&mut Context<'_>, &mut S, &mut Snapshot<Bits>, u32) -> Poll<O>,
 {
    forall|cx: &mut Context<'_>, state: &mut S, mask: &mut Snapshot<Bits>, index: u32|
        ((index == DISABLED && (*mask)@ == Set::<nat>::empty()) || (enabled.contains(index as nat)
            && (*mask)@.subset_of(enabled))) ==> #[trigger] call_requires(
            poll,
            (cx, state, mask, index),
        )
}

/// Whether `r` is an answer that the callback `poll` can give when it is
/// asked about `index`.
pub open spec fn answers<Bits: Number, S, T, O>(poll: T, index: u32, r: Poll<O>) -> bool where
    T: FnMut(&mut Context<'_>, &mut S, &mut Snapshot<Bits>, u32) -> Poll<O>,
 {
    exists|cx: &mut Context<'_>, state: &mut S, mask: &mut Snapshot<Bits>| #[trigger]
        call_ensures(poll, (cx, state, mask, index), r)
}

/// Whether `masks` lists the enabled branches from `before` to `after` over
/// `n` visits: one entry before the first visit and one after each.
pub open spec fn framed(masks: Seq<Set<nat>>, n: int, before: Set<nat>, after: Set<nat>) -> bool {
    masks.len() == n + 1 && masks[0] == before && masks[n] == after
}

/// What a dispatch makes of the ready branches `ready`, visited in the order
/// `order`, when it has asked the callback about the first `n` of them.
///
/// - The branches left ready are the ready ones that were not visited and
///   are still enabled.
/// - All visited branches but the last answered `Pending`.
/// - Either the last visited branch gave the result `r`, a `Ready`; or it
///   answered `Pending` too and every ready branch was visited: then `r` is
///   the callback's answer about `DISABLED` if no branch is left enabled,
///   and `Pending` otherwise.
pub open spec fn dispatched<Bits: Number, S, T, O>(
    poll: T,
    order: Seq<nat>,
    ready: Set<nat>,
    enabled_after: Set<nat>,
    ready_after: Set<nat>,
    r: Poll<O>,
    n: int,
) -> bool where T: FnMut(&mut Context<'_>, &mut S, &mut Snapshot<Bits>, u32) -> Poll<O> {
    &&& 0 <= n <= order.len()
    &&& ready_after == ready.difference(order.take(n).to_set()).intersect(enabled_after)
    &&& forall|j: int|
        0 <= j < n - 1 ==> answers::<Bits, S, T, O>(poll, #[trigger] order[j] as u32, Poll::Pending)
    &&& {
        ||| n > 0 && r != Poll::<O>::Pending && answers::<Bits, S, T, O>(
            poll,
            order[n - 1] as u32,
            r,
        )
        ||| {
            &&& n == order.len()
            &&& n > 0 ==> answers::<Bits, S, T, O>(poll, order[n - 1] as u32, Poll::Pending)
            &&& enabled_after == Set::<nat>::empty() ==> answers::<Bits, S, T, O>(
                poll,
                DISABLED,
                r,
            )
            &&& enabled_after != Set::<nat>::empty() ==> r == Poll::<O>::Pending
        }
    }
}

/// What a callback answers about branch `index` once it has polled the
/// operation of the branch, where `polled` is `Ready(Some(..))` for an
/// outcome that matches what the caller waits for, and `Ready(None)` for one
/// that does not.
///
/// An operation that has completed clears its branch in `mask`, whether it
/// matches or not; only a match is a result.
pub fn settle<Bits: Number, O>(mask: &mut Snapshot<Bits>, index: u32, polled: Poll<Option<O>>) -> (r:
    Poll<O>)
    ensures
        polled == Poll::<Option<O>>::Pending ==> r == Poll::<O>::Pending
            && final(mask)@ == old(mask)@,
        polled == Poll::Ready(None::<O>) ==> r == Poll::<O>::Pending
            && final(mask)@ == old(mask)@.remove(index as nat),
        forall|output: O|
            polled == Poll::Ready(Some(output)) ==> r == Poll::Ready(output) && final(mask)@
                == old(mask)@.remove(index as nat),
{
    match polled {
        Poll::Pending => Poll::Pending,
        Poll::Ready(outcome) => {
            mask.clear(index);
            match outcome {
                Some(output) => Poll::Ready(output),
                None => Poll::Pending,
            }
        },
    }
}

/// At most one result per poll, and the first in the order of the bias: when
/// a dispatch with enabled branches left ends with a result, that result is
/// the answer of one visited branch, every branch before it in the order
/// answered `Pending`, and no branch after it was visited, so that those
/// which are still enabled stay ready.
pub proof fn lemma_first_ready_wins<Bits: Number, S, T, O>(
    poll: T,
    order: Seq<nat>,
    ready: Set<nat>,
    enabled_after: Set<nat>,
    ready_after: Set<nat>,
    r: Poll<O>,
    n: int,
) where T: FnMut(&mut Context<'_>, &mut S, &mut Snapshot<Bits>, u32) -> Poll<O>
    requires
        dispatched::<Bits, S, T, O>(poll, order, ready, enabled_after, ready_after, r, n),
        order.no_duplicates(),
        order.to_set() == ready,
        r != Poll::<O>::Pending,
        enabled_after != Set::<nat>::empty(),
    ensures
        0 < n <= order.len(),
        answers::<Bits, S, T, O>(poll, order[n - 1] as u32, r),
        forall|j: int|
            0 <= j < n - 1 ==> answers::<Bits, S, T, O>(poll, #[trigger] order[j] as u32, Poll::Pending),
        forall|k: int|
            n <= k < order.len() && enabled_after.contains(order[k]) ==> ready_after.contains(
                #[trigger] order[k],
            ),
{
    assert forall|k: int|
        n <= k < order.len() && enabled_after.contains(order[k]) implies ready_after.contains(
        #[trigger] order[k],
    ) by {
        assert(order.to_set().contains(order[k]));
        if order.take(n).to_set().contains(order[k]) {
            let j = choose|j: int| 0 <= j < n && order.take(n)[j] == order[k];
            assert(order[j] == order[k]);
        }
    }
}

/// Fair retention: a branch that was ready when a dispatch began, and is
/// enabled when it ends, was either visited by that dispatch or is still
/// ready, so that the next poll examines it without a new wakeup.
pub proof fn lemma_fair_retention<Bits: Number, S, T, O>(
    poll: T,
    order: Seq<nat>,
    ready: Set<nat>,
    enabled_after: Set<nat>,
    ready_after: Set<nat>,
    r: Poll<O>,
    n: int,
    branch: nat,
) where T: FnMut(&mut Context<'_>, &mut S, &mut Snapshot<Bits>, u32) -> Poll<O>
    requires
        dispatched::<Bits, S, T, O>(poll, order, ready, enabled_after, ready_after, r, n),
        ready.contains(branch),
        enabled_after.contains(branch),
    ensures
        order.take(n).contains(branch) || ready_after.contains(branch),
{
}

/// A selection over the branches of a collection of operations `S`.
///
/// The callback `T` is asked about one branch at a time. It polls the
/// operation of that branch; when the operation has completed, it clears the
/// branch in the mask that it is handed, and answers `Ready` if the outcome
/// matches what the caller waits for. Asked about `DISABLED`, it gives the
/// result for a selection without any branch left.
pub struct Select<'a, Bits: Number, S, B, T> {
    poller: Poller<'a, Bits>,
    state: S,
    bias: B,
    poll: T,
}

impl<'a, Bits: Number, S, B, T> Select<'a, Bits, S, B, T> {
    /// The branches that are enabled.
    pub closed spec fn enabled(&self) -> Set<nat> {
        self.poller.enabled()
    }

    /// The branches that are ready and have not been examined since.
    pub closed spec fn ready(&self) -> Set<nat> {
        self.poller.ready()
    }

    /// The callback that polls the branches.
    pub closed spec fn callback(&self) -> T {
        self.poll
    }

    /// The bias that orders the ready branches.
    pub closed spec fn bias(&self) -> B {
        self.bias
    }

    /// The operations that the selection is over.
    pub closed spec fn operations(&self) -> S {
        self.state
    }

    /// The waker that the selection shares with the wakers of its branches.
    pub closed spec fn shared(&self) -> &StaticWaker {
        self.poller.shared()
    }

    /// Every enabled branch, and with it every ready one, has an index
    /// below the width of the mask.
    pub proof fn lemma_bounded(&self)
        ensures
            forall|i: nat| self.enabled().contains(i) ==> i < Bits::width(),
            forall|i: nat| self.ready().contains(i) ==> i < Bits::width(),
    {
        self.poller.lemma_bounded();
    }

    /// A selection over the branches of `snapshot`, all of which are enabled
    /// and count as ready.
    pub fn new(waker: &'a StaticWaker, snapshot: Snapshot<Bits>, bias: B, state: S, poll: T) -> (r:
        Self)
        ensures
            r.enabled() == snapshot@,
            r.ready() == snapshot@,
            r.callback() == poll,
            r.bias() == bias,
            r.operations() == state,
            r.shared() == waker,
    {
        Self { poller: Poller::new(waker, snapshot), state, bias, poll }
    }

    /// A copy of the enabled branches.
    pub fn mask(&self) -> (r: Snapshot<Bits>)
        ensures
            r@ == self.enabled(),
    {
        self.poller.mask()
    }

    /// A copy of the ready branches, each of which is enabled.
    pub fn snapshot(&self) -> (r: Snapshot<Bits>)
        ensures
            r@ == self.ready(),
            self.ready().subset_of(self.enabled()),
    {
        self.poller.snapshot()
    }

    /// The operations that the selection is over.
    pub fn state(&self) -> (r: &S)
        ensures
            *r == self.operations(),
    {
        &self.state
    }

    /// Gives back to the shared interest set the ready branches that have
    /// not been examined. A selection that is abandoned calls this, so that
    /// no wakeup is lost to a later selection on the same waker.
    pub fn release(&mut self)
        ensures
            final(self).enabled() == old(self).enabled(),
            final(self).ready() == Set::<nat>::empty(),
            final(self).callback() == old(self).callback(),
            final(self).bias() == old(self).bias(),
            final(self).operations() == old(self).operations(),
            final(self).shared() == old(self).shared(),
    {
        self.poller.release();
    }
}

impl<'a, Bits, S, B, T, O> Select<'a, Bits, S, B, T> where
    Bits: Number,
    B: Bias<Bits>,
    T: FnMut(&mut Context<'_>, &mut S, &mut Snapshot<Bits>, u32) -> Poll<O>,
 {
    /// Polls for the next branch to complete with a result.
    ///
    /// With no branch enabled, the callback's answer about `DISABLED` is the
    /// result, and the shared interest set is not consulted. Else what has
    /// gathered there is added to the ready branches, called `merged` below;
    /// if there is none, the continuation of `cx` is registered and the
    /// shared set consulted once more. The branches of `merged` are then
    /// dispatched as [`Select::dispatch`] says: the contract names the `n`
    /// branches that were visited and, in `masks`, the enabled branches
    /// before the first visit and after each.
    pub fn poll_next(&mut self, cx: &mut Context<'_>) -> (r: Poll<O>)
        requires
            accepts::<Bits, S, T, O>(old(self).callback(), old(self).enabled()),
        ensures
            final(self).callback() == old(self).callback(),
            final(self).bias() == old(self).bias(),
            final(self).shared() == old(self).shared(),
            final(self).enabled().subset_of(old(self).enabled()),
            final(self).ready().subset_of(final(self).enabled()),
            old(self).enabled() == Set::<nat>::empty() ==> answers::<Bits, S, T, O>(
                old(self).callback(),
                DISABLED,
                r,
            ),
            exists|merged: Set<nat>, n: int, masks: Seq<Set<nat>>|
                #![trigger
                    dispatched::<Bits, S, T, O>(
                        old(self).callback(),
                        old(self).bias().order(merged),
                        merged,
                        final(self).enabled(),
                        final(self).ready(),
                        r,
                        n,
                    ),
                    framed(masks, n, old(self).enabled(), final(self).enabled()),
                ]
                ({
                    let order = old(self).bias().order(merged);
                    &&& old(self).ready().subset_of(merged)
                    &&& merged.subset_of(old(self).enabled())
                    &&& framed(masks, n, old(self).enabled(), final(self).enabled())
                    &&& dispatched::<Bits, S, T, O>(
                        old(self).callback(),
                        order,
                        merged,
                        final(self).enabled(),
                        final(self).ready(),
                        r,
                        n,
                    )
                    &&& forall|j: int|
                        #![trigger order[j]]
                        0 <= j < n ==> merged.contains(order[j]) && exists|
                            c: &mut Context<'_>,
                            s: &mut S,
                            m: &mut Snapshot<Bits>,
                            a: Poll<O>,
                        |
                            #[trigger] call_ensures(
                                old(self).callback(),
                                (c, s, m, order[j] as u32),
                                a,
                            ) && (*m)@ == masks[j] && masks[j + 1] == masks[j].intersect(
                                (*final(m))@,
                            ) && (a == Poll::<O>::Pending || (j == n - 1 && a == r))
                }),
    {
        if !self.poller.is_disabled() {
            if self.poller.merge(cx) {
                proof {
                    let none = Set::<nat>::empty();
                    self.bias.lemma_order_complete(none);
                    let order = self.bias.order(none);
                    assert(order.len() == 0) by {
                        if order.len() > 0 {
                            assert(order.to_set().contains(order[0]));
                        }
                    }
                    assert(order.take(0).to_set() =~= none);
                    assert(none.difference(order.take(0).to_set()).intersect(self.enabled())
                        =~= none);
                    assert(dispatched::<Bits, S, T, O>(
                        old(self).callback(),
                        order,
                        none,
                        self.enabled(),
                        self.ready(),
                        Poll::Pending,
                        0,
                    ));
                    let masks = seq![self.enabled()];
                    assert(framed(masks, 0, old(self).enabled(), self.enabled()));
                    assert(old(self).ready().subset_of(none));
                    assert(none.subset_of(old(self).enabled()));
                    assert(order == old(self).bias().order(none));
                    assert(self.ready() == none);
                }
                return Poll::Pending;
            }
        }
        let ghost merged = self.ready();
        assert(self.callback() == old(self).callback());
        assert(self.bias() == old(self).bias());
        let r = self.dispatch(cx);
        proof {
            if old(self).enabled() == Set::<nat>::empty() {
                assert(self.enabled() =~= Set::<nat>::empty());
                self.bias.lemma_order_complete(merged);
                let order = self.bias.order(merged);
                if order.len() > 0 {
                    assert(order.to_set().contains(order[0]));
                }
            }
        }
        r
    }

    /// Asks the callback about the ready branches, in the order of the bias,
    /// until one gives a result.
    ///
    /// Each branch leaves the ready branches when the callback is asked
    /// about it, and whatever the callback clears in the mask it is handed
    /// is disabled for good; the callback cannot enable a branch. The first
    /// `Ready` answer is the result, and the ready branches after that one
    /// stay ready for the next poll. When every ready branch has answered
    /// `Pending`: the result is the callback's answer about `DISABLED` if no
    /// branch is left enabled; else it is `Pending`, and the continuation of
    /// `cx` is woken so that the next poll consults the shared interest set.
    ///
    /// In the contract, `n` is the number of branches visited and `masks`
    /// lists the enabled branches before the first visit and after each.
    /// The callback is handed the enabled branches as its mask, and what it
    /// leaves of them is what stays enabled: the selection disables nothing
    /// by itself.
    pub fn dispatch(&mut self, cx: &mut Context<'_>) -> (r: Poll<O>)
        requires
            accepts::<Bits, S, T, O>(old(self).callback(), old(self).enabled()),
        ensures
            final(self).callback() == old(self).callback(),
            final(self).bias() == old(self).bias(),
            final(self).shared() == old(self).shared(),
            final(self).enabled().subset_of(old(self).enabled()),
            final(self).ready().subset_of(final(self).enabled()),
            exists|n: int, masks: Seq<Set<nat>>|
                #![trigger framed(masks, n, old(self).enabled(), final(self).enabled())]
                ({
                    let order = old(self).bias().order(old(self).ready());
                    &&& framed(masks, n, old(self).enabled(), final(self).enabled())
                    &&& dispatched::<Bits, S, T, O>(
                        old(self).callback(),
                        order,
                        old(self).ready(),
                        final(self).enabled(),
                        final(self).ready(),
                        r,
                        n,
                    )
                    &&& forall|j: int|
                        #![trigger order[j]]
                        0 <= j < n ==> old(self).ready().contains(order[j]) && exists|
                            c: &mut Context<'_>,
                            s: &mut S,
                            m: &mut Snapshot<Bits>,
                            a: Poll<O>,
                        |
                            #[trigger] call_ensures(
                                old(self).callback(),
                                (c, s, m, order[j] as u32),
                                a,
                            ) && (*m)@ == masks[j] && masks[j + 1] == masks[j].intersect(
                                (*final(m))@,
                            ) && (a == Poll::<O>::Pending || (j == n - 1 && a == r))
                }),
    {
        let ready = self.poller.snapshot();
        let mut it = self.bias.apply(ready);
        let ghost order = it.remaining();
        let ghost n: int = 0;
        let ghost poll = self.poll;
        let ghost masks: Seq<Set<nat>> = seq![self.enabled()];
        proof {
            ready.lemma_bounded();
            self.bias.lemma_order_complete(ready@);
            assert(order.skip(0) =~= order);
            assert(order.take(0).to_set() =~= Set::<nat>::empty());
            assert(self.ready() =~= self.ready().difference(order.take(0).to_set()).intersect(
                self.enabled(),
            ));
            assert forall|k: int| 0 <= k < order.len() implies old(self).ready().contains(
                #[trigger] order[k],
            ) by {
                assert(order.to_set().contains(order[k]));
            }
            Bits::lemma_width();
        }
        loop
            invariant
                0 <= n <= order.len(),
                it.remaining() == order.skip(n),
                order == old(self).bias().order(old(self).ready()),
                forall|k: int| 0 <= k < order.len() ==> old(self).ready().contains(#[trigger] order[k]),
                forall|i: nat| old(self).ready().contains(i) ==> i < 128,
                old(self).ready().subset_of(old(self).enabled()),
                self.poll == poll,
                poll == old(self).callback(),
                self.bias == old(self).bias(),
                self.shared() == old(self).shared(),
                accepts::<Bits, S, T, O>(poll, old(self).enabled()),
                self.enabled().subset_of(old(self).enabled()),
                self.ready() == old(self).ready().difference(order.take(n).to_set()).intersect(
                    self.enabled(),
                ),
                forall|j: int|
                    0 <= j < n ==> answers::<Bits, S, T, O>(
                        poll,
                        #[trigger] order[j] as u32,
                        Poll::Pending,
                    ),
                framed(masks, n, old(self).enabled(), self.enabled()),
                forall|j: int|
                    #![trigger order[j]]
                    0 <= j < n ==> old(self).ready().contains(order[j]) && exists|
                        c: &mut Context<'_>,
                        s: &mut S,
                        m: &mut Snapshot<Bits>,
                        a: Poll<O>,
                    |
                        #[trigger] call_ensures(poll, (c, s, m, order[j] as u32), a)
                            && (*m)@ == masks[j]
                            && masks[j + 1] == masks[j].intersect((*final(m))@)
                            && a == Poll::<O>::Pending,
            ensures
                n == order.len(),
                self.poll == poll,
                self.bias == old(self).bias(),
                self.shared() == old(self).shared(),
                self.enabled().subset_of(old(self).enabled()),
                self.ready() == old(self).ready().difference(order.take(n).to_set()).intersect(
                    self.enabled(),
                ),
                forall|j: int|
                    0 <= j < n ==> answers::<Bits, S, T, O>(
                        poll,
                        #[trigger] order[j] as u32,
                        Poll::Pending,
                    ),
            decreases order.len() - n,
        {
            match it.next() {
                None => {
                    break ;
                },
                Some(index) => {
                    proof {
                        assert(order.skip(n)[0] == order[n]);
                        assert(order.skip(n).drop_first() =~= order.skip(n + 1));
                        assert(order.take(n + 1) =~= order.take(n).push(order[n]));
                        assert(order.take(n + 1).to_set() =~= order.take(n).to_set().insert(
                            order[n],
                        )) by {
                            vstd::seq_lib::seq_to_set_distributes_over_add(
                                order.take(n),
                                seq![order[n]],
                            );
                            assert(order.take(n).push(order[n]) =~= order.take(n) + seq![order[n]]);
                            assert(seq![order[n]].to_set() =~= Set::<nat>::empty().insert(
                                order[n],
                            )) by {
                                assert(seq![order[n]][0] == order[n]);
                            }
                        }
                    }
                    self.poller.visit(index);
                    let mut working = self.poller.mask();
                    let ghost handed = working@;
                    let answer = (self.poll)(cx, &mut self.state, &mut working, index);
                    let ghost got = answer;
                    assert(exists|
                        c: &mut Context<'_>,
                        s: &mut S,
                        m: &mut Snapshot<Bits>,
                        a: Poll<O>,
                    |
                        #[trigger] call_ensures(poll, (c, s, m, index), a) && (*m)@ == handed
                            && (*final(m))@ == working@ && a == got);
                    self.poller.restrict(working);
                    let ghost before = masks;
                    proof {
                        assert(self.ready() =~= old(self).ready().difference(
                            order.take(n + 1).to_set(),
                        ).intersect(self.enabled()));
                        assert(answers::<Bits, S, T, O>(poll, order[n] as u32, answer));
                        masks = masks.push(self.enabled());
                        n = n + 1;
                        assert(order[n - 1] as u32 == index);
                        assert(masks[n - 1] == handed);
                        assert(masks[n] == handed.intersect(working@));
                        assert forall|j: int| 0 <= j < n - 1 implies #[trigger] masks[j]
                            == before[j] && masks[j + 1] == before[j + 1] by {}
                    }
                    match answer {
                        Poll::Ready(output) => {
                            proof {
                                assert(dispatched::<Bits, S, T, O>(
                                    poll,
                                    order,
                                    old(self).ready(),
                                    self.enabled(),
                                    self.ready(),
                                    Poll::Ready(output),
                                    n,
                                ));
                                assert(got == Poll::Ready(output));
                                assert(framed(masks, n, old(self).enabled(), self.enabled()));
                            }
                            return Poll::Ready(output);
                        },
                        Poll::Pending => {},
                    }
                },
            }
        }
        if self.poller.is_disabled() {
            let mut working = self.poller.mask();
            let answer = (self.poll)(cx, &mut self.state, &mut working, DISABLED);
            proof {
                assert(answers::<Bits, S, T, O>(poll, DISABLED, answer));
                assert(dispatched::<Bits, S, T, O>(
                    poll,
                    order,
                    old(self).ready(),
                    self.enabled(),
                    self.ready(),
                    answer,
                    n,
                ));
            }
            return answer;
        }
        cx.waker().wake_by_ref();
        proof {
            assert(dispatched::<Bits, S, T, O>(
                poll,
                order,
                old(self).ready(),
                self.enabled(),
                self.ready(),
                Poll::Pending,
                n,
            ));
        }
        Poll::Pending
    }
}

} // verus!
