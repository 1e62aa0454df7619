//! The order in which the members of a ready set are visited.

use vstd::prelude::*;
use crate::number::rotated;

verus! {

/// The predicate "is a member of `members`".
pub open spec fn member_of(members: Set<nat>) -> spec_fn(nat) -> bool {
    |i: nat| members.contains(i)
}

/// The function that rotates an index by `offset` in a word of `width` bits.
pub open spec fn rotate_by(offset: nat, width: nat) -> spec_fn(nat) -> nat {
    |i: nat| rotated(i, offset, width)
}

/// All indices below `width`: first `offset` (wrapped into range), then its
/// successors, wrapping around at `width`.
pub open spec fn rotation(width: nat, offset: nat) -> Seq<nat> {
    Seq::new(width, |k: int| rotated(k as nat, offset, width))
}

/// The members of `members` in the order in which `rotation(width, offset)`
/// lists them.
pub open spec fn visit_order(members: Set<nat>, width: nat, offset: nat) -> Seq<nat> {
    rotation(width, offset).filter(member_of(members))
}

/// The members of `members` from the lowest to the highest.
pub open spec fn ascending(members: Set<nat>, width: nat) -> Seq<nat> {
    visit_order(members, width, 0)
}

/// Whether every member of `members` is below `width`.
pub open spec fn bounded(members: Set<nat>, width: nat) -> bool {
    forall|i: nat| members.contains(i) ==> i < width
}

/// Two predicates that agree on the elements of a sequence keep the same
/// elements of it.
pub proof fn lemma_filter_agree(s: Seq<nat>, p: spec_fn(nat) -> bool, q: spec_fn(nat) -> bool)
    requires
        forall|i: int| 0 <= i < s.len() ==> p(s[i]) == q(s[i]),
    ensures
        s.filter(p) == s.filter(q),
    decreases s.len(),
{
    reveal(Seq::filter);
    if s.len() > 0 {
        let rest = s.drop_last();
        assert forall|i: int| 0 <= i < rest.len() implies p(rest[i]) == q(rest[i]) by {
            assert(rest[i] == s[i]);
        }
        lemma_filter_agree(rest, p, q);
    }
}

/// A sequence none of whose elements satisfies the predicate is filtered to
/// nothing.
pub proof fn lemma_filter_none(s: Seq<nat>, p: spec_fn(nat) -> bool)
    requires
        forall|i: int| 0 <= i < s.len() ==> !p(s[i]),
    ensures
        s.filter(p) == Seq::<nat>::empty(),
    decreases s.len(),
{
    reveal(Seq::filter);
    if s.len() > 0 {
        let rest = s.drop_last();
        assert forall|i: int| 0 <= i < rest.len() implies !p(rest[i]) by {
            assert(rest[i] == s[i]);
        }
        lemma_filter_none(rest, p);
    } else {
        assert(s =~= Seq::<nat>::empty());
    }
}

/// Filtering the image of a sequence is the image of filtering the sequence
/// by the composed predicate.
pub proof fn lemma_filter_of_image(
    s: Seq<nat>,
    f: spec_fn(nat) -> nat,
    p: spec_fn(nat) -> bool,
    q: spec_fn(nat) -> bool,
)
    requires
        forall|i: int| 0 <= i < s.len() ==> q(s[i]) == p(f(s[i])),
    ensures
        s.map_values(f).filter(p) == s.filter(q).map_values(f),
    decreases s.len(),
{
    reveal(Seq::filter);
    if s.len() == 0 {
        assert(s.map_values(f) =~= Seq::<nat>::empty());
        assert(s.filter(q).map_values(f) =~= Seq::<nat>::empty());
    } else {
        let rest = s.drop_last();
        assert forall|i: int| 0 <= i < rest.len() implies q(rest[i]) == p(f(rest[i])) by {
            assert(rest[i] == s[i]);
        }
        lemma_filter_of_image(rest, f, p, q);
        assert(s.map_values(f).drop_last() =~= rest.map_values(f));
        assert(s.map_values(f).last() == f(s.last()));
        if q(s.last()) {
            assert(rest.filter(q).push(s.last()).map_values(f) =~= rest.filter(q).map_values(
                f,
            ).push(f(s.last())));
        }
    }
}

/// A filtered sequence holds exactly the elements of the sequence that
/// satisfy the predicate, and no element twice if the sequence held none
/// twice.
pub proof fn lemma_filter_exact(s: Seq<nat>, p: spec_fn(nat) -> bool)
    ensures
        forall|x: nat| #[trigger] s.filter(p).contains(x) ==> s.contains(x) && p(x),
        forall|x: nat| #[trigger] s.contains(x) && p(x) ==> s.filter(p).contains(x),
        s.no_duplicates() ==> s.filter(p).no_duplicates(),
    decreases s.len(),
{
    reveal(Seq::filter);
    let out = s.filter(p);
    if s.len() == 0 {
    } else {
        let rest = s.drop_last();
        let last = s.last();
        let sub = rest.filter(p);
        lemma_filter_exact(rest, p);
        assert forall|x: nat| (#[trigger] out.contains(x) ==> s.contains(x) && p(x)) && (
        #[trigger] s.contains(x) && p(x) ==> out.contains(x)) by {
            if out.contains(x) {
                let j = choose|j: int| 0 <= j < out.len() && out[j] == x;
                if p(last) && j == out.len() - 1 {
                    assert(s[s.len() - 1] == x);
                } else {
                    assert(sub[j] == x);
                    assert(sub.contains(x));
                    let k = choose|k: int| 0 <= k < rest.len() && rest[k] == x;
                    assert(s[k] == x);
                }
            }
            if s.contains(x) && p(x) {
                let k = choose|k: int| 0 <= k < s.len() && s[k] == x;
                if k == s.len() - 1 {
                    assert(out[out.len() - 1] == x);
                } else {
                    assert(rest[k] == x);
                    assert(rest.contains(x));
                    let j = choose|j: int| 0 <= j < sub.len() && sub[j] == x;
                    assert(out[j] == x);
                }
            }
        }
        if s.no_duplicates() {
            assert(rest.no_duplicates());
            if p(last) {
                assert forall|i: int, j: int|
                    0 <= i < out.len() && 0 <= j < out.len() && i != j implies out[i] != out[j] by {
                    if i == out.len() - 1 || j == out.len() - 1 {
                        let other = if i == out.len() - 1 {
                            j
                        } else {
                            i
                        };
                        assert(sub[other] == out[other]);
                        assert(sub.contains(out[other]));
                        assert(rest.contains(out[other]));
                        let k = choose|k: int| 0 <= k < rest.len() && rest[k] == out[other];
                        assert(s[k] == out[other]);
                        assert(s[s.len() - 1] == last);
                    }
                }
            }
        }
    }
}

/// A rotation lists every index below the width exactly once.
pub proof fn lemma_rotation_permutes(width: nat, offset: nat)
    requires
        width > 0,
    ensures
        rotation(width, offset).no_duplicates(),
        forall|i: nat| rotation(width, offset).contains(i) <==> i < width,
{
    let r = rotation(width, offset);
    assert forall|a: int, b: int| 0 <= a < r.len() && 0 <= b < r.len() && a != b implies r[a]
        != r[b] by {
        if r[a] == r[b] {
            lemma_rotated_injective(a as nat, b as nat, offset, width);
        }
    }
    assert forall|i: nat| r.contains(i) <==> i < width by {
        if i < width {
            let k = lemma_rotated_onto(i, offset, width);
            assert(r[k as int] == i);
        }
        if r.contains(i) {
            let k = choose|k: int| 0 <= k < r.len() && r[k] == i;
            assert(r[k] == rotated(k as nat, offset, width));
        }
    }
}

/// Two positions below the width that rotate to the same index are equal.
pub proof fn lemma_rotated_injective(a: nat, b: nat, offset: nat, width: nat)
    requires
        a < width,
        b < width,
        rotated(a, offset, width) == rotated(b, offset, width),
    ensures
        a == b,
{
    let m = offset % width;
    vstd::arithmetic::div_mod::lemma_add_mod_noop_right(a as int, offset as int, width as int);
    vstd::arithmetic::div_mod::lemma_add_mod_noop_right(b as int, offset as int, width as int);
    lemma_wrap(a, m, width);
    lemma_wrap(b, m, width);
}

/// The sum of two numbers below the width, reduced modulo the width.
pub proof fn lemma_wrap(a: nat, m: nat, width: nat)
    requires
        a < width,
        m < width,
    ensures
        (a + m) % width == if a + m < width {
            a + m
        } else {
            (a + m - width) as nat
        },
{
    if a + m < width {
        vstd::arithmetic::div_mod::lemma_small_mod(a + m, width);
    } else {
        vstd::arithmetic::div_mod::lemma_mod_sub_multiples_vanish((a + m) as int, width as int);
        vstd::arithmetic::div_mod::lemma_small_mod((a + m - width) as nat, width);
    }
}

/// Every index below the width is the image of a position below the width.
pub proof fn lemma_rotated_onto(i: nat, offset: nat, width: nat) -> (k: nat)
    requires
        i < width,
    ensures
        k < width,
        rotated(k, offset, width) == i,
{
    let m = offset % width;
    let k: nat = if i >= m {
        (i - m) as nat
    } else {
        (i + width - m) as nat
    };
    vstd::arithmetic::div_mod::lemma_add_mod_noop_right(k as int, offset as int, width as int);
    lemma_wrap(k, m, width);
    k
}

/// Whatever the starting point, every member of a bounded set is visited,
/// and none twice.
pub proof fn lemma_visit_order_complete(members: Set<nat>, width: nat, offset: nat)
    requires
        width > 0,
        bounded(members, width),
    ensures
        visit_order(members, width, offset).no_duplicates(),
        visit_order(members, width, offset).to_set() == members,
{
    lemma_rotation_permutes(width, offset);
    let all = rotation(width, offset);
    lemma_filter_exact(all, member_of(members));
    assert forall|i: nat| members.contains(i) implies all.filter(member_of(members)).contains(i) by {
        assert(all.contains(i));
    }
    assert(visit_order(members, width, offset).to_set() =~= members);
}

/// Nothing is visited in an empty set.
pub proof fn lemma_visit_order_empty(width: nat, offset: nat)
    ensures
        visit_order(Set::<nat>::empty(), width, offset) == Seq::<nat>::empty(),
{
    lemma_filter_none(rotation(width, offset), member_of(Set::<nat>::empty()));
}

/// The ascending order of a set starts with its lowest member and goes on
/// with the ascending order of the others.
pub proof fn lemma_ascending_first(members: Set<nat>, width: nat, lowest: nat)
    requires
        lowest < width,
        members.contains(lowest),
        forall|i: nat| members.contains(i) ==> lowest <= i,
    ensures
        ascending(members, width) == seq![lowest] + ascending(members.remove(lowest), width),
        ascending(members, width).len() > 0,
        ascending(members, width)[0] == lowest,
        ascending(members, width).drop_first() == ascending(members.remove(lowest), width),
{
    let all = rotation(width, 0);
    let p = member_of(members);
    let q = member_of(members.remove(lowest));
    let below = all.take(lowest as int);
    let at = seq![lowest];
    let above = all.skip((lowest + 1) as int);
    assert forall|k: int| 0 <= k < all.len() implies all[k] == k by {
        vstd::arithmetic::div_mod::lemma_small_mod(k as nat, width);
    }
    assert(all =~= below + at + above);
    Seq::filter_distributes_over_add(below + at, above, p);
    Seq::filter_distributes_over_add(below, at, p);
    Seq::filter_distributes_over_add(below + at, above, q);
    Seq::filter_distributes_over_add(below, at, q);
    lemma_filter_none(below, p);
    lemma_filter_none(below, q);
    lemma_filter_none(at, q);
    lemma_filter_agree(above, p, q);
    assert(at.filter(p) == at) by {
        reveal(Seq::filter);
        assert(at.drop_last() =~= Seq::<nat>::empty());
        lemma_filter_none(at.drop_last(), p);
        assert(Seq::<nat>::empty().push(lowest) =~= at);
    }
    assert(ascending(members, width) =~= at + above.filter(q));
    assert(ascending(members.remove(lowest), width) =~= above.filter(q));
    assert((at + above.filter(q)).drop_first() =~= above.filter(q));
}

/// Visiting a set from `offset` on is visiting in ascending order the set
/// rotated right by `offset`, and rotating each index left again.
pub proof fn lemma_visit_order_rotated(
    members: Set<nat>,
    turned: Set<nat>,
    width: nat,
    offset: nat,
)
    requires
        width > 0,
        forall|i: nat| i < width ==> (turned.contains(i) <==> members.contains(rotated(i, offset, width))),
    ensures
        visit_order(members, width, offset) == ascending(turned, width).map_values(
            rotate_by(offset, width),
        ),
{
    let all = rotation(width, 0);
    let f = rotate_by(offset, width);
    assert forall|k: int| 0 <= k < all.len() implies all[k] == k by {
        vstd::arithmetic::div_mod::lemma_small_mod(k as nat, width);
    }
    assert(rotation(width, offset) =~= all.map_values(f));
    lemma_filter_of_image(all, f, member_of(members), member_of(turned));
}

/// The position at which `rotation(width, offset)` lists `index`.
pub open spec fn rank(index: nat, offset: nat, width: nat) -> nat {
    ((index + width - offset % width) % (width as int)) as nat
}

/// The rank of an index below the width is the position at which the
/// rotation lists it.
pub proof fn lemma_rank(index: nat, offset: nat, width: nat)
    requires
        index < width,
    ensures
        rank(index, offset, width) < width,
        rotated(rank(index, offset, width), offset, width) == index,
        rotation(width, offset)[rank(index, offset, width) as int] == index,
{
    let m = offset % width;
    let r: nat = if index >= m {
        (index - m) as nat
    } else {
        (index + width - m) as nat
    };
    if index >= m {
        vstd::arithmetic::div_mod::lemma_mod_sub_multiples_vanish(
            (index + width - m) as int,
            width as int,
        );
        vstd::arithmetic::div_mod::lemma_small_mod(r, width);
    } else {
        vstd::arithmetic::div_mod::lemma_small_mod(r, width);
    }
    assert(rank(index, offset, width) == r);
    vstd::arithmetic::div_mod::lemma_add_mod_noop_right(r as int, offset as int, width as int);
    lemma_wrap(r, m, width);
}

/// A visit begins with the member of the lowest rank and goes on with the
/// visit of the others.
pub proof fn lemma_visit_order_first(members: Set<nat>, width: nat, offset: nat, first: nat)
    requires
        bounded(members, width),
        members.contains(first),
        forall|i: nat|
            members.contains(i) ==> rank(first, offset, width) <= rank(i, offset, width),
    ensures
        visit_order(members, width, offset) == seq![first] + visit_order(
            members.remove(first),
            width,
            offset,
        ),
{
    let f = rotate_by(offset, width);
    let turned = Set::new(|j: nat| j < width && members.contains(rotated(j, offset, width)));
    let lowest = rank(first, offset, width);
    let rest = Set::new(
        |j: nat| j < width && members.remove(first).contains(rotated(j, offset, width)),
    );
    lemma_rank(first, offset, width);
    lemma_visit_order_rotated(members, turned, width, offset);
    lemma_visit_order_rotated(members.remove(first), rest, width, offset);
    assert forall|j: nat| turned.contains(j) implies lowest <= j by {
        lemma_rank(rotated(j, offset, width), offset, width);
        lemma_rotated_injective(j, rank(rotated(j, offset, width), offset, width), offset, width);
    }
    assert(rest =~= turned.remove(lowest)) by {
        assert forall|j: nat| rest.contains(j) <==> turned.remove(lowest).contains(j) by {
            if j < width && rotated(j, offset, width) == first {
                lemma_rotated_injective(j, lowest, offset, width);
            }
        }
    }
    lemma_ascending_first(turned, width, lowest);
    assert((seq![lowest] + ascending(rest, width)).map_values(f) =~= seq![first] + ascending(
        rest,
        width,
    ).map_values(f));
}

} // verus!
