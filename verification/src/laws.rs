//! The general laws of the set algebra, stated over the views that the
//! operation contracts use.

use crate::set::ByteSet;
use vstd::prelude::*;
use vstd::set_lib::lemma_len_subset;

verus! {

broadcast use vstd::set::group_set_axioms;

/// A set is empty exactly when it has no members, and full exactly when
/// it has all 256; sizes tie emptiness and fullness to `len`.
pub proof fn lemma_len_characterizes_extremes(s: ByteSet)
    ensures
        (s@ == Set::<u8>::empty()) <==> (s@.len() == 0),
        (s@ == Set::<u8>::full()) <==> (s@.len() == 256),
{
    ByteSet::lemma_card(s);
    let f = ByteSet {
        c0: 0xffff_ffff_ffff_ffffu64,
        c1: 0xffff_ffff_ffff_ffffu64,
        c2: 0xffff_ffff_ffff_ffffu64,
        c3: 0xffff_ffff_ffff_ffffu64,
    };
    crate::chunk::lemma_word_extremes();
    assert(f@ =~= Set::<u8>::full());
    ByteSet::lemma_card(f);
    lemma_full_count(f, 256);
    assert(Set::<u8>::full().len() == 256);

    if s@.len() == 0 {
        s@.lemma_len0_is_empty();
    }
    if s@ == Set::<u8>::empty() {
        assert(s@.len() == 0);
    }
    if s@ == Set::<u8>::full() {
        assert(s@.len() == 256);
    }
    if s@.len() == 256 && s@ != Set::<u8>::full() {
        assert(!(s@ =~= Set::<u8>::full()));
        let b = choose|b: u8| s@.contains(b) != Set::<u8>::full().contains(b);
        assert(!s@.contains(b));
        assert(s@.subset_of(Set::<u8>::full().remove(b)));
        lemma_len_subset(s@, Set::<u8>::full().remove(b));
        assert(false);
    }
}

/// Every member of an everything-containing set counts, one per byte
/// value.
proof fn lemma_full_count(f: ByteSet, n: int)
    requires
        forall|b: u8| f.spec_contains(b),
        0 <= n <= 256,
    ensures
        f.count_below(n) == n,
    decreases n,
{
    if n > 0 {
        lemma_full_count(f, n - 1);
    }
}

/// Inserting a byte into the empty set makes it a member; removing a
/// byte from the full set takes it out.
pub proof fn lemma_single_byte_round_trip(b: u8)
    ensures
        Set::<u8>::empty().insert(b).contains(b),
        !Set::<u8>::full().remove(b).contains(b),
{
}

/// Inserting or removing the same byte twice is the same as doing it
/// once.
pub proof fn lemma_idempotent(s: ByteSet, b: u8)
    ensures
        s@.insert(b).insert(b) == s@.insert(b),
        s@.remove(b).remove(b) == s@.remove(b),
{
    assert(s@.insert(b).insert(b) =~= s@.insert(b));
    assert(s@.remove(b).remove(b) =~= s@.remove(b));
}

/// De Morgan and the difference laws: the complement of a union is the
/// intersection of the complements; difference is intersection with the
/// complement; and the two classical forms of the symmetric difference
/// agree.
pub proof fn lemma_algebra(a: ByteSet, b: ByteSet)
    ensures
        a@.union(b@).complement() == a@.complement().intersect(b@.complement()),
        a@.difference(b@) == a@.intersect(b@.complement()),
        a@.union(b@).difference(a@.intersect(b@)) == a@.difference(b@).union(b@.difference(a@)),
{
    assert(a@.union(b@).complement() =~= a@.complement().intersect(b@.complement()));
    assert(a@.difference(b@) =~= a@.intersect(b@.complement()));
    assert(a@.union(b@).difference(a@.intersect(b@)) =~= a@.difference(b@).union(
        b@.difference(a@),
    ));
}

/// A set is a subset of another exactly when intersecting leaves it
/// unchanged; with the contracts of `eq` and `is_subset` this carries
/// the strict forms too.
pub proof fn lemma_subset_consistency(a: ByteSet, b: ByteSet)
    ensures
        a@.subset_of(b@) <==> (a@.intersect(b@) == a@),
{
    if a@.subset_of(b@) {
        assert(a@.intersect(b@) =~= a@);
    }
}

/// Reversing the bit order twice gives back the original set: the two
/// parameters stand for the results of one and two reversals, pinned by
/// the contract of `reverse_bits`.
pub proof fn lemma_reverse_involution(s: ByteSet, r1: ByteSet, r2: ByteSet)
    requires
        forall|b: u8| #[trigger] r1@.contains(b) == s@.contains((255 - b) as u8),
        forall|b: u8| #[trigger] r2@.contains(b) == r1@.contains((255 - b) as u8),
    ensures
        r2@ == s@,
{
    assert forall|b: u8| r2@.contains(b) == s@.contains(b) by {
        assert(r2@.contains(b) == r1@.contains((255 - b) as u8));
        assert(r1@.contains((255 - b) as u8) == s@.contains(b));
    }
    assert(r2@ =~= s@);
}

/// The members of `s` that are below `n`, listed in ascending order.
pub open spec fn ascending_up_to(s: Set<u8>, n: int) -> Seq<u8>
    decreases n,
{
    if n <= 0 {
        Seq::empty()
    } else {
        ascending_up_to(s, n - 1) + if s.contains((n - 1) as u8) {
            seq![(n - 1) as u8]
        } else {
            Seq::empty()
        }
    }
}

/// The members of `s` that are below `n`, listed in descending order.
pub open spec fn descending_up_to(s: Set<u8>, n: int) -> Seq<u8>
    decreases n,
{
    if n <= 0 {
        Seq::empty()
    } else {
        (if s.contains((n - 1) as u8) {
            seq![(n - 1) as u8]
        } else {
            Seq::empty()
        }) + descending_up_to(s, n - 1)
    }
}

/// Reversing a concatenation swaps and reverses the parts.
proof fn lemma_reverse_append(a: Seq<u8>, b: Seq<u8>)
    ensures
        (a + b).reverse() == b.reverse() + a.reverse(),
{
    assert((a + b).reverse() =~= b.reverse() + a.reverse());
}

/// Walking the members downward lists them in exactly the reverse of
/// the upward order, so backward iteration yields the reversed forward
/// sequence.
pub proof fn lemma_descending_is_reversed_ascending(s: Set<u8>, n: int)
    requires
        0 <= n <= 256,
    ensures
        descending_up_to(s, n) == ascending_up_to(s, n).reverse(),
    decreases n,
{
    if n == 0 {
        assert(ascending_up_to(s, 0).reverse() =~= Seq::<u8>::empty());
    } else {
        lemma_descending_is_reversed_ascending(s, n - 1);
        let tail = if s.contains((n - 1) as u8) {
            seq![(n - 1) as u8]
        } else {
            Seq::<u8>::empty()
        };
        lemma_reverse_append(ascending_up_to(s, n - 1), tail);
        assert(tail.reverse() =~= tail);
    }
}

/// The full set lists every byte value in order.
pub proof fn lemma_full_ascending(s: Set<u8>, n: int)
    requires
        forall|b: u8| s.contains(b),
        0 <= n <= 256,
    ensures
        ascending_up_to(s, n) == Seq::new(n as nat, |i: int| i as u8),
    decreases n,
{
    if n > 0 {
        lemma_full_ascending(s, n - 1);
        assert(ascending_up_to(s, n) =~= Seq::new(n as nat, |i: int| i as u8));
    }
}

/// A set all of whose members are at or above `n` has nothing to list
/// below `n`.
proof fn lemma_ascending_empty_below(s: Set<u8>, n: int)
    requires
        0 <= n,
        forall|x: u8| s.contains(x) ==> n <= x,
    ensures
        ascending_up_to(s, n) == Seq::<u8>::empty(),
    decreases n,
{
    if n > 0 {
        lemma_ascending_empty_below(s, n - 1);
        assert(ascending_up_to(s, n) =~= Seq::<u8>::empty());
    }
}

/// Two sets with the same members below `n` list the same descending
/// sequence up to `n`.
proof fn lemma_descending_agree(s1: Set<u8>, s2: Set<u8>, n: int)
    requires
        0 <= n,
        forall|x: u8| x < n ==> s1.contains(x) == s2.contains(x),
    ensures
        descending_up_to(s1, n) == descending_up_to(s2, n),
    decreases n,
{
    if n > 0 {
        lemma_descending_agree(s1, s2, n - 1);
    }
}

/// The descending listing starts with the greatest member and goes on
/// with the listing of the rest: repeatedly taking the greatest member,
/// as backward iteration does, enumerates the descending order.
pub proof fn lemma_descending_head(s: Set<u8>, b: u8, n: int)
    requires
        s.contains(b),
        forall|x: u8| s.contains(x) ==> x <= b,
        b < n <= 256,
    ensures
        descending_up_to(s, n) == seq![b] + descending_up_to(s.remove(b), n),
    decreases n,
{
    if n == b + 1 {
        lemma_descending_agree(s, s.remove(b), b as int);
        assert(descending_up_to(s, n) =~= seq![b] + descending_up_to(s.remove(b), n));
    } else {
        lemma_descending_head(s, b, n - 1);
        assert(descending_up_to(s, n) =~= seq![b] + descending_up_to(s.remove(b), n));
    }
}

/// The ascending listing starts with the least member and goes on with
/// the listing of the rest: repeatedly taking the least member, as the
/// iterator does, enumerates the ascending order.
pub proof fn lemma_ascending_head(s: Set<u8>, b: u8, n: int)
    requires
        s.contains(b),
        forall|x: u8| s.contains(x) ==> b <= x,
        b < n <= 256,
    ensures
        ascending_up_to(s, n) == seq![b] + ascending_up_to(s.remove(b), n),
    decreases n,
{
    if n == b + 1 {
        lemma_ascending_empty_below(s, b as int);
        assert forall|x: u8| s.remove(b).contains(x) implies b + 1 <= x by {}
        lemma_ascending_empty_below(s.remove(b), b + 1);
        assert(ascending_up_to(s, n) =~= seq![b] + ascending_up_to(s.remove(b), n));
    } else {
        lemma_ascending_head(s, b, n - 1);
        assert(ascending_up_to(s, n) =~= seq![b] + ascending_up_to(s.remove(b), n));
    }
}

} // verus!
