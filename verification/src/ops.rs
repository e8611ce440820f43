//! The set-algebra operators: `|` for union, `&` for intersection, `-`
//! for difference, `^` for symmetric difference and `!` for complement.

use crate::chunk;
use crate::set::ByteSet;
use vstd::prelude::*;

verus! {

broadcast use vstd::set::group_set_axioms;

/// The chunk-wise or of two masks.
pub open spec fn or_chunks(a: ByteSet, b: ByteSet) -> ByteSet {
    ByteSet { c0: a.c0 | b.c0, c1: a.c1 | b.c1, c2: a.c2 | b.c2, c3: a.c3 | b.c3 }
}

/// The chunk-wise and of two masks.
pub open spec fn and_chunks(a: ByteSet, b: ByteSet) -> ByteSet {
    ByteSet { c0: a.c0 & b.c0, c1: a.c1 & b.c1, c2: a.c2 & b.c2, c3: a.c3 & b.c3 }
}

/// The chunk-wise xor of two masks.
pub open spec fn xor_chunks(a: ByteSet, b: ByteSet) -> ByteSet {
    ByteSet { c0: a.c0 ^ b.c0, c1: a.c1 ^ b.c1, c2: a.c2 ^ b.c2, c3: a.c3 ^ b.c3 }
}

/// The chunk-wise complement of a mask.
pub open spec fn not_chunks(a: ByteSet) -> ByteSet {
    ByteSet { c0: !a.c0, c1: !a.c1, c2: !a.c2, c3: !a.c3 }
}

impl core::ops::BitOr for ByteSet {
    type Output = ByteSet;

    /// The union, as the `|` operator.
    fn bitor(self, rhs: ByteSet) -> (ret: ByteSet) {
        let r = self.union(rhs);
        proof {
            let sv = or_chunks(self, rhs);
            assert forall|b: u8| sv.spec_contains(b) == (self.spec_contains(b)
                || rhs.spec_contains(b)) by {
                chunk::lemma_word_pairwise(
                    self.spec_chunk(b as int / 64),
                    rhs.spec_chunk(b as int / 64),
                );
            }
            assert(sv@ =~= self@.union(rhs@));
            crate::set::lemma_view_ext(r, sv);
        }
        r
    }
}

impl vstd::std_specs::ops::BitOrSpecImpl for ByteSet {
    open spec fn obeys_bitor_spec() -> bool {
        true
    }

    open spec fn bitor_req(self, rhs: ByteSet) -> bool {
        true
    }

    open spec fn bitor_spec(self, rhs: ByteSet) -> ByteSet {
        or_chunks(self, rhs)
    }
}

impl core::ops::BitAnd for ByteSet {
    type Output = ByteSet;

    /// The intersection, as the `&` operator.
    fn bitand(self, rhs: ByteSet) -> (ret: ByteSet) {
        let r = self.intersection(rhs);
        proof {
            let sv = and_chunks(self, rhs);
            assert forall|b: u8| sv.spec_contains(b) == (self.spec_contains(b)
                && rhs.spec_contains(b)) by {
                chunk::lemma_word_pairwise(
                    self.spec_chunk(b as int / 64),
                    rhs.spec_chunk(b as int / 64),
                );
            }
            assert(sv@ =~= self@.intersect(rhs@));
            crate::set::lemma_view_ext(r, sv);
        }
        r
    }
}

impl vstd::std_specs::ops::BitAndSpecImpl for ByteSet {
    open spec fn obeys_bitand_spec() -> bool {
        true
    }

    open spec fn bitand_req(self, rhs: ByteSet) -> bool {
        true
    }

    open spec fn bitand_spec(self, rhs: ByteSet) -> ByteSet {
        and_chunks(self, rhs)
    }
}

impl core::ops::BitXor for ByteSet {
    type Output = ByteSet;

    /// The symmetric difference, as the `^` operator.
    fn bitxor(self, rhs: ByteSet) -> (ret: ByteSet) {
        let r = self.symmetric_difference(rhs);
        proof {
            let sv = xor_chunks(self, rhs);
            assert forall|b: u8| sv.spec_contains(b) == (self.spec_contains(b)
                != rhs.spec_contains(b)) by {
                chunk::lemma_word_pairwise(
                    self.spec_chunk(b as int / 64),
                    rhs.spec_chunk(b as int / 64),
                );
            }
            assert(sv@ =~= self@.union(rhs@).difference(self@.intersect(rhs@)));
            crate::set::lemma_view_ext(r, sv);
        }
        r
    }
}

impl vstd::std_specs::ops::BitXorSpecImpl for ByteSet {
    open spec fn obeys_bitxor_spec() -> bool {
        true
    }

    open spec fn bitxor_req(self, rhs: ByteSet) -> bool {
        true
    }

    open spec fn bitxor_spec(self, rhs: ByteSet) -> ByteSet {
        xor_chunks(self, rhs)
    }
}

impl core::ops::Sub for ByteSet {
    type Output = ByteSet;

    /// The difference, as the `-` operator.
    fn sub(self, rhs: ByteSet) -> (ret: ByteSet) {
        let r = self.difference(rhs);
        proof {
            let sv = and_chunks(self, not_chunks(rhs));
            assert forall|b: u8| sv.spec_contains(b) == (self.spec_contains(b)
                && !rhs.spec_contains(b)) by {
                chunk::lemma_word_pairwise(
                    rhs.spec_chunk(b as int / 64),
                    rhs.spec_chunk(b as int / 64),
                );
                chunk::lemma_word_pairwise(
                    self.spec_chunk(b as int / 64),
                    not_chunks(rhs).spec_chunk(b as int / 64),
                );
            }
            assert(sv@ =~= self@.difference(rhs@));
            crate::set::lemma_view_ext(r, sv);
        }
        r
    }
}

impl vstd::std_specs::ops::SubSpecImpl for ByteSet {
    open spec fn obeys_sub_spec() -> bool {
        true
    }

    open spec fn sub_req(self, rhs: ByteSet) -> bool {
        true
    }

    open spec fn sub_spec(self, rhs: ByteSet) -> ByteSet {
        and_chunks(self, not_chunks(rhs))
    }
}

impl core::ops::Not for ByteSet {
    type Output = ByteSet;

    /// The complement, as the `!` operator.
    fn not(self) -> (ret: ByteSet) {
        let r = ByteSet::not(self);
        proof {
            let sv = not_chunks(self);
            assert forall|b: u8| sv.spec_contains(b) == !self.spec_contains(b) by {
                chunk::lemma_word_pairwise(
                    self.spec_chunk(b as int / 64),
                    self.spec_chunk(b as int / 64),
                );
            }
            assert(sv@ =~= self@.complement());
            crate::set::lemma_view_ext(r, sv);
        }
        r
    }
}

impl vstd::std_specs::ops::NotSpecImpl for ByteSet {
    open spec fn obeys_not_spec() -> bool {
        true
    }

    open spec fn not_req(self) -> bool {
        true
    }

    open spec fn not_spec(self) -> ByteSet {
        not_chunks(self)
    }
}

} // verus!
