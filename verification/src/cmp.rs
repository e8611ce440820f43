//! Ordering of byte sets.
//!
//! Sets are ordered lexicographically by their raw byte representation
//! (see [`ByteSet::spec_raw_byte`]). This is a total order over the bit
//! pattern, meant for speed and for use as a sorted-map key; it is not a
//! subset-like order on the set contents.

use crate::set::ByteSet;
use core::cmp::Ordering;
use vstd::prelude::*;

verus! {

/// The lexicographic comparison of the raw bytes of `a` and `b`, from
/// byte `k` on.
pub open spec fn raw_cmp_from(a: ByteSet, b: ByteSet, k: int) -> Ordering
    decreases 32 - k,
{
    if k < 0 || k >= 32 {
        Ordering::Equal
    } else if a.spec_raw_byte(k) < b.spec_raw_byte(k) {
        Ordering::Less
    } else if a.spec_raw_byte(k) > b.spec_raw_byte(k) {
        Ordering::Greater
    } else {
        raw_cmp_from(a, b, k + 1)
    }
}

impl PartialOrd for ByteSet {
    /// Compares the raw byte representations lexicographically.
    fn partial_cmp(&self, other: &ByteSet) -> (r: Option<Ordering>) {
        let mut k: usize = 0;
        while k < 32
            invariant
                k <= 32,
                raw_cmp_from(*self, *other, 0) == raw_cmp_from(*self, *other, k as int),
            decreases 32 - k,
        {
            let a = self.raw_byte(k);
            let b = other.raw_byte(k);
            if a < b {
                return Some(Ordering::Less);
            }
            if a > b {
                return Some(Ordering::Greater);
            }
            k = k + 1;
        }
        Some(Ordering::Equal)
    }
}

impl vstd::std_specs::cmp::PartialOrdSpecImpl for ByteSet {
    open spec fn obeys_partial_cmp_spec() -> bool {
        true
    }

    open spec fn partial_cmp_spec(&self, other: &ByteSet) -> Option<Ordering> {
        Some(raw_cmp_from(*self, *other, 0))
    }
}

impl Default for ByteSet {
    /// The empty set.
    fn default() -> (r: ByteSet)
        ensures
            r@ == Set::<u8>::empty(),
    {
        ByteSet::new()
    }
}

} // verus!
