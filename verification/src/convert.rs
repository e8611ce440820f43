//! Building sets from slices of bytes.

use crate::set::ByteSet;
use vstd::prelude::*;

verus! {

broadcast use vstd::set::group_set_axioms;

/// The bytes that occur in `s`, as a set.
pub open spec fn slice_members(s: Seq<u8>) -> Set<u8> {
    Set::new(|b: u8| s.contains(b))
}

impl ByteSet {
    /// Inserts every byte of `bytes` into `self` in-place.
    pub fn extend(&mut self, bytes: &[u8])
        ensures
            final(self)@ == old(self)@.union(slice_members(bytes@)),
    {
        let ghost all = bytes@;
        let mut k: usize = 0;
        while k < bytes.len()
            invariant
                k <= all.len(),
                all == bytes@,
                self@ == old(self)@.union(slice_members(all.take(k as int))),
            decreases bytes@.len() - k,
        {
            let b = bytes[k];
            self.insert(b);
            proof {
                lemma_take_members(all, k as int);
                assert(self@ =~= old(self)@.union(slice_members(all.take(k + 1))));
            }
            k = k + 1;
        }
        proof {
            assert(all.take(all.len() as int) =~= all);
        }
    }

    /// Returns the set of all bytes that occur in `bytes`.
    pub fn from_slice(bytes: &[u8]) -> (r: ByteSet)
        ensures
            r@ == slice_members(bytes@),
    {
        let mut r = ByteSet::new();
        r.extend(bytes);
        proof {
            assert(r@ =~= slice_members(bytes@));
        }
        r
    }
}

/// Taking one more element of a sequence adds exactly that element to the
/// set of bytes occurring in the prefix.
proof fn lemma_take_members(s: Seq<u8>, k: int)
    requires
        0 <= k < s.len(),
    ensures
        slice_members(s.take(k + 1)) =~= slice_members(s.take(k)).insert(s[k]),
{
    assert forall|b: u8|
        slice_members(s.take(k + 1)).contains(b) == slice_members(s.take(k)).insert(
            s[k],
        ).contains(b) by {
        if s.take(k).contains(b) {
            let idx = choose|idx: int| 0 <= idx < k && #[trigger] s.take(k)[idx] == b;
            assert(s.take(k + 1)[idx] == b);
            assert(s.take(k + 1).contains(b));
        }
        if b == s[k] {
            assert(s.take(k + 1)[k] == b);
            assert(s.take(k + 1).contains(b));
        }
        if s.take(k + 1).contains(b) {
            let idx = choose|idx: int| 0 <= idx < k + 1 && #[trigger] s.take(k + 1)[idx] == b;
            if idx < k {
                assert(s.take(k)[idx] == b);
                assert(s.take(k).contains(b));
            } else {
                assert(b == s[k]);
            }
        }
    }
}

} // verus!
