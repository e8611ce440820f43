//! Conversion from a single byte: `ByteSet::from(b)` is the singleton
//! set.

use crate::chunk;
use crate::set::ByteSet;
use vstd::prelude::*;

verus! {

broadcast use vstd::set::group_set_axioms;

/// The mask holding exactly the bit of `b`.
pub open spec fn singleton_chunks(b: u8) -> ByteSet {
    ByteSet {
        c0: if b as int / 64 == 0 {
            1u64 << (b as u64 % 64)
        } else {
            0u64
        },
        c1: if b as int / 64 == 1 {
            1u64 << (b as u64 % 64)
        } else {
            0u64
        },
        c2: if b as int / 64 == 2 {
            1u64 << (b as u64 % 64)
        } else {
            0u64
        },
        c3: if b as int / 64 == 3 {
            1u64 << (b as u64 % 64)
        } else {
            0u64
        },
    }
}

impl From<u8> for ByteSet {
    /// The singleton set holding `byte`.
    fn from(byte: u8) -> (ret: ByteSet) {
        let r = ByteSet::from_byte(byte);
        proof {
            let sv = singleton_chunks(byte);
            chunk::lemma_word_extremes();
            chunk::lemma_set_bit(0u64, byte as u64 % 64);
            assert(0u64 | (1u64 << (byte as u64 % 64)) == (1u64 << (byte as u64 % 64)))
                by (bit_vector);
            assert forall|x: u8| sv.spec_contains(x) == Set::<u8>::empty().insert(byte).contains(
                x,
            ) by {
                if x as int / 64 == byte as int / 64 && x as u64 % 64 == byte as u64 % 64 {
                    ByteSet::lemma_index_shift_unique(x, byte);
                }
            }
            assert(sv@ =~= Set::<u8>::empty().insert(byte));
            crate::set::lemma_view_ext(r, sv);
        }
        r
    }
}

impl vstd::std_specs::convert::FromSpecImpl<u8> for ByteSet {
    open spec fn obeys_from_spec() -> bool {
        true
    }

    open spec fn from_spec(byte: u8) -> ByteSet {
        singleton_chunks(byte)
    }
}

} // verus!
