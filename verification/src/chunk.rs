//! Operations over single 64-bit words ("chunks") of the mask.

use vstd::prelude::*;
use vstd::std_specs::bits::{axiom_u64_leading_zeros, axiom_u64_trailing_zeros};

verus! {

/// True when bit `j` of `chunk` is set. Bit 0 is the least significant.
pub open spec fn bit(chunk: u64, j: u64) -> bool {
    (chunk >> j) & 1u64 == 1u64
}

/// Returns the first (least significant) set bit of `chunk`, or `None` if
/// `chunk` is 0.
pub fn lsb(chunk: u64) -> (r: Option<u8>)
    ensures
        match r {
            None => chunk == 0,
            Some(p) => p < 64 && bit(chunk, p as u64) && (forall|j: u64|
                j < p ==> !bit(chunk, j)),
        },
{
    proof {
        axiom_u64_trailing_zeros(chunk);
    }
    if chunk == 0 {
        None
    } else {
        Some(chunk.trailing_zeros() as u8)
    }
}

/// Returns the last (most significant) set bit of `chunk`, or `None` if
/// `chunk` is 0.
pub fn msb(chunk: u64) -> (r: Option<u8>)
    ensures
        match r {
            None => chunk == 0,
            Some(p) => p < 64 && bit(chunk, p as u64) && (forall|j: u64|
                p < j < 64 ==> !bit(chunk, j)),
        },
{
    proof {
        axiom_u64_leading_zeros(chunk);
    }
    if chunk == 0 {
        None
    } else {
        let lz = chunk.leading_zeros();
        let p = (63 - lz) as u8;
        proof {
            let q = (63 - lz) as u64;
            assert((chunk >> q) & 1u64 != 0u64 ==> (chunk >> q) & 1u64 == 1u64) by (bit_vector);
        }
        Some(p)
    }
}

/// Removes the first (least significant) set bit from `chunk` and returns
/// it, or `None` if `chunk` is 0.
pub fn pop_lsb(chunk: &mut u64) -> (r: Option<u8>)
    ensures
        match r {
            None => *old(chunk) == 0 && *final(chunk) == 0,
            Some(p) => {
                &&& p < 64
                &&& bit(*old(chunk), p as u64)
                &&& forall|j: u64| j < p ==> !bit(*old(chunk), j)
                &&& forall|j: u64|
                    j < 64 ==> bit(*final(chunk), j) == (bit(*old(chunk), j) && j != p)
            },
        },
{
    match lsb(*chunk) {
        None => None,
        Some(p) => {
            proof {
                lemma_clear_bit(*chunk, p as u64);
            }
            *chunk = *chunk ^ (1u64 << p);
            Some(p)
        },
    }
}

/// Removes the last (most significant) set bit from `chunk` and returns it,
/// or `None` if `chunk` is 0.
pub fn pop_msb(chunk: &mut u64) -> (r: Option<u8>)
    ensures
        match r {
            None => *old(chunk) == 0 && *final(chunk) == 0,
            Some(p) => {
                &&& p < 64
                &&& bit(*old(chunk), p as u64)
                &&& forall|j: u64| p < j < 64 ==> !bit(*old(chunk), j)
                &&& forall|j: u64|
                    j < 64 ==> bit(*final(chunk), j) == (bit(*old(chunk), j) && j != p)
            },
        },
{
    match msb(*chunk) {
        None => None,
        Some(p) => {
            proof {
                lemma_clear_bit(*chunk, p as u64);
            }
            *chunk = *chunk ^ (1u64 << p);
            Some(p)
        },
    }
}

/// How many of the bits below position `n` of `w` are set.
pub open spec fn word_count(w: u64, n: int) -> nat
    decreases n,
{
    if n <= 0 {
        0
    } else {
        word_count(w, n - 1) + if bit(w, (n - 1) as u64) {
            1nat
        } else {
            0nat
        }
    }
}

/// At most `n` of the bits below position `n` are set.
pub proof fn lemma_word_count_le(w: u64, n: int)
    requires
        n >= 0,
    ensures
        word_count(w, n) <= n,
    decreases n,
{
    if n > 0 {
        lemma_word_count_le(w, n - 1);
    }
}

/// Relies on u64::count_ones: it returns the number of set bits in the
/// word, which is the count over all 64 bit positions.
pub assume_specification[ u64::count_ones ](w: u64) -> (r: u32)
    ensures
        r == word_count(w, 64),
;

/// Relies on u64::reverse_bits: it reverses the order of the bits, so bit
/// `j` of the result is bit `63 - j` of the input.
pub assume_specification[ u64::reverse_bits ](w: u64) -> (r: u64)
    ensures
        forall|j: u64| j < 64 ==> (#[trigger] bit(r, j)) == bit(w, (63 - j) as u64),
;

/// Flipping a set bit with xor clears exactly that bit.
pub proof fn lemma_clear_bit(w: u64, p: u64)
    by (bit_vector)
    requires
        p < 64,
        (w >> p) & 1u64 == 1u64,
    ensures
        forall|j: u64|
            j < 64 ==> ((#[trigger] (((w ^ (1u64 << p)) >> j) & 1u64) == 1u64) <==> ((w >> j)
                & 1u64 == 1u64 && j != p)),
{
}

/// Or-ing in a single bit sets exactly that bit.
pub proof fn lemma_set_bit(w: u64, p: u64)
    by (bit_vector)
    requires
        p < 64,
    ensures
        forall|j: u64|
            j < 64 ==> ((#[trigger] (((w | (1u64 << p)) >> j) & 1u64) == 1u64) <==> ((w >> j)
                & 1u64 == 1u64 || j == p)),
{
}

/// And-ing with the complement of a single bit clears exactly that bit.
pub proof fn lemma_unset_bit(w: u64, p: u64)
    by (bit_vector)
    requires
        p < 64,
    ensures
        forall|j: u64|
            j < 64 ==> ((#[trigger] (((w & !(1u64 << p)) >> j) & 1u64) == 1u64) <==> ((w >> j)
                & 1u64 == 1u64 && j != p)),
{
}

/// Writing a single bit to a chosen value leaves all other bits alone.
pub proof fn lemma_write_bit(w: u64, p: u64, e: u64)
    by (bit_vector)
    requires
        p < 64,
        e <= 1,
    ensures
        forall|j: u64|
            j < 64 ==> ((#[trigger] ((((w & !(1u64 << p)) | (e << p)) >> j) & 1u64) == 1u64) <==> (
            if j == p {
                e == 1
            } else {
                (w >> j) & 1u64 == 1u64
            })),
{
}

/// Bitwise or, and, xor and not act bit by bit.
pub proof fn lemma_word_pairwise(x: u64, y: u64)
    by (bit_vector)
    ensures
        forall|j: u64|
            j < 64 ==> ((#[trigger] (((x | y) >> j) & 1u64) == 1u64) <==> ((x >> j) & 1u64 == 1u64
                || (y >> j) & 1u64 == 1u64)),
        forall|j: u64|
            j < 64 ==> ((#[trigger] (((x & y) >> j) & 1u64) == 1u64) <==> ((x >> j) & 1u64 == 1u64
                && (y >> j) & 1u64 == 1u64)),
        forall|j: u64|
            j < 64 ==> ((#[trigger] (((x ^ y) >> j) & 1u64) == 1u64) <==> (((x >> j) & 1u64
                == 1u64) != ((y >> j) & 1u64 == 1u64))),
        forall|j: u64|
            j < 64 ==> ((#[trigger] (((!x) >> j) & 1u64) == 1u64) <==> !((x >> j) & 1u64 == 1u64)),
{
}

/// Masking with a single bit is zero or not as that bit is clear or set.
pub proof fn lemma_test_bit(w: u64, p: u64)
    by (bit_vector)
    requires
        p < 64,
    ensures
        (w & (1u64 << p) != 0) <==> ((w >> p) & 1u64 == 1u64),
{
}

/// The all-zero word has no bit set; the all-one word has every bit set.
pub proof fn lemma_word_extremes()
    by (bit_vector)
    ensures
        forall|j: u64| #[trigger] ((0u64 >> j) & 1u64) == 0u64,
        forall|j: u64| j < 64 ==> #[trigger] ((0xffff_ffff_ffff_ffffu64 >> j) & 1u64) == 1u64,
{
}

/// The low mask `(1 << p) - 1` has exactly the bits below `p` set.
pub proof fn lemma_low_mask(p: u64)
    by (bit_vector)
    requires
        p < 64,
    ensures
        1u64 << p >= 1,
        forall|j: u64|
            j < 64 ==> ((#[trigger] ((((1u64 << p) - 1) as u64 >> j) & 1u64) == 1u64) <==> j < p),
{
}

/// A word splits into its lowest bit and its upper bits, shifted down.
proof fn lemma_half_decomp(x: u64)
    by (bit_vector)
    ensures
        x == (x >> 1u64) * 2 + (x & 1u64),
        x >> 1u64 == x / 2,
        (x >> 0u64) & 1u64 == x & 1u64,
        x & 1u64 <= 1,
        forall|j: u64|
            j < 63 ==> #[trigger] (((x >> 1u64) >> j) & 1u64) == (x >> ((j + 1) as u64)) & 1u64,
{
}

/// Two words that agree on all 64 bit positions are the same word.
pub proof fn lemma_word_bit_ext(x: u64, y: u64)
    requires
        forall|j: u64| j < 64 ==> bit(x, j) == bit(y, j),
    ensures
        x == y,
    decreases x + y,
{
    lemma_half_decomp(x);
    lemma_half_decomp(y);
    if x == 0 && y == 0 {
    } else {
        assert(bit(x, 0) == bit(y, 0));
        assert(x & 1u64 == y & 1u64);
        assert forall|j: u64| j < 64 implies bit(x >> 1u64, j) == bit(y >> 1u64, j) by {
            if j < 63 {
                assert(bit(x, ((j + 1) as u64)) == bit(y, ((j + 1) as u64)));
            } else {
                assert(((x >> 1u64) >> 63u64) & 1u64 == 0u64 && ((y >> 1u64) >> 63u64) & 1u64
                    == 0u64) by (bit_vector);
            }
        }
        lemma_word_bit_ext(x >> 1u64, y >> 1u64);
    }
}

} // verus!
