//! The raw byte representation of a set: 32 bytes, word by word, each
//! word least-significant byte first.
//!
//! Reinterpreting the mask as bytes without copying would take
//! unverified pointer casts, so this module offers an explicit
//! encode/decode pair instead. The layout is the in-memory layout of the
//! words on a little-endian machine; it is not a stable cross-platform
//! wire format.

use crate::chunk;
use crate::chunk::bit;
use crate::set::ByteSet;
use vstd::prelude::*;

verus! {

broadcast use vstd::set::group_set_axioms;

/// Division of a byte value by eight, spelled out: quotient and remainder
/// are the byte index and the bit position within that byte.
pub(crate) proof fn lemma_div8(v: int, i: int, r0: int)
    requires
        v == 8 * i + r0,
        0 <= r0 < 8,
        0 <= i,
    ensures
        v / 8 == i,
        v % 8 == r0,
{
    assert(v / 8 == i && v % 8 == r0) by (nonlinear_arith)
        requires
            v == 8 * i + r0,
            0 <= r0 < 8,
            0 <= i,
    ;
}

/// Bit `b` of a 32-byte buffer, counting across bytes from the least
/// significant bit of byte 0.
pub open spec fn buffer_bit(s: Seq<u8>, b: u8) -> bool {
    (s[b as int / 8] >> (b as u8 % 8)) & 1u8 == 1u8
}

/// A word assembled from eight bytes holds each byte's bits in order.
proof fn lemma_word_from_bytes(b0: u64, b1: u64, b2: u64, b3: u64, b4: u64, b5: u64, b6: u64, b7: u64)
    by (bit_vector)
    requires
        b0 < 256,
        b1 < 256,
        b2 < 256,
        b3 < 256,
        b4 < 256,
        b5 < 256,
        b6 < 256,
        b7 < 256,
    ensures
        forall|j: u64|
            j < 64 ==> ((#[trigger] (((b0 | (b1 << 8) | (b2 << 16) | (b3 << 24) | (b4 << 32) | (b5
                << 40) | (b6 << 48) | (b7 << 56)) >> j) & 1u64) == 1u64) <==> (if j < 8 {
                (b0 >> j) & 1u64 == 1u64
            } else if j < 16 {
                (b1 >> (j - 8) as u64) & 1u64 == 1u64
            } else if j < 24 {
                (b2 >> (j - 16) as u64) & 1u64 == 1u64
            } else if j < 32 {
                (b3 >> (j - 24) as u64) & 1u64 == 1u64
            } else if j < 40 {
                (b4 >> (j - 32) as u64) & 1u64 == 1u64
            } else if j < 48 {
                (b5 >> (j - 40) as u64) & 1u64 == 1u64
            } else if j < 56 {
                (b6 >> (j - 48) as u64) & 1u64 == 1u64
            } else {
                (b7 >> (j - 56) as u64) & 1u64 == 1u64
            })),
{
}

/// A byte pulled out of a word keeps its bits.
proof fn lemma_byte_from_word(w: u64, k: u64)
    by (bit_vector)
    requires
        k < 8,
    ensures
        forall|t: u64|
            t < 8 ==> ((#[trigger] ((((w >> (8 * k)) & 0xff) as u8 >> (t as u8)) & 1u8) == 1u8)
                <==> ((w >> ((8 * k + t) as u64)) & 1u64 == 1u64)),
{
}

impl ByteSet {
    /// Byte `k` of the raw representation: byte `k % 8` of word `k / 8`.
    pub open spec fn spec_raw_byte(&self, k: int) -> u8 {
        ((self.spec_chunk(k / 8) >> ((8 * (k % 8)) as u64)) & 0xff) as u8
    }

    /// Byte `k` of the raw representation, read at run time.
    pub fn raw_byte(&self, k: usize) -> (r: u8)
        requires
            k < 32,
        ensures
            r == self.spec_raw_byte(k as int),
    {
        let w = self.chunk_at(k / 8);
        ((w >> ((8 * (k % 8)) as u64)) & 0xff) as u8
    }

    /// Encodes `self` as its 32-byte raw representation. Bit `b % 8` of
    /// byte `b / 8` is set exactly when `b` is a member.
    pub fn to_bytes(&self) -> (r: Vec<u8>)
        ensures
            r@.len() == 32,
            forall|k: int| 0 <= k < 32 ==> r@[k] == self.spec_raw_byte(k),
            forall|b: u8| #[trigger] buffer_bit(r@, b) == self@.contains(b),
    {
        let mut r: Vec<u8> = Vec::new();
        let mut k: usize = 0;
        while k < 32
            invariant
                k <= 32,
                r@.len() == k,
                forall|t: int| 0 <= t < k ==> r@[t] == self.spec_raw_byte(t),
            decreases 32 - k,
        {
            r.push(self.raw_byte(k));
            k = k + 1;
        }
        proof {
            assert forall|b: u8| #[trigger] buffer_bit(r@, b) == self@.contains(b) by {
                self.lemma_raw_bit(r@, b);
            }
        }
        r
    }

    /// A buffer holding the raw bytes of `self` has bit `b` set exactly
    /// when `b` is a member.
    proof fn lemma_raw_bit(&self, s: Seq<u8>, b: u8)
        requires
            s.len() == 32,
            forall|k: int| 0 <= k < 32 ==> s[k] == self.spec_raw_byte(k),
        ensures
            buffer_bit(s, b) == self@.contains(b),
    {
        let i = b as int / 64;
        let sft = b as u64 % 64;
        crate::set::lemma_div64(b as int, i, sft as int);
        let k: u64 = sft / 8;
        let t: u64 = sft % 8;
        let w = self.spec_chunk(i);
        let ki = k as int;
        assert(sft == 8 * k + t && t < 8 && k < 8);
        lemma_byte_from_word(w, k);
        assert(((((w >> (8 * k)) & 0xff) as u8 >> (t as u8)) & 1u8 == 1u8) <==> ((w >> ((8 * k
            + t) as u64)) & 1u64 == 1u64));
        assert((8 * k + t) as u64 == sft);
        lemma_div8(b as int, 8 * i + ki, t as int);
        assert(b as int / 8 == 8 * i + ki);
        assert(s[8 * i + ki] == self.spec_raw_byte(8 * i + ki));
        assert((8 * i + ki) / 8 == i && (8 * i + ki) % 8 == ki) by (nonlinear_arith)
            requires
                0 <= ki < 8,
                0 <= i,
        ;
        assert(self.spec_raw_byte(8 * i + ki) == ((w >> ((8 * ki) as u64)) & 0xff) as u8);
        assert((8 * ki) as u64 == 8 * k);
        assert(s[b as int / 8] == ((w >> (8 * k)) & 0xff) as u8);
        assert(b as u8 % 8 == t as u8);
    }

    /// Decodes a set from its 32-byte raw representation: `b` is a member
    /// exactly when bit `b % 8` of byte `b / 8` is set.
    pub fn from_bytes(bytes: &[u8]) -> (r: ByteSet)
        requires
            bytes@.len() == 32,
        ensures
            forall|b: u8| #[trigger] r@.contains(b) == buffer_bit(bytes@, b),
    {
        let r = ByteSet {
            c0: word_from_bytes(bytes, 0),
            c1: word_from_bytes(bytes, 8),
            c2: word_from_bytes(bytes, 16),
            c3: word_from_bytes(bytes, 24),
        };
        proof {
            assert forall|b: u8| #[trigger] r@.contains(b) == buffer_bit(bytes@, b) by {
                let i = b as int / 64;
                let sft = b as u64 % 64;
                crate::set::lemma_div64(b as int, i, sft as int);
                let k = sft as int / 8;
                let t = sft % 8;
                lemma_div8(sft as int, k, t as int);
                lemma_div8(b as int, 8 * i + k, t as int);
            }
        }
        r
    }
}

/// One word read from eight consecutive buffer bytes, least significant
/// byte first: bit `8 * k + t` of the word is bit `t` of byte `base + k`.
fn word_from_bytes(bytes: &[u8], base: usize) -> (r: u64)
    requires
        base + 8 <= bytes@.len(),
    ensures
        forall|j: u64|
            j < 64 ==> (#[trigger] bit(r, j) <==> (bytes@[base + j as int / 8] >> ((j % 8) as u8))
                & 1u8 == 1u8),
{
    let b0 = bytes[base] as u64;
    let b1 = bytes[base + 1] as u64;
    let b2 = bytes[base + 2] as u64;
    let b3 = bytes[base + 3] as u64;
    let b4 = bytes[base + 4] as u64;
    let b5 = bytes[base + 5] as u64;
    let b6 = bytes[base + 6] as u64;
    let b7 = bytes[base + 7] as u64;
    let r = b0 | (b1 << 8) | (b2 << 16) | (b3 << 24) | (b4 << 32) | (b5 << 40) | (b6 << 48) | (b7
        << 56);
    proof {
        lemma_word_from_bytes(b0, b1, b2, b3, b4, b5, b6, b7);
        lemma_bits_of_cast(bytes@[base as int]);
        lemma_bits_of_cast(bytes@[base + 1]);
        lemma_bits_of_cast(bytes@[base + 2]);
        lemma_bits_of_cast(bytes@[base + 3]);
        lemma_bits_of_cast(bytes@[base + 4]);
        lemma_bits_of_cast(bytes@[base + 5]);
        lemma_bits_of_cast(bytes@[base + 6]);
        lemma_bits_of_cast(bytes@[base + 7]);
        assert forall|j: u64| j < 64 implies (#[trigger] bit(r, j) <==> (bytes@[base + j as int / 8]
            >> ((j % 8) as u8)) & 1u8 == 1u8) by {
            lemma_div8(j as int, j as int / 8, (j % 8) as int);
        }
    }
    r
}

/// Widening a byte to a word keeps its low bits.
proof fn lemma_bits_of_cast(v: u8)
    by (bit_vector)
    ensures
        forall|t: u64|
            t < 8 ==> (((#[trigger] ((v as u64) >> t)) & 1u64 == 1u64) <==> ((v >> (t as u8)) & 1u8
                == 1u8)),
{
}

} // verus!
