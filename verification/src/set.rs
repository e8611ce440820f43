//! The `ByteSet` type: a 256-bit mask over the byte universe.

use crate::chunk;
use crate::chunk::bit;
use vstd::prelude::*;

verus! {

broadcast use vstd::set::group_set_axioms;

/// An efficient, general-purpose set of `u8`s.
///
/// The set is a 256-bit mask split over four 64-bit words. Bit `b % 64` of
/// word `b / 64` is set exactly when the byte value `b` is a member; word 0
/// holds the lowest byte values, and within a word the least-significant
/// bit stands for the lowest value.
#[derive(Clone, Copy, PartialEq, Eq, Hash, Debug)]
pub struct ByteSet {
    pub c0: u64,
    pub c1: u64,
    pub c2: u64,
    pub c3: u64,
}

impl ByteSet {
    /// The word with index `i` of the mask.
    pub open spec fn spec_chunk(&self, i: int) -> u64 {
        if i == 0 {
            self.c0
        } else if i == 1 {
            self.c1
        } else if i == 2 {
            self.c2
        } else {
            self.c3
        }
    }

    /// Membership of `b`: bit `b % 64` of word `b / 64`.
    pub open spec fn spec_contains(&self, b: u8) -> bool {
        bit(self.spec_chunk(b as int / 64), b as u64 % 64)
    }

    /// How many byte values below `n` are members.
    pub open spec fn count_below(&self, n: int) -> nat
        decreases n,
    {
        if n <= 0 {
            0
        } else {
            self.count_below(n - 1) + if self.spec_contains((n - 1) as u8) {
                1nat
            } else {
                0nat
            }
        }
    }
}

impl View for ByteSet {
    type V = Set<u8>;

    open spec fn view(&self) -> Set<u8> {
        Set::new(|b: u8| self.spec_contains(b))
    }
}

/// The word index and the bit position within that word for `byte`.
fn chunk_index_and_shift(byte: u8) -> (r: (usize, u8))
    ensures
        r.0 == byte as int / 64,
        r.1 == byte as u64 % 64,
        r.0 < 4,
        r.1 < 64,
{
    proof {
        assert(byte >> 6 == byte / 64 && byte & 63 == byte % 64 && byte / 64 < 4 && byte % 64 < 64)
            by (bit_vector);
    }
    ((byte >> 6) as usize, byte & 63)
}

impl ByteSet {
    /// The word with index `i`, read at run time.
    pub(crate) fn chunk_at(&self, i: usize) -> (r: u64)
        requires
            i < 4,
        ensures
            r == self.spec_chunk(i as int),
    {
        if i == 0 {
            self.c0
        } else if i == 1 {
            self.c1
        } else if i == 2 {
            self.c2
        } else {
            self.c3
        }
    }

    /// Replaces the word with index `i`, leaving the other words alone.
    pub(crate) fn set_chunk_at(&mut self, i: usize, w: u64)
        requires
            i < 4,
        ensures
            forall|k: int|
                0 <= k < 4 ==> final(self).spec_chunk(k) == if k == i as int {
                    w
                } else {
                    old(self).spec_chunk(k)
                },
    {
        if i == 0 {
            self.c0 = w;
        } else if i == 1 {
            self.c1 = w;
        } else if i == 2 {
            self.c2 = w;
        } else {
            self.c3 = w;
        }
    }

    /// A byte is determined by its word index and bit position, so two
    /// bytes agreeing on both are the same byte.
    pub(crate) proof fn lemma_index_shift_unique(x: u8, y: u8)
        requires
            x as int / 64 == y as int / 64,
            x as u64 % 64 == y as u64 % 64,
        ensures
            x == y,
    {
    }

    /// Returns a set containing no bytes.
    pub fn new() -> (r: ByteSet)
        ensures
            r@ == Set::<u8>::empty(),
            forall|b: u8| !r.spec_contains(b),
    {
        let r = ByteSet { c0: 0, c1: 0, c2: 0, c3: 0 };
        proof {
            chunk::lemma_word_extremes();
            assert(r@ =~= Set::<u8>::empty());
        }
        r
    }

    /// Returns a set containing all bytes (0-255).
    pub fn full() -> (r: ByteSet)
        ensures
            r@ == Set::<u8>::full(),
            forall|b: u8| r.spec_contains(b),
    {
        let r = ByteSet { c0: !0u64, c1: !0u64, c2: !0u64, c3: !0u64 };
        proof {
            chunk::lemma_word_extremes();
            assert(!0u64 == 0xffff_ffff_ffff_ffffu64) by (bit_vector);
            assert(r@ =~= Set::<u8>::full());
        }
        r
    }

    /// Returns a set containing only `byte`.
    pub fn from_byte(byte: u8) -> (r: ByteSet)
        ensures
            r@ == Set::<u8>::empty().insert(byte),
    {
        Self::new().inserting(byte)
    }

    /// Returns `true` if `byte` is contained in `self`.
    pub fn contains(&self, byte: u8) -> (r: bool)
        ensures
            r == self@.contains(byte),
    {
        let (i, s) = chunk_index_and_shift(byte);
        proof {
            chunk::lemma_test_bit(self.spec_chunk(i as int), s as u64);
        }
        self.chunk_at(i) & (1u64 << s) != 0
    }

    /// Returns `true` if `byte` may be contained in `self`.
    ///
    /// The mask stores membership exactly, so this agrees with
    /// [`contains`](Self::contains); the name survives from callers that
    /// treat the answer as a quick pre-check.
    pub fn maybe_contains(&self, byte: u8) -> (r: bool)
        ensures
            r == self@.contains(byte),
    {
        self.contains(byte)
    }

    /// Inserts `byte` into `self` in-place.
    ///
    /// Inserting a byte that is already present leaves the set unchanged.
    pub fn insert(&mut self, byte: u8)
        ensures
            final(self)@ == old(self)@.insert(byte),
    {
        let (i, s) = chunk_index_and_shift(byte);
        let w = self.chunk_at(i) | (1u64 << s);
        proof {
            chunk::lemma_set_bit(self.spec_chunk(i as int), s as u64);
        }
        self.set_chunk_at(i, w);
        proof {
            assert forall|x: u8| self.spec_contains(x) == old(self)@.insert(byte).contains(x) by {
                if x as int / 64 == byte as int / 64 && x as u64 % 64 == byte as u64 % 64 {
                    Self::lemma_index_shift_unique(x, byte);
                }
            }
            assert(self@ =~= old(self)@.insert(byte));
        }
    }

    /// Returns a copy of `self` with `byte` inserted.
    pub fn inserting(self, byte: u8) -> (r: ByteSet)
        ensures
            r@ == self@.insert(byte),
    {
        let mut copy = self;
        copy.insert(byte);
        copy
    }

    /// Removes `byte` from `self` in-place.
    ///
    /// Removing a byte that is absent leaves the set unchanged.
    pub fn remove(&mut self, byte: u8)
        ensures
            final(self)@ == old(self)@.remove(byte),
    {
        let (i, s) = chunk_index_and_shift(byte);
        let w = self.chunk_at(i) & !(1u64 << s);
        proof {
            chunk::lemma_unset_bit(self.spec_chunk(i as int), s as u64);
        }
        self.set_chunk_at(i, w);
        proof {
            assert forall|x: u8| self.spec_contains(x) == old(self)@.remove(byte).contains(x) by {
                if x as int / 64 == byte as int / 64 && x as u64 % 64 == byte as u64 % 64 {
                    Self::lemma_index_shift_unique(x, byte);
                }
            }
            assert(self@ =~= old(self)@.remove(byte));
        }
    }

    /// Returns a copy of `self` with `byte` removed.
    pub fn removing(self, byte: u8) -> (r: ByteSet)
        ensures
            r@ == self@.remove(byte),
    {
        let mut copy = self;
        copy.remove(byte);
        copy
    }

    /// Removes all bytes from `self`.
    pub fn clear(&mut self)
        ensures
            final(self)@ == Set::<u8>::empty(),
    {
        *self = ByteSet::new();
    }

    /// Returns a new set with the bytes contained in `self` or `other`.
    pub fn union(self, other: ByteSet) -> (r: ByteSet)
        ensures
            r@ == self@.union(other@),
    {
        let r = ByteSet {
            c0: self.c0 | other.c0,
            c1: self.c1 | other.c1,
            c2: self.c2 | other.c2,
            c3: self.c3 | other.c3,
        };
        proof {
            assert forall|x: u8| r.spec_contains(x) == (self.spec_contains(x) || other.spec_contains(
                x,
            )) by {
                chunk::lemma_word_pairwise(
                    self.spec_chunk(x as int / 64),
                    other.spec_chunk(x as int / 64),
                );
            }
            assert(r@ =~= self@.union(other@));
        }
        r
    }

    /// Returns a set with the bytes contained both in `self` and `other`.
    pub fn intersection(self, other: ByteSet) -> (r: ByteSet)
        ensures
            r@ == self@.intersect(other@),
    {
        let r = ByteSet {
            c0: self.c0 & other.c0,
            c1: self.c1 & other.c1,
            c2: self.c2 & other.c2,
            c3: self.c3 & other.c3,
        };
        proof {
            assert forall|x: u8| r.spec_contains(x) == (self.spec_contains(x) && other.spec_contains(
                x,
            )) by {
                chunk::lemma_word_pairwise(
                    self.spec_chunk(x as int / 64),
                    other.spec_chunk(x as int / 64),
                );
            }
            assert(r@ =~= self@.intersect(other@));
        }
        r
    }

    /// Returns a set with the bytes contained in `self` or `other`, but not
    /// in both.
    pub fn symmetric_difference(self, other: ByteSet) -> (r: ByteSet)
        ensures
            r@ == self@.union(other@).difference(self@.intersect(other@)),
    {
        let r = ByteSet {
            c0: self.c0 ^ other.c0,
            c1: self.c1 ^ other.c1,
            c2: self.c2 ^ other.c2,
            c3: self.c3 ^ other.c3,
        };
        proof {
            assert forall|x: u8| r.spec_contains(x) == (self.spec_contains(x)
                != other.spec_contains(x)) by {
                chunk::lemma_word_pairwise(
                    self.spec_chunk(x as int / 64),
                    other.spec_chunk(x as int / 64),
                );
            }
            assert(r@ =~= self@.union(other@).difference(self@.intersect(other@)));
        }
        r
    }

    /// Returns a new set with the bytes not contained in `self`.
    pub fn not(self) -> (r: ByteSet)
        ensures
            r@ == self@.complement(),
    {
        let r = ByteSet { c0: !self.c0, c1: !self.c1, c2: !self.c2, c3: !self.c3 };
        proof {
            assert forall|x: u8| r.spec_contains(x) == !self.spec_contains(x) by {
                chunk::lemma_word_pairwise(
                    self.spec_chunk(x as int / 64),
                    self.spec_chunk(x as int / 64),
                );
            }
            assert(r@ =~= self@.complement());
        }
        r
    }

    /// Returns a set with the bytes contained in `self`, but not in `other`.
    pub fn difference(self, other: ByteSet) -> (r: ByteSet)
        ensures
            r@ == self@.difference(other@),
    {
        let r = self.intersection(other.not());
        proof {
            assert(r@ =~= self@.difference(other@));
        }
        r
    }

    /// Inserts all bytes of `other` into `self` in-place.
    pub fn insert_all(&mut self, other: ByteSet)
        ensures
            final(self)@ == old(self)@.union(other@),
    {
        *self = self.union(other);
    }

    /// Returns a copy of `self` with all of `other` inserted.
    ///
    /// This is equivalent to the [`union`](Self::union) method.
    pub fn inserting_all(self, other: ByteSet) -> (r: ByteSet)
        ensures
            r@ == self@.union(other@),
    {
        self.union(other)
    }

    /// Removes all bytes of `other` from `self` in-place.
    pub fn remove_all(&mut self, other: ByteSet)
        ensures
            final(self)@ == old(self)@.difference(other@),
    {
        *self = self.difference(other);
    }

    /// Returns a copy of `self` with all of `other` removed.
    ///
    /// This is equivalent to the [`difference`](Self::difference) method.
    pub fn removing_all(self, other: ByteSet) -> (r: ByteSet)
        ensures
            r@ == self@.difference(other@),
    {
        self.difference(other)
    }

    /// Sets `byte` in `self` to `enabled` in-place, without branching.
    pub fn set(&mut self, byte: u8, enabled: bool)
        ensures
            final(self)@ == if enabled {
                old(self)@.insert(byte)
            } else {
                old(self)@.remove(byte)
            },
    {
        let (i, s) = chunk_index_and_shift(byte);
        let e: u64 = if enabled {
            1
        } else {
            0
        };
        let w = (self.chunk_at(i) & !(1u64 << s)) | (e << s);
        proof {
            chunk::lemma_write_bit(self.spec_chunk(i as int), s as u64, e);
        }
        self.set_chunk_at(i, w);
        proof {
            if enabled {
                assert forall|x: u8| self.spec_contains(x) == old(self)@.insert(byte).contains(
                    x,
                ) by {
                    if x as int / 64 == byte as int / 64 && x as u64 % 64 == byte as u64 % 64 {
                        Self::lemma_index_shift_unique(x, byte);
                    }
                }
                assert(self@ =~= old(self)@.insert(byte));
            } else {
                assert forall|x: u8| self.spec_contains(x) == old(self)@.remove(byte).contains(
                    x,
                ) by {
                    if x as int / 64 == byte as int / 64 && x as u64 % 64 == byte as u64 % 64 {
                        Self::lemma_index_shift_unique(x, byte);
                    }
                }
                assert(self@ =~= old(self)@.remove(byte));
            }
        }
    }

    /// Returns a copy of `self` with `byte` set to `enabled`.
    pub fn setting(self, byte: u8, enabled: bool) -> (r: ByteSet)
        ensures
            r@ == if enabled {
                self@.insert(byte)
            } else {
                self@.remove(byte)
            },
    {
        let mut copy = self;
        copy.set(byte, enabled);
        copy
    }

    /// Returns `true` if `self` contains no bytes.
    ///
    /// This is more efficient than checking `self.len() == 0`.
    pub fn is_empty(&self) -> (r: bool)
        ensures
            r == (self@ == Set::<u8>::empty()),
    {
        let r = (self.c0 == 0) && (self.c1 == 0) && (self.c2 == 0) && (self.c3 == 0);
        proof {
            if r {
                chunk::lemma_word_extremes();
                assert(self@ =~= Set::<u8>::empty());
            } else {
                if self.c0 != 0 {
                    lemma_nonzero_chunk_member(*self, 0);
                } else if self.c1 != 0 {
                    lemma_nonzero_chunk_member(*self, 1);
                } else if self.c2 != 0 {
                    lemma_nonzero_chunk_member(*self, 2);
                } else {
                    lemma_nonzero_chunk_member(*self, 3);
                }
                let b = choose|b: u8| self@.contains(b);
                assert(!Set::<u8>::empty().contains(b));
            }
        }
        r
    }

    /// Returns `true` if `self` contains all bytes.
    ///
    /// This is more efficient than checking `self.len() == 256`.
    pub fn is_full(&self) -> (r: bool)
        ensures
            r == (self@ == Set::<u8>::full()),
    {
        let r = (self.c0 == !0u64) && (self.c1 == !0u64) && (self.c2 == !0u64) && (self.c3
            == !0u64);
        proof {
            chunk::lemma_word_extremes();
            assert(!0u64 == 0xffff_ffff_ffff_ffffu64) by (bit_vector);
            if r {
                assert(self@ =~= Set::<u8>::full());
            } else {
                if self.c0 != !0u64 {
                    lemma_missing_member(*self, 0);
                } else if self.c1 != !0u64 {
                    lemma_missing_member(*self, 1);
                } else if self.c2 != !0u64 {
                    lemma_missing_member(*self, 2);
                } else {
                    lemma_missing_member(*self, 3);
                }
                let b = choose|b: u8| !self@.contains(b);
                assert(Set::<u8>::full().contains(b));
            }
        }
        r
    }

    /// Returns `true` if `self` contains any bytes in `other`.
    pub fn contains_any(&self, other: &ByteSet) -> (r: bool)
        ensures
            r == !self@.disjoint(other@),
    {
        let w = self.chunk_and_or(other);
        proof {
            let inter = self.intersection_spec(*other);
            let a0 = inter.c0;
            let a1 = inter.c1;
            let a2 = inter.c2;
            let a3 = inter.c3;
            assert(((a0 | a1 | a2 | a3) == 0) <==> (a0 == 0 && a1 == 0 && a2 == 0 && a3 == 0))
                by (bit_vector);
            if w != 0 {
                if inter.c0 != 0 {
                    lemma_nonzero_chunk_member(inter, 0);
                } else if inter.c1 != 0 {
                    lemma_nonzero_chunk_member(inter, 1);
                } else if inter.c2 != 0 {
                    lemma_nonzero_chunk_member(inter, 2);
                } else {
                    lemma_nonzero_chunk_member(inter, 3);
                }
                let b = choose|b: u8| inter@.contains(b);
                chunk::lemma_word_pairwise(
                    self.spec_chunk(b as int / 64),
                    other.spec_chunk(b as int / 64),
                );
                assert(self@.contains(b) && other@.contains(b));
            } else {
                assert forall|b: u8| !(self@.contains(b) && other@.contains(b)) by {
                    chunk::lemma_word_pairwise(
                        self.spec_chunk(b as int / 64),
                        other.spec_chunk(b as int / 64),
                    );
                    chunk::lemma_word_extremes();
                    assert(!inter.spec_contains(b));
                }
            }
        }
        w != 0
    }

    /// The chunk-wise and of `self` and `other`, or-reduced to one word.
    ///
    /// The result is zero exactly when every chunk of the intersection is
    /// zero, which `contains_any` relies on.
    fn chunk_and_or(&self, other: &ByteSet) -> (r: u64)
        ensures
            r == ((self.c0 & other.c0) | (self.c1 & other.c1) | (self.c2 & other.c2) | (self.c3
                & other.c3)),
    {
        (self.c0 & other.c0) | (self.c1 & other.c1) | (self.c2 & other.c2) | (self.c3 & other.c3)
    }

    /// The chunk-wise intersection, as a spec-level value.
    pub open spec fn intersection_spec(self, other: ByteSet) -> ByteSet {
        ByteSet {
            c0: self.c0 & other.c0,
            c1: self.c1 & other.c1,
            c2: self.c2 & other.c2,
            c3: self.c3 & other.c3,
        }
    }

    /// Returns `true` if `self` and `other` have no bytes in common.
    pub fn is_disjoint(&self, other: &ByteSet) -> (r: bool)
        ensures
            r == self@.disjoint(other@),
    {
        let inter = self.intersection(*other);
        let r = inter.is_empty();
        proof {
            if r {
                assert forall|b: u8| !(self@.contains(b) && other@.contains(b)) by {
                    assert(!inter@.contains(b));
                }
            } else {
                assert(!(inter@ =~= Set::<u8>::empty()));
                let b = choose|b: u8|
                    inter@.contains(b) != Set::<u8>::empty().contains(b);
                assert(self@.contains(b) && other@.contains(b));
            }
        }
        r
    }

    /// Returns `true` if `other` contains all bytes in `self`.
    pub fn is_subset(&self, other: &ByteSet) -> (r: bool)
        ensures
            r == self@.subset_of(other@),
    {
        let inter = self.intersection(*other);
        let r = inter.eq(self);
        proof {
            if r {
                assert forall|b: u8| self@.contains(b) implies other@.contains(b) by {
                    assert(inter@.contains(b));
                }
            } else {
                assert(!(inter@ =~= self@));
                let b = choose|b: u8| inter@.contains(b) != self@.contains(b);
                assert(self@.contains(b) && !other@.contains(b));
            }
        }
        r
    }

    /// Returns `true` if `other` contains all bytes in `self` and at least
    /// one other byte not contained in `self`.
    ///
    /// This is also known as a "proper subset".
    pub fn is_strict_subset(&self, other: &ByteSet) -> (r: bool)
        ensures
            r == (self@ != other@ && self@.subset_of(other@)),
    {
        self.ne(other) && self.is_subset(other)
    }

    /// Returns `true` if `self` contains all bytes in `other`.
    pub fn is_superset(&self, other: &ByteSet) -> (r: bool)
        ensures
            r == other@.subset_of(self@),
    {
        other.is_subset(self)
    }

    /// Returns `true` if `self` contains all bytes in `other` and at least
    /// one other byte not contained in `other`.
    ///
    /// This is also known as a "proper superset".
    pub fn is_strict_superset(&self, other: &ByteSet) -> (r: bool)
        ensures
            r == (self@ != other@ && other@.subset_of(self@)),
    {
        other.is_strict_subset(self)
    }

    /// Returns `true` if `self` and `other` contain the same bytes.
    pub fn eq(&self, other: &ByteSet) -> (r: bool)
        ensures
            r == (*self == *other),
            r == (self@ == other@),
    {
        proof {
            lemma_view_ext(*self, *other);
        }
        (self.c0 == other.c0) && (self.c1 == other.c1) && (self.c2 == other.c2) && (self.c3
            == other.c3)
    }

    /// Returns `true` if `self` and `other` do not contain the same bytes.
    pub fn ne(&self, other: &ByteSet) -> (r: bool)
        ensures
            r == (*self != *other),
            r == (self@ != other@),
    {
        !self.eq(other)
    }
}

/// The byte values below `n`, as a set.
pub open spec fn below_set(n: int) -> Set<u8> {
    Set::new(|b: u8| (b as int) < n)
}

/// Division of a byte value by the word width, spelled out: quotient and
/// remainder are the word index and the bit position.
pub(crate) proof fn lemma_div64(v: int, i: int, r0: int)
    requires
        v == 64 * i + r0,
        0 <= r0 < 64,
        0 <= i,
    ensures
        v / 64 == i,
        v % 64 == r0,
{
    assert(v / 64 == i && v % 64 == r0) by (nonlinear_arith)
        requires
            v == 64 * i + r0,
            0 <= r0 < 64,
            0 <= i,
    ;
}

/// The word of a range-to mask with index `k`: all ones below the word
/// holding the bound, a partial mask in that word, all zeros above it.
fn range_to_chunk(k: usize, ei: usize, es: u8) -> (r: u64)
    requires
        es < 64,
    ensures
        forall|j: u64|
            j < 64 ==> (#[trigger] bit(r, j) <==> 64 * (k as int) + j < 64 * (ei as int) + es),
{
    proof {
        chunk::lemma_word_extremes();
        assert(!0u64 == 0xffff_ffff_ffff_ffffu64) by (bit_vector);
        chunk::lemma_low_mask(es as u64);
    }
    if k < ei {
        !0u64
    } else if k == ei {
        (1u64 << es) - 1
    } else {
        0u64
    }
}

impl ByteSet {
    /// The set of all bytes strictly below `end`.
    pub fn from_range_to(end: u8) -> (r: ByteSet)
        ensures
            forall|b: u8| r@.contains(b) == (b < end),
    {
        let (ei, es) = chunk_index_and_shift(end);
        let r = ByteSet {
            c0: range_to_chunk(0, ei, es),
            c1: range_to_chunk(1, ei, es),
            c2: range_to_chunk(2, ei, es),
            c3: range_to_chunk(3, ei, es),
        };
        proof {
            assert forall|b: u8| r@.contains(b) == (b < end) by {
                lemma_div64(b as int, b as int / 64, (b as u64 % 64) as int);
            }
        }
        r
    }

    /// The set of all bytes up to and including `end`.
    pub fn from_range_to_inclusive(end: u8) -> (r: ByteSet)
        ensures
            forall|b: u8| r@.contains(b) == (b <= end),
    {
        if end == 255 {
            Self::full()
        } else {
            Self::from_range_to(end + 1)
        }
    }

    /// The set of all bytes at or above `start`.
    pub fn from_range_from(start: u8) -> (r: ByteSet)
        ensures
            forall|b: u8| r@.contains(b) == (b >= start),
    {
        Self::from_range_to(start).not()
    }

    /// The set of all bytes in the half-open range `start..end`.
    ///
    /// A `start` at or above `end` gives the empty set.
    pub fn from_range(start: u8, end: u8) -> (r: ByteSet)
        ensures
            forall|b: u8| r@.contains(b) == (start <= b && b < end),
    {
        Self::from_range_from(start).intersection(Self::from_range_to(end))
    }

    /// The set of all bytes in the closed range `start..=end`.
    ///
    /// A `start` above `end` gives the empty set.
    pub fn from_range_inclusive(start: u8, end: u8) -> (r: ByteSet)
        ensures
            forall|b: u8| r@.contains(b) == (start <= b && b <= end),
    {
        Self::from_range_from(start).intersection(Self::from_range_to_inclusive(end))
    }

    /// Returns `self` with its bits reversed.
    ///
    /// The result contains byte `b` exactly when `self` contains `255 - b`:
    /// each word is bit-reversed and the word order is reversed too.
    pub fn reverse_bits(self) -> (r: ByteSet)
        ensures
            forall|b: u8| #[trigger] r@.contains(b) == self@.contains((255 - b) as u8),
    {
        let r = ByteSet {
            c0: self.c3.reverse_bits(),
            c1: self.c2.reverse_bits(),
            c2: self.c1.reverse_bits(),
            c3: self.c0.reverse_bits(),
        };
        proof {
            assert forall|b: u8| #[trigger] r@.contains(b) == self@.contains((255 - b) as u8) by {
                let k = b as int / 64;
                let j = b as u64 % 64;
                lemma_div64(b as int, k, j as int);
                lemma_div64(255 - b as int, 3 - k, 63 - j);
            }
        }
        r
    }

    /// How many of the byte values below `64 * i + m` are members, split
    /// into full words and a partial word.
    proof fn lemma_count_split(s: ByteSet, i: int, m: int)
        requires
            0 <= i < 4,
            0 <= m <= 64,
        ensures
            s.count_below(64 * i + m) == s.count_below(64 * i) + chunk::word_count(
                s.spec_chunk(i),
                m,
            ),
        decreases m,
    {
        if m > 0 {
            Self::lemma_count_split(s, i, m - 1);
            let b = (64 * i + m - 1) as u8;
            lemma_div64(b as int, i, m - 1);
        }
    }

    /// The number of members below `n` is the size of the set of members
    /// below `n`.
    proof fn lemma_card_below(s: ByteSet, n: int)
        requires
            0 <= n <= 256,
        ensures
            s@.intersect(below_set(n)).finite(),
            s@.intersect(below_set(n)).len() == s.count_below(n),
        decreases n,
    {
        if n == 0 {
            assert(s@.intersect(below_set(0)) =~= Set::<u8>::empty());
        } else {
            Self::lemma_card_below(s, n - 1);
            let prev = s@.intersect(below_set(n - 1));
            let cur = s@.intersect(below_set(n));
            let b = (n - 1) as u8;
            if s.spec_contains(b) {
                assert(cur =~= prev.insert(b));
                assert(!prev.contains(b));
            } else {
                assert(cur =~= prev);
            }
        }
    }

    /// Every byte set is finite, and counting its members byte by byte
    /// gives its size.
    pub proof fn lemma_card(s: ByteSet)
        ensures
            s@.finite(),
            s@.len() == s.count_below(256),
    {
        Self::lemma_card_below(s, 256);
        assert(s@ =~= s@.intersect(below_set(256)));
    }

    /// Returns the number of bytes contained in `self`.
    pub fn len(&self) -> (r: usize)
        ensures
            r == self@.len(),
            r == self.count_below(256),
            self@.finite(),
    {
        proof {
            chunk::lemma_word_count_le(self.c0, 64);
            chunk::lemma_word_count_le(self.c1, 64);
            chunk::lemma_word_count_le(self.c2, 64);
            chunk::lemma_word_count_le(self.c3, 64);
            Self::lemma_count_split(*self, 0, 64);
            Self::lemma_count_split(*self, 1, 64);
            Self::lemma_count_split(*self, 2, 64);
            Self::lemma_count_split(*self, 3, 64);
            Self::lemma_card(*self);
        }
        (self.c0.count_ones() + self.c1.count_ones() + self.c2.count_ones()
            + self.c3.count_ones()) as usize
    }

    /// Returns the first (least) byte in `self`, or `None` if `self` is
    /// empty.
    pub fn first(&self) -> (r: Option<u8>)
        ensures
            match r {
                None => self@ == Set::<u8>::empty(),
                Some(b) => self@.contains(b) && forall|x: u8| self@.contains(x) ==> b <= x,
            },
    {
        let mut i: usize = 0;
        while i < 4
            invariant
                i <= 4,
                forall|k: int| 0 <= k < i ==> self.spec_chunk(k) == 0,
            decreases 4 - i,
        {
            match chunk::lsb(self.chunk_at(i)) {
                Some(p) => {
                    let b = (i * 64) as u8 + p;
                    proof {
                        lemma_div64(b as int, i as int, p as int);
                        assert forall|x: u8| self@.contains(x) implies b <= x by {
                            Self::lemma_member_at_least(*self, i as int, p, x);
                        }
                    }
                    return Some(b);
                },
                None => {
                    i = i + 1;
                },
            }
        }
        proof {
            chunk::lemma_word_extremes();
            assert(self@ =~= Set::<u8>::empty());
        }
        None
    }

    /// A member byte of a set whose words below `i` are zero, and whose
    /// word `i` has no bit below `p`, is at least `64 * i + p`.
    pub(crate) proof fn lemma_member_at_least(s: ByteSet, i: int, p: u8, x: u8)
        requires
            0 <= i < 4,
            p < 64,
            forall|k: int| 0 <= k < i ==> s.spec_chunk(k) == 0,
            forall|j: u64| j < p ==> !bit(s.spec_chunk(i), j),
            s@.contains(x),
        ensures
            64 * i + p <= x,
    {
        let xi = x as int / 64;
        let xs = x as u64 % 64;
        lemma_div64(x as int, xi, xs as int);
        chunk::lemma_word_extremes();
        if xi < i {
            assert(!bit(s.spec_chunk(xi), xs));
        } else if xi == i {
            assert(xs >= p);
        }
    }

    /// Removes the first (least) byte in `self` and returns it, or `None`
    /// if `self` is empty.
    pub fn pop_first(&mut self) -> (r: Option<u8>)
        ensures
            match r {
                None => old(self)@ == Set::<u8>::empty() && *final(self) == *old(self),
                Some(b) => {
                    &&& old(self)@.contains(b)
                    &&& forall|x: u8| old(self)@.contains(x) ==> b <= x
                    &&& final(self)@ == old(self)@.remove(b)
                },
            },
    {
        match self.first() {
            None => None,
            Some(b) => {
                self.remove(b);
                Some(b)
            },
        }
    }

    /// Returns the last (greatest) byte in `self`, or `None` if `self` is
    /// empty.
    pub fn last(&self) -> (r: Option<u8>)
        ensures
            match r {
                None => self@ == Set::<u8>::empty(),
                Some(b) => self@.contains(b) && forall|x: u8| self@.contains(x) ==> x <= b,
            },
    {
        let mut i: usize = 4;
        while i > 0
            invariant
                i <= 4,
                forall|k: int| i <= k < 4 ==> self.spec_chunk(k) == 0,
            decreases i,
        {
            i = i - 1;
            match chunk::msb(self.chunk_at(i)) {
                Some(p) => {
                    let b = (i * 64) as u8 + p;
                    proof {
                        lemma_div64(b as int, i as int, p as int);
                        assert forall|x: u8| self@.contains(x) implies x <= b by {
                            Self::lemma_member_at_most(*self, i as int, p, x);
                        }
                    }
                    return Some(b);
                },
                None => {
                },
            }
        }
        proof {
            chunk::lemma_word_extremes();
            assert(self@ =~= Set::<u8>::empty());
        }
        None
    }

    /// A member byte of a set whose words above `i` are zero, and whose
    /// word `i` has no bit above `p`, is at most `64 * i + p`.
    pub(crate) proof fn lemma_member_at_most(s: ByteSet, i: int, p: u8, x: u8)
        requires
            0 <= i < 4,
            p < 64,
            forall|k: int| i < k < 4 ==> s.spec_chunk(k) == 0,
            forall|j: u64| (p as u64) < j < 64 ==> !bit(s.spec_chunk(i), j),
            s@.contains(x),
        ensures
            x <= 64 * i + p,
    {
        let xi = x as int / 64;
        let xs = x as u64 % 64;
        lemma_div64(x as int, xi, xs as int);
        chunk::lemma_word_extremes();
        if xi > i {
            assert(!bit(s.spec_chunk(xi), xs));
        } else if xi == i {
            assert(xs <= p as u64);
        }
    }

    /// Removes the last (greatest) byte in `self` and returns it, or
    /// `None` if `self` is empty.
    pub fn pop_last(&mut self) -> (r: Option<u8>)
        ensures
            match r {
                None => old(self)@ == Set::<u8>::empty() && *final(self) == *old(self),
                Some(b) => {
                    &&& old(self)@.contains(b)
                    &&& forall|x: u8| old(self)@.contains(x) ==> x <= b
                    &&& final(self)@ == old(self)@.remove(b)
                },
            },
    {
        match self.last() {
            None => None,
            Some(b) => {
                self.remove(b);
                Some(b)
            },
        }
    }
}

/// A set whose word with index `i` is not zero has a member among the
/// byte values of that word.
proof fn lemma_nonzero_chunk_member(s: ByteSet, i: int)
    requires
        0 <= i < 4,
        s.spec_chunk(i) != 0,
    ensures
        exists|b: u8| s@.contains(b),
{
    let w = s.spec_chunk(i);
    vstd::std_specs::bits::axiom_u64_trailing_zeros(w);
    let t = vstd::std_specs::bits::u64_trailing_zeros(w) as u64;
    let b = (64 * i + t) as u8;
    assert(b as int / 64 == i && b as u64 % 64 == t);
    assert(s@.contains(b));
}

/// A set whose word with index `i` is not all ones is missing a member
/// among the byte values of that word.
proof fn lemma_missing_member(s: ByteSet, i: int)
    requires
        0 <= i < 4,
        s.spec_chunk(i) != !0u64,
    ensures
        exists|b: u8| !s@.contains(b),
{
    let w = s.spec_chunk(i);
    assert(!w != 0u64) by (bit_vector)
        requires
            w != !0u64,
    ;
    vstd::std_specs::bits::axiom_u64_trailing_zeros(!w);
    let t = vstd::std_specs::bits::u64_trailing_zeros(!w) as u64;
    chunk::lemma_word_pairwise(w, w);
    let b = (64 * i + t) as u8;
    assert(b as int / 64 == i && b as u64 % 64 == t);
    assert(!s@.contains(b));
}

/// Two sets are the same value exactly when they have the same members.
pub proof fn lemma_view_ext(a: ByteSet, b: ByteSet)
    ensures
        (a == b) <==> (a@ == b@),
{
    if a@ == b@ {
        assert forall|i: int| 0 <= i < 4 implies a.spec_chunk(i) == b.spec_chunk(i) by {
            assert forall|j: u64| j < 64 implies bit(a.spec_chunk(i), j) == bit(
                b.spec_chunk(i),
                j,
            ) by {
                let x = (64 * i + j) as u8;
                assert(a@.contains(x) == b@.contains(x));
            }
            chunk::lemma_word_bit_ext(a.spec_chunk(i), b.spec_chunk(i));
        }
        assert(a.spec_chunk(0) == b.spec_chunk(0) && a.spec_chunk(1) == b.spec_chunk(1)
            && a.spec_chunk(2) == b.spec_chunk(2) && a.spec_chunk(3) == b.spec_chunk(3));
        assert(a == b);
    }
}

} // verus!

