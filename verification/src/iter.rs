//! A double-ended iterator over a [`ByteSet`].

use crate::chunk;
use crate::set::ByteSet;
use vstd::prelude::*;

verus! {

broadcast use vstd::set::group_set_axioms;

/// An iterator over a [`ByteSet`].
///
/// The iterator owns a private copy of the set and pops a bit from it on
/// every step, walking the words from both ends toward the middle. A byte
/// handed out from one end is cleared from the copy, so interleaved
/// forward and backward steps never return the same byte twice.
#[derive(Clone, Copy, Debug, PartialEq, Eq)]
pub struct Iter {
    /// The set being iterated over. It is mutated in place as bits are
    /// popped from each word.
    pub byte_set: ByteSet,
    /// The current word index when iterating forwards.
    pub forward_index: usize,
    /// The current word index when iterating backwards.
    pub backward_index: usize,
}

impl Iter {
    /// The cursors stay inside the word array, and every word that a
    /// cursor has passed is already drained.
    pub open spec fn wf(&self) -> bool {
        &&& self.forward_index < 4
        &&& self.backward_index < 4
        &&& forall|k: int| 0 <= k < self.forward_index ==> self.byte_set.spec_chunk(k) == 0
        &&& forall|k: int| self.backward_index < k < 4 ==> self.byte_set.spec_chunk(k) == 0
    }
}

impl View for Iter {
    type V = Set<u8>;

    /// The bytes not yet handed out.
    open spec fn view(&self) -> Set<u8> {
        self.byte_set@
    }
}

impl Iter {
    pub(crate) fn new(byte_set: ByteSet) -> (r: Iter)
        ensures
            r.wf(),
            r@ == byte_set@,
    {
        Iter { byte_set, forward_index: 0, backward_index: 3 }
    }

    /// Returns the underlying [`ByteSet`]: the bytes not yet handed out.
    ///
    /// Note that iteration mutates the byte set in place.
    pub fn into_byte_set(self) -> (r: ByteSet)
        ensures
            r@ == self@,
    {
        self.byte_set
    }

    /// Hands out the least remaining byte, or `None` if the set is
    /// drained. Once it returns `None` it keeps returning `None`.
    pub fn next(&mut self) -> (r: Option<u8>)
        requires
            old(self).wf(),
        ensures
            final(self).wf(),
            match r {
                None => final(self)@ == old(self)@ && old(self)@ == Set::<u8>::empty(),
                Some(b) => {
                    &&& old(self)@.contains(b)
                    &&& forall|x: u8| old(self)@.contains(x) ==> b <= x
                    &&& final(self)@ == old(self)@.remove(b)
                },
            },
    {
        let mut i = self.forward_index;
        while i < 4
            invariant
                old(self).wf(),
                self.byte_set == old(self).byte_set,
                self.backward_index == old(self).backward_index,
                old(self).forward_index <= i <= 4,
                forall|k: int| 0 <= k < i ==> self.byte_set.spec_chunk(k) == 0,
            decreases 4 - i,
        {
            self.forward_index = i;
            let w = self.byte_set.chunk_at(i);
            match chunk::lsb(w) {
                Some(p) => {
                    let b = (i * 64) as u8 + p;
                    proof {
                        crate::set::lemma_div64(b as int, i as int, p as int);
                        chunk::lemma_clear_bit(w, p as u64);
                        chunk::lemma_word_extremes();
                        assert forall|x: u8| old(self)@.contains(x) implies b <= x by {
                            ByteSet::lemma_member_at_least(self.byte_set, i as int, p, x);
                        }
                    }
                    let cleared = w ^ (1u64 << p);
                    self.byte_set.set_chunk_at(i, cleared);
                    proof {
                        assert forall|x: u8| self.byte_set.spec_contains(x) == old(
                            self,
                        )@.remove(b).contains(x) by {
                            if x as int / 64 == b as int / 64 && x as u64 % 64 == b as u64 % 64 {
                                ByteSet::lemma_index_shift_unique(x, b);
                            }
                        }
                        assert(self@ =~= old(self)@.remove(b));
                    }
                    return Some(b);
                },
                None => {
                    i = i + 1;
                },
            }
        }
        self.forward_index = 3;
        proof {
            chunk::lemma_word_extremes();
            assert(self@ =~= Set::<u8>::empty());
        }
        None
    }

    /// Hands out the greatest remaining byte, or `None` if the set is
    /// drained. Once it returns `None` it keeps returning `None`.
    pub fn next_back(&mut self) -> (r: Option<u8>)
        requires
            old(self).wf(),
        ensures
            final(self).wf(),
            match r {
                None => final(self)@ == old(self)@ && old(self)@ == Set::<u8>::empty(),
                Some(b) => {
                    &&& old(self)@.contains(b)
                    &&& forall|x: u8| old(self)@.contains(x) ==> x <= b
                    &&& final(self)@ == old(self)@.remove(b)
                },
            },
    {
        let mut i = self.backward_index + 1;
        while i > 0
            invariant
                old(self).wf(),
                self.byte_set == old(self).byte_set,
                self.forward_index == old(self).forward_index,
                i <= old(self).backward_index + 1,
                forall|k: int| i <= k < 4 ==> self.byte_set.spec_chunk(k) == 0,
            decreases i,
        {
            i = i - 1;
            self.backward_index = i;
            let w = self.byte_set.chunk_at(i);
            match chunk::msb(w) {
                Some(p) => {
                    let b = (i * 64) as u8 + p;
                    proof {
                        crate::set::lemma_div64(b as int, i as int, p as int);
                        chunk::lemma_clear_bit(w, p as u64);
                        chunk::lemma_word_extremes();
                        assert forall|x: u8| old(self)@.contains(x) implies x <= b by {
                            ByteSet::lemma_member_at_most(self.byte_set, i as int, p, x);
                        }
                    }
                    let cleared = w ^ (1u64 << p);
                    self.byte_set.set_chunk_at(i, cleared);
                    proof {
                        assert forall|x: u8| self.byte_set.spec_contains(x) == old(
                            self,
                        )@.remove(b).contains(x) by {
                            if x as int / 64 == b as int / 64 && x as u64 % 64 == b as u64 % 64 {
                                ByteSet::lemma_index_shift_unique(x, b);
                            }
                        }
                        assert(self@ =~= old(self)@.remove(b));
                    }
                    return Some(b);
                },
                None => {
                },
            }
        }
        self.backward_index = 0;
        proof {
            chunk::lemma_word_extremes();
            assert(self@ =~= Set::<u8>::empty());
        }
        None
    }

    /// How many bytes are left to hand out.
    pub fn len(&self) -> (r: usize)
        ensures
            r == self@.len(),
    {
        self.byte_set.len()
    }

    /// The number of remaining bytes, as a lower and an upper bound.
    pub fn size_hint(&self) -> (r: (usize, Option<usize>))
        ensures
            r.0 == self@.len(),
            r.1 == Some(r.0),
    {
        let n = self.len();
        (n, Some(n))
    }

    /// How many bytes the iterator would still hand out.
    pub fn count(self) -> (r: usize)
        ensures
            r == self@.len(),
    {
        self.len()
    }

    /// The greatest remaining byte, consuming the iterator.
    pub fn last(self) -> (r: Option<u8>)
        requires
            self.wf(),
        ensures
            match r {
                None => self@ == Set::<u8>::empty(),
                Some(b) => self@.contains(b) && forall|x: u8| self@.contains(x) ==> x <= b,
            },
    {
        let mut it = self;
        it.next_back()
    }

    /// The least remaining byte, consuming the iterator.
    pub fn min(self) -> (r: Option<u8>)
        requires
            self.wf(),
        ensures
            match r {
                None => self@ == Set::<u8>::empty(),
                Some(b) => self@.contains(b) && forall|x: u8| self@.contains(x) ==> b <= x,
            },
    {
        let mut it = self;
        it.next()
    }

    /// The greatest remaining byte, consuming the iterator.
    pub fn max(self) -> (r: Option<u8>)
        requires
            self.wf(),
        ensures
            match r {
                None => self@ == Set::<u8>::empty(),
                Some(b) => self@.contains(b) && forall|x: u8| self@.contains(x) ==> x <= b,
            },
    {
        self.last()
    }
}

impl ByteSet {
    /// An iterator over the bytes of `self`, in ascending order from the
    /// front and descending order from the back.
    pub fn into_iter(self) -> (r: Iter)
        ensures
            r.wf(),
            r@ == self@,
    {
        Iter::new(self)
    }
}

} // verus!
