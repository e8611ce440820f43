//! A binary rendering of the mask, for test failure messages.

use crate::chunk::bit;
use crate::set::ByteSet;
use vstd::prelude::*;
use vstd::string::StringExecFns;

verus! {

impl ByteSet {
    /// The character that renders position `k` of the mask: the words in
    /// index order, each printed most significant bit first.
    pub open spec fn spec_binary_char(&self, k: int) -> char {
        if bit(self.spec_chunk(k / 64), (63 - (k % 64)) as u64) {
            '1'
        } else {
            '0'
        }
    }

    /// Renders the mask as 256 binary digits, word 0 first, each word
    /// most significant bit first.
    pub fn fmt_binary(&self) -> (r: String)
        ensures
            r@.len() == 256,
            forall|k: int| 0 <= k < 256 ==> r@[k] == self.spec_binary_char(k),
    {
        proof {
            reveal_strlit("0");
            reveal_strlit("1");
        }
        let mut r = String::new();
        let mut i: usize = 0;
        while i < 4
            invariant
                i <= 4,
                r@.len() == 64 * i,
                forall|k: int| 0 <= k < 64 * i ==> r@[k] == self.spec_binary_char(k),

            decreases 4 - i,
        {
            let w = self.chunk_at(i);
            let mut j: usize = 0;
            while j < 64
                invariant
                    i < 4,
                    j <= 64,
                    w == self.spec_chunk(i as int),
                    r@.len() == 64 * i + j,
                    forall|k: int| 0 <= k < 64 * i + j ==> r@[k] == self.spec_binary_char(k),
                decreases 64 - j,
            {
                proof {
                    reveal_strlit("0");
                    reveal_strlit("1");
                    crate::set::lemma_div64(64 * (i as int) + j as int, i as int, j as int);
                }
                if (w >> ((63 - j) as u64)) & 1 == 1 {
                    r.append("1");
                } else {
                    r.append("0");
                }
                j = j + 1;
            }
            i = i + 1;
        }
        r
    }
}

} // verus!
