use vstd::prelude::*;

verus! {

use crate::position::Position;

/// How often `h` occurs among the first `n` entries of `s`.
pub open spec fn occurrences(s: Seq<u64>, h: u64, n: int) -> nat
    decreases n,
{
    if n <= 0 {
        0
    } else {
        occurrences(s, h, n - 1) + if s[n - 1] == h {
            1nat
        } else {
            0nat
        }
    }
}

/// The hashes of the positions reached since the last irreversible move: the
/// first `len` slots. The slots past `len` are left over from before the last
/// `clear` and take no part in the repetition count.
#[derive(Clone, Copy)]
pub struct RepetitionTable {
    len: usize,
    hashes: [u64; 100],
}

impl RepetitionTable {
    /// The number of hashes pushed since the last clear.
    pub closed spec fn length(self) -> nat {
        self.len as nat
    }

    /// All hash slots, the stale ones included.
    pub closed spec fn slots(self) -> Seq<u64> {
        self.hashes@
    }

    pub closed spec fn wf(self) -> bool {
        self.len <= 100
    }

    /// A table is what its length and its slots say.
    pub proof fn lemma_table_eq(a: RepetitionTable, b: RepetitionTable)
        requires
            a.length() == b.length(),
            a.slots() == b.slots(),
        ensures
            a == b,
    {
        assert(a.hashes =~= b.hashes) by {
            broadcast use vstd::array::group_array_axioms;

            assert forall|i: int| 0 <= i < 100 implies a.hashes[i] == b.hashes[i] by {
                assert(a.hashes@[i] == b.hashes@[i]);
            }
        }
    }

    pub fn new() -> (r: RepetitionTable)
        ensures
            r.wf(),
            r.length() == 0,
            r.slots() == Seq::new(100, |i: int| 0u64),
    {
        let r = RepetitionTable { len: 0, hashes: [0u64; 100] };
        assert(r.hashes@ =~= Seq::new(100, |i: int| 0u64));
        r
    }

    pub fn len(&self) -> (r: usize)
        ensures
            r == self.length(),
    {
        self.len
    }

    pub fn push(&mut self, hash: u64)
        requires
            old(self).wf(),
            old(self).length() < 100,
        ensures
            final(self).wf(),
            final(self).length() == old(self).length() + 1,
            final(self).slots() == old(self).slots().update(old(self).length() as int, hash),
    {
        self.hashes[self.len] = hash;
        self.len = self.len + 1;
    }

    pub fn clear(&mut self)
        requires
            old(self).wf(),
        ensures
            final(self).wf(),
            final(self).length() == 0,
            final(self).slots() == old(self).slots(),
    {
        self.len = 0;
    }

    /// How often a hash occurs among the hashes pushed since the last clear.
    fn count(&self, hash: u64) -> (r: usize)
        requires
            self.wf(),
        ensures
            r == occurrences(self.slots(), hash, self.length() as int),
    {
        let mut n: usize = 0;
        let mut i: usize = 0;
        while i < self.len
            invariant
                0 <= i <= self.len,
                self.len <= 100,
                n == occurrences(self.hashes@, hash, i as int),
                n <= i,
            decreases self.len - i,
        {
            if self.hashes[i] == hash {
                n = n + 1;
            }
            i = i + 1;
        }
        n
    }

    /// Whether the position occurs three times among the hashes pushed since the
    /// last clear. The check is skipped before the eighth half move since the last
    /// irreversible move, as no repetition is possible earlier.
    pub fn is_in_3_fold_rep(&self, pos: &Position) -> (r: bool)
        requires
            self.wf(),
        ensures
            r == (pos.half_moves >= 8 && occurrences(self.slots(), pos.zobrist_hash, self.length() as int)
                >= 3),
    {
        if pos.half_moves >= 8 {
            let repetitions = self.count(pos.zobrist_hash);
            return repetitions >= 3;
        }
        false
    }
}

} // verus!
