use vstd::prelude::*;

verus! {

use crate::moves::Move;

/// Rows and columns of the table: one per ply from 0 to `MAX_PLY` included.
pub const PV_SIZE: usize = 65;

/// The triangular table of principal variations: row `k` holds, from column `k`
/// to before its length, the best line found from ply `k` on.
pub struct PVTable {
    pub pv_table: Vec<Option<Move>>,
    pub pv_lengths: Vec<usize>,
}

/// Rows and columns of the table are laid out row after row.
proof fn lemma_index(k: int, i: int, k2: int, i2: int)
    requires
        0 <= k < 65,
        0 <= i < 65,
        0 <= k2 < 65,
        0 <= i2 < 65,
    ensures
        0 <= k * 65 + i < 65 * 65,
        (k * 65 + i == k2 * 65 + i2) <==> (k == k2 && i == i2),
{
    assert(0 <= k * 65 + i < 65 * 65) by (nonlinear_arith)
        requires
            0 <= k < 65,
            0 <= i < 65,
    ;
    assert((k * 65 + i == k2 * 65 + i2) ==> (k == k2 && i == i2)) by (nonlinear_arith)
        requires
            0 <= k < 65,
            0 <= i < 65,
            0 <= k2 < 65,
            0 <= i2 < 65,
    ;
}

impl PVTable {
    /// The move in row `k`, column `i`.
    pub open spec fn entry(&self, k: int, i: int) -> Option<Move> {
        self.pv_table@[k * 65 + i]
    }

    /// The length of row `k`.
    pub open spec fn length(&self, k: int) -> int {
        self.pv_lengths@[k] as int
    }

    /// Every row holds a move from its own ply to before its length.
    pub open spec fn wf(&self) -> bool {
        &&& self.pv_table@.len() == 65 * 65
        &&& self.pv_lengths@.len() == 65
        &&& forall|k: int| 0 <= k < 65 ==> #[trigger] self.length(k) <= 64
        &&& forall|k: int, i: int|
            0 <= k < 65 && k <= i < self.length(k) ==> (#[trigger] self.entry(k, i)) is Some
    }

    pub fn new() -> (r: PVTable)
        ensures
            r.wf(),
            forall|k: int, i: int| 0 <= k < 65 && 0 <= i < 65 ==> #[trigger] r.entry(k, i) is None,
            forall|k: int| 0 <= k < 65 ==> #[trigger] r.length(k) == 0,
    {
        let mut pv_table: Vec<Option<Move>> = Vec::new();
        let mut i: usize = 0;
        while i < 65 * 65
            invariant
                i <= 65 * 65,
                pv_table@.len() == i,
                forall|j: int| 0 <= j < i ==> #[trigger] pv_table@[j] is None,
            decreases 65 * 65 - i,
        {
            pv_table.push(None);
            i = i + 1;
        }
        let mut pv_lengths: Vec<usize> = Vec::new();
        let mut k: usize = 0;
        while k < 65
            invariant
                k <= 65,
                pv_lengths@.len() == k,
                forall|j: int| 0 <= j < k ==> #[trigger] pv_lengths@[j] == 0,
            decreases 65 - k,
        {
            pv_lengths.push(0);
            k = k + 1;
        }
        let r = PVTable { pv_table, pv_lengths };
        assert forall|k: int, i: int| 0 <= k < 65 && 0 <= i < 65 implies #[trigger] r.entry(k, i)
            is None by {
            assert(0 <= k * 65 + i < 65 * 65) by (nonlinear_arith)
                requires
                    0 <= k < 65,
                    0 <= i < 65,
            ;
        }
        r
    }

    /// The first move of the principal variation from the root.
    pub fn best_move(&self) -> (r: Option<Move>)
        requires
            self.wf(),
        ensures
            r == self.entry(0, 0),
    {
        self.pv_table[0]
    }

    /// Starts the line of ply `ply` afresh: it is empty.
    pub fn reset(&mut self, ply: u8)
        requires
            old(self).wf(),
            ply <= 64,
        ensures
            final(self).wf(),
            final(self).length(ply as int) == ply,
            forall|k: int| 0 <= k < 65 && k != ply ==> #[trigger] final(self).length(k) == old(
                self,
            ).length(k),
            final(self).pv_table == old(self).pv_table,
    {
        let ghost old_self = *self;
        self.pv_lengths.set(ply as usize, ply as usize);
        assert forall|k: int, i: int|
            0 <= k < 65 && k <= i < self.length(k) implies (#[trigger] self.entry(k, i)) is Some by {
            if k != ply {
                assert(old_self.length(k) == self.length(k));
                assert(old_self.entry(k, i) is Some);
            }
        }
        assert forall|k: int| 0 <= k < 65 implies #[trigger] self.length(k) <= 64 by {
            if k != ply {
                assert(old_self.length(k) <= 64);
            }
        }
    }

    /// Records `moove` as the best move at `ply`: the line of `ply` becomes the move
    /// followed by the line of the next ply.
    pub fn insert_pv_node(&mut self, moove: Move, ply: u8)
        requires
            old(self).wf(),
            ply < 64,
        ensures
            final(self).wf(),
            final(self).entry(ply as int, ply as int) == Some(moove),
            forall|i: int|
                ply < i <= old(self).length(ply + 1) ==> #[trigger] final(self).entry(ply as int, i)
                    == old(self).entry(ply + 1, i),
            final(self).length(ply as int) == old(self).length(ply + 1),
            forall|k: int, i: int|
                0 <= k < 65 && 0 <= i < 65 && (k != ply || i < ply || (i > ply && i > old(
                    self,
                ).length(ply + 1))) ==> #[trigger] final(self).entry(k, i) == old(self).entry(k, i),
            forall|k: int| 0 <= k < 65 && k != ply ==> #[trigger] final(self).length(k) == old(
                self,
            ).length(k),
    {
        let ghost old_self = *self;
        let p = ply as usize;
        let base = p * 65;
        proof {
            lemma_index(p as int, p as int, 0, 0);
        }
        self.pv_table.set(base + p, Some(moove));
        assert forall|k: int, j: int|
            0 <= k < 65 && 0 <= j < 65 && !(k == p && j == p) implies #[trigger] self.entry(k, j)
            == old_self.entry(k, j) by {
            lemma_index(k, j, p as int, p as int);
        }
        let end = self.pv_lengths[p + 1];
        let mut i = p + 1;
        while i <= end
            invariant
                p < 64,
                base == p * 65,
                p + 1 <= i,
                i <= end + 1 || i == p + 1,
                end == old_self.length(p + 1),
                end <= 64,
                self.pv_lengths == old_self.pv_lengths,
                self.pv_table@.len() == 65 * 65,
                self.entry(p as int, p as int) == Some(moove),
                forall|j: int| p < j < i ==> #[trigger] self.entry(p as int, j) == old_self.entry(
                    p + 1,
                    j,
                ),
                forall|k: int, j: int|
                    0 <= k < 65 && 0 <= j < 65 && (k != p || j < p || j >= i) && !(k == p && j == p)
                        ==> #[trigger] self.entry(k, j) == old_self.entry(k, j),
            decreases end + 1 - i,
        {
            proof {
                lemma_index(p + 1, i as int, 0, 0);
                lemma_index(p as int, i as int, 0, 0);
            }
            let ghost before = *self;
            let m = self.pv_table[base + 65 + i];
            assert(m == old_self.entry(p + 1, i as int)) by {
                assert((p + 1) * 65 + i == base + 65 + i);
                assert(!(p + 1 == p && i == p));
                assert(before.entry(p + 1, i as int) == old_self.entry(p + 1, i as int));
            }
            self.pv_table.set(base + i, m);
            assert forall|k: int, j: int|
                0 <= k < 65 && 0 <= j < 65 && (k != p || j < p || j >= i + 1) && !(k == p && j
                    == p) implies #[trigger] self.entry(k, j) == old_self.entry(k, j) by {
                lemma_index(k, j, p as int, i as int);
                assert(before.entry(k, j) == old_self.entry(k, j));
            }
            assert forall|j: int| p < j < i + 1 implies #[trigger] self.entry(p as int, j)
                == old_self.entry(p + 1, j) by {
                lemma_index(p as int, j, p as int, i as int);
                if j < i {
                    assert(before.entry(p as int, j) == old_self.entry(p + 1, j));
                }
            }
            assert(self.entry(p as int, p as int) == Some(moove)) by {
                lemma_index(p as int, p as int, p as int, i as int);
            }
            i = i + 1;
        }
        let ghost copied = *self;
        self.pv_lengths.set(p, end);
        assert forall|k: int, j: int|
            0 <= k < 65 && k <= j < self.length(k) implies (#[trigger] self.entry(k, j)) is Some by {
            assert(self.entry(k, j) == copied.entry(k, j));
            if k != p {
                assert(copied.entry(k, j) == old_self.entry(k, j));
                assert(old_self.entry(k, j) is Some);
            } else if j > p {
                assert(copied.entry(p as int, j) == old_self.entry(p + 1, j));
                assert(old_self.entry(p + 1, j) is Some);
            }
        }
        assert forall|k: int| 0 <= k < 65 implies #[trigger] self.length(k) <= 64 by {
            if k != p {
                assert(old_self.length(k) <= 64);
            }
        }
        assert forall|j: int| p < j <= old_self.length(p + 1) implies #[trigger] self.entry(
            p as int,
            j,
        ) == old_self.entry(p + 1, j) by {
            assert(copied.entry(p as int, j) == old_self.entry(p + 1, j));
        }
        assert forall|k: int, j: int|
            0 <= k < 65 && 0 <= j < 65 && (k != p || j < p || (j > p && j > old_self.length(
                p + 1,
            ))) implies #[trigger] self.entry(k, j) == old_self.entry(k, j) by {
            assert(copied.entry(k, j) == old_self.entry(k, j));
        }
    }

    /// The principal variation from the root.
    pub fn pv_line(&self) -> (r: Vec<Move>)
        requires
            self.wf(),
        ensures
            r@.len() == self.length(0),
            forall|i: int| 0 <= i < r@.len() ==> Some(#[trigger] r@[i]) == self.entry(0, i),
    {
        let mut r: Vec<Move> = Vec::new();
        let n = self.pv_lengths[0];
        let mut i: usize = 0;
        while i < n
            invariant
                self.wf(),
                n == self.length(0),
                i <= n,
                r@.len() == i,
                forall|j: int| 0 <= j < i ==> Some(#[trigger] r@[j]) == self.entry(0, j),
            decreases n - i,
        {
            assert(self.entry(0, i as int) is Some);
            match self.pv_table[i] {
                Some(m) => r.push(m),
                None => {},
            }
            i = i + 1;
        }
        r
    }
}

} // verus!
