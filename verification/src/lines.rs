use vstd::prelude::*;

verus! {

use crate::bits::{bit, row, col, sq_at, on_board, group_bit_lemmas};
use crate::bitboard::Bitboard;
use crate::attacks::{
    ray_sq, ray_on, ray_dist, on_ray, is_dir, step, abs, ray_attack, ray_clear,
};

broadcast use group_bit_lemmas;

pub open spec fn sign(x: int) -> int {
    if x > 0 {
        1
    } else if x < 0 {
        -1
    } else {
        0
    }
}

/// `s` and `t` are different squares on one rank, file or diagonal.
pub open spec fn aligned(s: int, t: int) -> bool {
    &&& 0 <= s < 64
    &&& 0 <= t < 64
    &&& s != t
    &&& (row(s) == row(t) || col(s) == col(t) || row(s) - col(s) == row(t) - col(t) || row(s)
        + col(s) == row(t) + col(t))
}

/// The direction that leads from `s` towards an aligned `t`.
pub open spec fn dir_r(s: int, t: int) -> int {
    sign(row(t) - row(s))
}

pub open spec fn dir_c(s: int, t: int) -> int {
    sign(col(t) - col(s))
}

/// The number of occupied squares among the first `k - 1` squares of a ray.
pub open spec fn blockers(s: int, occ: u64, dr: int, dc: int, k: int) -> nat
    decreases k,
{
    if k <= 1 {
        0
    } else {
        blockers(s, occ, dr, dc, k - 1) + if bit(occ, ray_sq(s, dr, dc, k - 1)) {
            1nat
        } else {
            0nat
        }
    }
}

/// No occupied square among the first `n - 1` squares of a ray: no blockers.
pub proof fn lemma_blockers_none(s: int, occ: u64, dr: int, dc: int, n: int)
    requires
        forall|i: int| 1 <= i < n ==> !#[trigger] bit(occ, ray_sq(s, dr, dc, i)),
    ensures
        blockers(s, occ, dr, dc, n) == 0,
    decreases n,
{
    if n > 1 {
        lemma_blockers_none(s, occ, dr, dc, n - 1);
    }
}

/// One occupied square at step `j`, the others before step `n` empty: one blocker.
pub proof fn lemma_blockers_one(s: int, occ: u64, dr: int, dc: int, n: int, j: int)
    requires
        1 <= j < n,
        bit(occ, ray_sq(s, dr, dc, j)),
        forall|i: int| 1 <= i < n && i != j ==> !#[trigger] bit(occ, ray_sq(s, dr, dc, i)),
    ensures
        blockers(s, occ, dr, dc, n) == 1,
    decreases n,
{
    if j < n - 1 {
        lemma_blockers_one(s, occ, dr, dc, n - 1, j);
    } else {
        lemma_blockers_none(s, occ, dr, dc, n - 1);
    }
}

/// An occupied square at step `j` before step `n` is a blocker.
pub proof fn lemma_blockers_some(s: int, occ: u64, dr: int, dc: int, n: int, j: int)
    requires
        1 <= j < n,
        bit(occ, ray_sq(s, dr, dc, j)),
    ensures
        blockers(s, occ, dr, dc, n) >= 1,
    decreases n,
{
    if j < n - 1 {
        lemma_blockers_some(s, occ, dr, dc, n - 1, j);
    }
}

/// Two boards that agree on the first `n - 1` squares of a ray have as many
/// blockers there.
pub proof fn lemma_blockers_same(s: int, occ1: u64, occ2: u64, dr: int, dc: int, n: int)
    requires
        forall|i: int|
            1 <= i < n ==> #[trigger] bit(occ1, ray_sq(s, dr, dc, i)) == bit(
                occ2,
                ray_sq(s, dr, dc, i),
            ),
    ensures
        blockers(s, occ1, dr, dc, n) == blockers(s, occ2, dr, dc, n),
    decreases n,
{
    if n > 1 {
        lemma_blockers_same(s, occ1, occ2, dr, dc, n - 1);
    }
}

/// Two occupied squares before step `n` are two blockers.
pub proof fn lemma_blockers_two(s: int, occ: u64, dr: int, dc: int, n: int, j1: int, j2: int)
    requires
        1 <= j1 < j2 < n,
        bit(occ, ray_sq(s, dr, dc, j1)),
        bit(occ, ray_sq(s, dr, dc, j2)),
    ensures
        blockers(s, occ, dr, dc, n) >= 2,
    decreases n,
{
    if j2 < n - 1 {
        lemma_blockers_two(s, occ, dr, dc, n - 1, j1, j2);
    } else {
        lemma_blockers_some(s, occ, dr, dc, n - 1, j1);
    }
}

/// The pin mask of a king on `k` and an enemy slider on an aligned `s`: when the
/// slider is there and exactly one piece stands between them, the squares from the
/// king (excluded) up to the slider (included); otherwise nothing.
pub open spec fn pin_segment(occ: u64, k: int, s: int, t: int) -> bool {
    let dr = dir_r(k, s);
    let dc = dir_c(k, s);
    let n = ray_dist(k, s, dr, dc);
    &&& bit(occ, s)
    &&& blockers(k, occ, dr, dc, n) == 1
    &&& on_ray(k, t, dr, dc)
    &&& ray_dist(k, t, dr, dc) <= n
}

/// The squares from `k` (excluded) up to an aligned `s` (included).
pub open spec fn segment(k: int, s: int, t: int) -> bool {
    let dr = dir_r(k, s);
    let dc = dir_c(k, s);
    on_ray(k, t, dr, dc) && ray_dist(k, t, dr, dc) <= ray_dist(k, s, dr, dc)
}

/// An aligned square lies on the ray from `k` towards it.
pub proof fn lemma_aligned_on_ray(k: int, s: int)
    requires
        aligned(k, s),
    ensures
        is_dir(dir_r(k, s), dir_c(k, s)),
        on_ray(k, s, dir_r(k, s), dir_c(k, s)),
        ray_dist(k, s, dir_r(k, s), dir_c(k, s)) <= 7,
{
}

/// The square `j` steps along a ray is the one square at that distance on the ray.
pub proof fn lemma_ray_square_unique(s: int, dr: int, dc: int, j: int)
    requires
        0 <= s < 64,
        is_dir(dr, dc),
        j >= 1,
        ray_on(s, dr, dc, j),
    ensures
        forall|t: int|
            #![trigger on_ray(s, t, dr, dc)]
            (t == ray_sq(s, dr, dc, j)) <==> (on_ray(s, t, dr, dc) && ray_dist(s, t, dr, dc) == j),
{
}

/// Walks from `king` towards `slider` and returns the squares passed, the slider
/// included, and the number of occupied squares between them.
fn walk_segment(occ: u64, king: u8, slider: u8, dr: i8, dc: i8) -> (res: (u64, u8))
    requires
        king < 64,
        slider < 64,
        is_dir(dr as int, dc as int),
        on_ray(king as int, slider as int, dr as int, dc as int),
    ensures
        res.1 == blockers(
            king as int,
            occ,
            dr as int,
            dc as int,
            ray_dist(king as int, slider as int, dr as int, dc as int),
        ),
        forall|t: int| #[trigger]
            bit(res.0, t) == (on_ray(king as int, t, dr as int, dc as int) && ray_dist(
                king as int,
                t,
                dr as int,
                dc as int,
            ) <= ray_dist(king as int, slider as int, dr as int, dc as int)),
{
    let ghost kk = king as int;
    let ghost d_r = dr as int;
    let ghost d_c = dc as int;
    let ghost n = ray_dist(kk, slider as int, d_r, d_c);
    let mut mask: u64 = 0;
    let mut count: u8 = 0;
    let mut r: i8 = (king / 8) as i8 + dr;
    let mut c: i8 = (king % 8) as i8 + dc;
    let mut j: i8 = 1;
    let kr = (king / 8) as i8;
    let kc = (king % 8) as i8;
    let sr = (slider / 8) as i8;
    let sc = (slider % 8) as i8;
    let nn: i8 = if dr > 0 {
        sr - kr
    } else if dr < 0 {
        kr - sr
    } else if dc > 0 {
        sc - kc
    } else {
        kc - sc
    };
    proof {
        assert(n <= 7);
        assert(nn == n);
    }
    loop
        invariant
            0 <= kk < 64,
            kk == king as int,
            is_dir(d_r, d_c),
            d_r == dr,
            d_c == dc,
            n == ray_dist(kk, slider as int, d_r, d_c),
            nn == n,
            on_ray(kk, slider as int, d_r, d_c),
            1 <= j <= n,
            n <= 7,
            r as int == row(kk) + step(j as int, d_r),
            c as int == col(kk) + step(j as int, d_c),
            count == blockers(kk, occ, d_r, d_c, j as int),
            count < j,
            forall|t: int| #[trigger]
                bit(mask, t) == (on_ray(kk, t, d_r, d_c) && ray_dist(kk, t, d_r, d_c) < j),
        decreases n - j,
    {
        proof {
            assert(ray_on(kk, d_r, d_c, j as int));
        }
        let sq = (r as u64) * 8 + (c as u64);
        proof {
            assert(sq == ray_sq(kk, d_r, d_c, j as int));
            lemma_ray_square_unique(kk, d_r, d_c, j as int);
        }
        let ghost old_mask = mask;
        mask = mask | (1u64 << sq);
        proof {
            assert forall|t: int| #[trigger] bit(mask, t) == (on_ray(kk, t, d_r, d_c) && ray_dist(
                kk,
                t,
                d_r,
                d_c,
            ) < j + 1) by {
                assert(bit(mask, t) == (bit(old_mask, t) || t == sq));
                if on_ray(kk, t, d_r, d_c) {
                }
            }
        }
        if j == nn {
            proof {
                assert(sq == slider);
                assert forall|t: int| #[trigger] bit(mask, t) == (on_ray(kk, t, d_r, d_c)
                    && ray_dist(kk, t, d_r, d_c) <= n) by {
                    if on_ray(kk, t, d_r, d_c) && ray_dist(kk, t, d_r, d_c) == n {
                        assert(t == ray_sq(kk, d_r, d_c, n));
                    }
                }
            }
            return (mask, count);
        }
        let occupied = occ & (1u64 << sq) != 0;
        proof {
            assert(occupied == bit(occ, sq as int)) by {
                assert((occ & (1u64 << sq) != 0) == ((occ >> sq) & 1u64 == 1u64)) by (bit_vector)
                    requires
                        sq < 64,
                ;
            }
            assert(sq == ray_sq(kk, d_r, d_c, j as int));
        }
        if occupied {
            count = count + 1;
        }
        j = j + 1;
        r = r + dr;
        c = c + dc;
    }
}

/// The pin mask between a king on `king_pos` and a slider on an aligned `slider_pos`.
fn line_pin_mask(occ: u64, king_pos: u8, slider_pos: u8) -> (r: u64)
    requires
        aligned(king_pos as int, slider_pos as int),
    ensures
        forall|t: int| #[trigger]
            bit(r, t) == pin_segment(occ, king_pos as int, slider_pos as int, t),
{
    proof {
        lemma_aligned_on_ray(king_pos as int, slider_pos as int);
    }
    let kr = (king_pos / 8) as i8;
    let kc = (king_pos % 8) as i8;
    let sr = (slider_pos / 8) as i8;
    let sc = (slider_pos % 8) as i8;
    let dr: i8 = if sr > kr {
        1
    } else if sr < kr {
        -1
    } else {
        0
    };
    let dc: i8 = if sc > kc {
        1
    } else if sc < kc {
        -1
    } else {
        0
    };
    let (mask, count) = walk_segment(occ, king_pos, slider_pos, dr, dc);
    let slider_there = occ & (1u64 << slider_pos) != 0;
    proof {
        let s = slider_pos;
        assert(slider_there == bit(occ, s as int)) by {
            assert((occ & (1u64 << s) != 0) == ((occ >> (s as u64)) & 1u64 == 1u64))
                by (bit_vector)
                requires
                    s < 64,
            ;
        }
    }
    if slider_there && count == 1 {
        mask
    } else {
        0
    }
}

/// The pin mask along the rank of the king.
pub fn pin_mask_h(occ: Bitboard, king_pos: u8, slider_pos: u8) -> (r: u64)
    requires
        king_pos < 64,
        slider_pos < 64,
        king_pos != slider_pos,
        row(king_pos as int) == row(slider_pos as int),
    ensures
        forall|t: int| #[trigger]
            bit(r, t) == pin_segment(occ.0, king_pos as int, slider_pos as int, t),
{
    line_pin_mask(occ.0, king_pos, slider_pos)
}

/// The pin mask along the file of the king.
pub fn pin_mask_v(occ: Bitboard, king_pos: u8, slider_pos: u8) -> (r: u64)
    requires
        king_pos < 64,
        slider_pos < 64,
        king_pos != slider_pos,
        col(king_pos as int) == col(slider_pos as int),
    ensures
        forall|t: int| #[trigger]
            bit(r, t) == pin_segment(occ.0, king_pos as int, slider_pos as int, t),
{
    line_pin_mask(occ.0, king_pos, slider_pos)
}

/// The pin mask along the diagonal of the king that runs from a8 to h1.
pub fn pin_mask_d1(occ: Bitboard, king_pos: u8, slider_pos: u8) -> (r: u64)
    requires
        king_pos < 64,
        slider_pos < 64,
        king_pos != slider_pos,
        row(king_pos as int) - col(king_pos as int) == row(slider_pos as int) - col(
            slider_pos as int,
        ),
    ensures
        forall|t: int| #[trigger]
            bit(r, t) == pin_segment(occ.0, king_pos as int, slider_pos as int, t),
{
    line_pin_mask(occ.0, king_pos, slider_pos)
}

/// The pin mask along the diagonal of the king that runs from h8 to a1.
pub fn pin_mask_d2(occ: Bitboard, king_pos: u8, slider_pos: u8) -> (r: u64)
    requires
        king_pos < 64,
        slider_pos < 64,
        king_pos != slider_pos,
        row(king_pos as int) + col(king_pos as int) == row(slider_pos as int) + col(
            slider_pos as int,
        ),
    ensures
        forall|t: int| #[trigger]
            bit(r, t) == pin_segment(occ.0, king_pos as int, slider_pos as int, t),
{
    line_pin_mask(occ.0, king_pos, slider_pos)
}

/// The squares from `king` (excluded) to an aligned `slider` (included).
pub fn segment_mask(king: u8, slider: u8) -> (r: u64)
    requires
        aligned(king as int, slider as int),
    ensures
        forall|t: int| #[trigger] bit(r, t) == segment(king as int, slider as int, t),
{
    proof {
        lemma_aligned_on_ray(king as int, slider as int);
    }
    let kr = (king / 8) as i8;
    let kc = (king % 8) as i8;
    let sr = (slider / 8) as i8;
    let sc = (slider % 8) as i8;
    let dr: i8 = if sr > kr {
        1
    } else if sr < kr {
        -1
    } else {
        0
    };
    let dc: i8 = if sc > kc {
        1
    } else if sc < kc {
        -1
    } else {
        0
    };
    let (mask, _count) = walk_segment(0, king, slider, dr, dc);
    mask
}

/// The squares of the rank of `sq`.
pub fn rank_mask(sq: u8) -> (r: u64)
    requires
        sq < 64,
    ensures
        forall|t: int| #[trigger] bit(r, t) == (0 <= t < 64 && row(t) == row(sq as int)),
{
    let rr = (sq / 8) as u64;
    let m = 0xffu64 << (8 * rr);
    assert forall|t: int| #[trigger] bit(m, t) == (0 <= t < 64 && row(t) == row(sq as int)) by {
        if 0 <= t < 64 {
            let tt = t as u64;
            assert(((0xffu64 << (8 * rr)) >> tt) & 1u64 == 1u64 <==> tt / 8 == rr) by (bit_vector)
                requires
                    rr < 8,
                    tt < 64,
            ;
        }
    }
    m
}

/// The squares of the file of `sq`.
pub fn file_mask(sq: u8) -> (r: u64)
    requires
        sq < 64,
    ensures
        forall|t: int| #[trigger] bit(r, t) == (0 <= t < 64 && col(t) == col(sq as int)),
{
    let cc = (sq % 8) as u64;
    let m = 0x0101_0101_0101_0101u64 << cc;
    assert forall|t: int| #[trigger] bit(m, t) == (0 <= t < 64 && col(t) == col(sq as int)) by {
        if 0 <= t < 64 {
            let tt = t as u64;
            assert(((0x0101_0101_0101_0101u64 << cc) >> tt) & 1u64 == 1u64 <==> tt % 8 == cc)
                by (bit_vector)
                requires
                    cc < 8,
                    tt < 64,
            ;
        }
    }
    m
}

} // verus!
