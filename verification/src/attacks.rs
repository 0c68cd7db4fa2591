use vstd::prelude::*;

verus! {

use crate::bits::{bit, row, col, sq_at, on_board, group_bit_lemmas};
use crate::bitboard::Bitboard;
use crate::color::Color;
use crate::piece::PieceType;

broadcast use group_bit_lemmas;

pub open spec fn abs(x: int) -> int {
    if x < 0 {
        -x
    } else {
        x
    }
}

/// `t` is a knight's jump away from `s`.
pub open spec fn knight_target(s: int, t: int) -> bool {
    let dr = abs(row(t) - row(s));
    let dc = abs(col(t) - col(s));
    0 <= t < 64 && ((dr == 1 && dc == 2) || (dr == 2 && dc == 1))
}

/// `t` is next to `s`.
pub open spec fn king_target(s: int, t: int) -> bool {
    let dr = abs(row(t) - row(s));
    let dc = abs(col(t) - col(s));
    0 <= t < 64 && dr <= 1 && dc <= 1 && !(dr == 0 && dc == 0)
}

/// `t` is diagonally in front of `s` for a pawn of `color`; white pawns move
/// towards the eighth rank (row 0), black pawns towards the first (row 7).
pub open spec fn pawn_target(s: int, t: int, color: Color) -> bool {
    0 <= t < 64 && abs(col(t) - col(s)) == 1 && row(t) == row(s) + match color {
        Color::White => -1int,
        Color::Black => 1int,
    }
}

/// Steps of size one in the direction `d` (-1, 0 or 1), taken `k` times.
pub open spec fn step(k: int, d: int) -> int {
    if d > 0 {
        k
    } else if d < 0 {
        -k
    } else {
        0
    }
}

/// The square `k` steps from `s` in direction (`dr`, `dc`).
pub open spec fn ray_sq(s: int, dr: int, dc: int, k: int) -> int {
    sq_at(row(s) + step(k, dr), col(s) + step(k, dc))
}

pub open spec fn ray_on(s: int, dr: int, dc: int, k: int) -> bool {
    on_board(row(s) + step(k, dr), col(s) + step(k, dc))
}

/// The number of steps from `s` to `t` along direction (`dr`, `dc`).
pub open spec fn ray_dist(s: int, t: int, dr: int, dc: int) -> int {
    if dr > 0 {
        row(t) - row(s)
    } else if dr < 0 {
        row(s) - row(t)
    } else if dc > 0 {
        col(t) - col(s)
    } else {
        col(s) - col(t)
    }
}

pub open spec fn is_dir(dr: int, dc: int) -> bool {
    -1 <= dr <= 1 && -1 <= dc <= 1 && !(dr == 0 && dc == 0)
}

/// `t` lies on the ray from `s` in direction (`dr`, `dc`), `s` itself excluded.
pub open spec fn on_ray(s: int, t: int, dr: int, dc: int) -> bool {
    let k = ray_dist(s, t, dr, dc);
    0 <= t < 64 && k >= 1 && ray_on(s, dr, dc, k) && t == ray_sq(s, dr, dc, k)
}

/// No square strictly before step `k` of the ray is occupied.
pub open spec fn ray_clear(s: int, occ: u64, dr: int, dc: int, k: int) -> bool {
    forall|j: int| 1 <= j < k ==> !#[trigger] bit(occ, ray_sq(s, dr, dc, j))
}

/// A sliding piece on `s` reaches `t` along the ray: every square up to and
/// including the first occupied one.
pub open spec fn ray_attack(s: int, occ: u64, dr: int, dc: int, t: int) -> bool {
    on_ray(s, t, dr, dc) && ray_clear(s, occ, dr, dc, ray_dist(s, t, dr, dc))
}

/// The squares a rook on `s` attacks.
pub open spec fn hv_attack(s: int, occ: u64, t: int) -> bool {
    ray_attack(s, occ, -1, 0, t) || ray_attack(s, occ, 1, 0, t) || ray_attack(s, occ, 0, -1, t)
        || ray_attack(s, occ, 0, 1, t)
}

/// The squares a bishop on `s` attacks.
pub open spec fn d12_attack(s: int, occ: u64, t: int) -> bool {
    ray_attack(s, occ, -1, -1, t) || ray_attack(s, occ, -1, 1, t) || ray_attack(s, occ, 1, -1, t)
        || ray_attack(s, occ, 1, 1, t)
}

/// The squares a piece of `color` and kind `piece` on `s` attacks.
pub open spec fn piece_attack(s: int, color: Color, piece: PieceType, occ: u64, t: int) -> bool {
    match piece {
        PieceType::Pawn => pawn_target(s, t, color),
        PieceType::Knight => knight_target(s, t),
        PieceType::Bishop => d12_attack(s, occ, t),
        PieceType::Rook => hv_attack(s, occ, t),
        PieceType::Queen => d12_attack(s, occ, t) || hv_attack(s, occ, t),
        PieceType::King => king_target(s, t),
        PieceType::Empty => false,
    }
}

/// Adds the square at (`r`, `c`) to `acc` when it is on the board.
fn with_square(acc: u64, r: i8, c: i8) -> (res: u64)
    ensures
        forall|t: int| #[trigger]
            bit(res, t) == (bit(acc, t) || (on_board(r as int, c as int) && t == sq_at(
                r as int,
                c as int,
            ))),
{
    if 0 <= r && r < 8 && 0 <= c && c < 8 {
        let s = (r as u64) * 8 + (c as u64);
        acc | (1u64 << s)
    } else {
        acc
    }
}

/// The squares a knight on `square` attacks.
pub fn knight_attacks(square: u8) -> (r: u64)
    requires
        square < 64,
    ensures
        forall|t: int| #[trigger] bit(r, t) == knight_target(square as int, t),
{
    let r = (square / 8) as i8;
    let c = (square % 8) as i8;
    let mut a: u64 = 0;
    a = with_square(a, r - 2, c + 1);
    a = with_square(a, r - 1, c + 2);
    a = with_square(a, r + 1, c + 2);
    a = with_square(a, r + 2, c + 1);
    a = with_square(a, r - 2, c - 1);
    a = with_square(a, r - 1, c - 2);
    a = with_square(a, r + 2, c - 1);
    a = with_square(a, r + 1, c - 2);
    a
}

/// The squares a king on `square` attacks.
pub fn king_attacks(square: u8) -> (r: u64)
    requires
        square < 64,
    ensures
        forall|t: int| #[trigger] bit(r, t) == king_target(square as int, t),
{
    let r = (square / 8) as i8;
    let c = (square % 8) as i8;
    let mut a: u64 = 0;
    a = with_square(a, r - 1, c);
    a = with_square(a, r, c - 1);
    a = with_square(a, r + 1, c);
    a = with_square(a, r, c + 1);
    a = with_square(a, r - 1, c - 1);
    a = with_square(a, r - 1, c + 1);
    a = with_square(a, r + 1, c - 1);
    a = with_square(a, r + 1, c + 1);
    a
}

/// Gets the squares a pawn of `color` on `square` attacks.
pub fn pawn_attacks(square: u8, color: Color) -> (r: u64)
    requires
        square < 64,
    ensures
        forall|t: int| #[trigger] bit(r, t) == pawn_target(square as int, t, color),
{
    let r = (square / 8) as i8;
    let c = (square % 8) as i8;
    let dr: i8 = if color.is_white() {
        -1
    } else {
        1
    };
    let mut a: u64 = 0;
    a = with_square(a, r + dr, c - 1);
    a = with_square(a, r + dr, c + 1);
    a
}

/// The squares a slider on `square` reaches in direction (`dr`, `dc`).
fn ray_attacks(square: u8, occ: u64, dr: i8, dc: i8) -> (res: u64)
    requires
        square < 64,
        is_dir(dr as int, dc as int),
    ensures
        forall|t: int| #[trigger]
            bit(res, t) == ray_attack(square as int, occ, dr as int, dc as int, t),
{
    let ghost s = square as int;
    let ghost d_r = dr as int;
    let ghost d_c = dc as int;
    let mut result: u64 = 0;
    let mut r: i8 = (square / 8) as i8 + dr;
    let mut c: i8 = (square % 8) as i8 + dc;
    let mut k: i8 = 1;
    loop
        invariant_except_break
            1 <= k <= 8,
            r as int == row(s) + step(k as int, d_r),
            c as int == col(s) + step(k as int, d_c),
            ray_clear(s, occ, d_r, d_c, k as int),
            forall|j: int| 1 <= j < k ==> #[trigger] ray_on(s, d_r, d_c, j),
            forall|t: int| #[trigger]
                bit(result, t) == (on_ray(s, t, d_r, d_c) && ray_dist(s, t, d_r, d_c) < k),
        invariant
            0 <= s < 64,
            is_dir(d_r, d_c),
            d_r == dr,
            d_c == dc,
        ensures
            forall|t: int| #[trigger] bit(result, t) == ray_attack(s, occ, d_r, d_c, t),
        decreases 8 - k,
    {
        if !(0 <= r && r < 8 && 0 <= c && c < 8) {
            proof {
                assert forall|t: int| #[trigger]
                    bit(result, t) == ray_attack(s, occ, d_r, d_c, t) by {
                    if on_ray(s, t, d_r, d_c) {
                        assert(ray_dist(s, t, d_r, d_c) < k);
                    }
                }
            }
            break ;
        }
        let sq = (r as u64) * 8 + (c as u64);
        proof {
            assert(ray_on(s, d_r, d_c, k as int));
            assert(sq == ray_sq(s, d_r, d_c, k as int));
        }
        result = result | (1u64 << sq);
        if occ & (1u64 << sq) != 0 {
            proof {
                assert(bit(occ, sq as int)) by {
                    assert((occ & (1u64 << sq) != 0) ==> (occ >> sq) & 1u64 == 1u64)
                        by (bit_vector)
                        requires
                            sq < 64,
                    ;
                }
                assert forall|t: int| #[trigger]
                    bit(result, t) == ray_attack(s, occ, d_r, d_c, t) by {
                    if on_ray(s, t, d_r, d_c) && ray_dist(s, t, d_r, d_c) > k {
                        assert(bit(occ, ray_sq(s, d_r, d_c, k as int)));
                    }
                    if bit(result, t) {
                        if t != sq {
                            assert(on_ray(s, t, d_r, d_c));
                        }
                    }
                }
            }
            break ;
        }
        proof {
            assert(!bit(occ, sq as int)) by {
                assert((occ & (1u64 << sq) == 0) ==> (occ >> sq) & 1u64 != 1u64) by (bit_vector)
                    requires
                        sq < 64,
                ;
            }
            assert forall|j: int| 1 <= j < k + 1 implies !#[trigger] bit(
                occ,
                ray_sq(s, d_r, d_c, j),
            ) by {
                if j < k {
                    assert(ray_clear(s, occ, d_r, d_c, k as int));
                }
            }
        }
        k = k + 1;
        r = r + dr;
        c = c + dc;
    }
    result
}

/// The squares a rook on `square` attacks with the occupancy `occ`.
pub fn hv_attacks(square: u8, occ: Bitboard) -> (r: u64)
    requires
        square < 64,
    ensures
        forall|t: int| #[trigger] bit(r, t) == hv_attack(square as int, occ.0, t),
{
    let o = occ.0;
    ray_attacks(square, o, -1, 0) | ray_attacks(square, o, 1, 0) | ray_attacks(square, o, 0, -1)
        | ray_attacks(square, o, 0, 1)
}

/// The squares a bishop on `square` attacks with the occupancy `occ`.
pub fn d12_attacks(square: u8, occ: Bitboard) -> (r: u64)
    requires
        square < 64,
    ensures
        forall|t: int| #[trigger] bit(r, t) == d12_attack(square as int, occ.0, t),
{
    let o = occ.0;
    ray_attacks(square, o, -1, -1) | ray_attacks(square, o, -1, 1) | ray_attacks(square, o, 1, -1)
        | ray_attacks(square, o, 1, 1)
}

/// The squares a rook on `square` attacks with the occupancy `occ`.
pub fn rook_attacks(square: u8, occ: Bitboard) -> (r: u64)
    requires
        square < 64,
    ensures
        forall|t: int| #[trigger] bit(r, t) == hv_attack(square as int, occ.0, t),
{
    hv_attacks(square, occ)
}

/// The squares a bishop on `square` attacks with the occupancy `occ`.
pub fn bishop_attacks(square: u8, occ: Bitboard) -> (r: u64)
    requires
        square < 64,
    ensures
        forall|t: int| #[trigger] bit(r, t) == d12_attack(square as int, occ.0, t),
{
    d12_attacks(square, occ)
}

/// The squares a queen on `square` attacks with the occupancy `occ`.
pub fn queen_attacks(square: u8, occ: Bitboard) -> (r: u64)
    requires
        square < 64,
    ensures
        forall|t: int| #[trigger]
            bit(r, t) == (d12_attack(square as int, occ.0, t) || hv_attack(square as int, occ.0, t)),
{
    d12_attacks(square, occ) | hv_attacks(square, occ)
}

/// The squares a piece on `square` attacks.
pub fn get_attacks(square: u8, color: Color, piece_type: PieceType, occupancies: Bitboard) -> (r:
    u64)
    requires
        square < 64,
        piece_type != PieceType::Empty,
    ensures
        forall|t: int| #[trigger]
            bit(r, t) == piece_attack(square as int, color, piece_type, occupancies.0, t),
{
    match piece_type {
        PieceType::Pawn => pawn_attacks(square, color),
        PieceType::Knight => knight_attacks(square),
        PieceType::Bishop => d12_attacks(square, occupancies),
        PieceType::Rook => hv_attacks(square, occupancies),
        PieceType::Queen => d12_attacks(square, occupancies) | hv_attacks(square, occupancies),
        _ => king_attacks(square),
    }
}

} // verus!
