use vstd::prelude::*;

verus! {

use crate::attacks::{
    pawn_attacks, knight_attacks, king_attacks, hv_attacks, d12_attacks, get_attacks, pawn_target,
    knight_target, king_target, d12_attack, hv_attack, piece_attack, ray_attack, ray_clear, on_ray, ray_dist,
    ray_sq, is_dir,
};
use vstd::std_specs::bits::u64_trailing_zeros;
use crate::bits::{bit, row, col, group_bit_lemmas, lemma_zero_iff_no_bits};
use crate::bitboard::{Bitboard, BitUtils, pop_lowest};
use crate::castling::CastlingSide;
use crate::color::Color;
use crate::lines::{
    aligned, pin_mask_h, pin_mask_v, pin_mask_d1, pin_mask_d2, segment_mask, rank_mask, file_mask,
    segment, dir_r, dir_c, pin_segment, blockers, lemma_aligned_on_ray, lemma_blockers_two,
    lemma_blockers_same,
};
use crate::make_move::{
    move_sound, behind, rook_from, rook_to, is_ks, is_qs, is_cap, is_dp, is_ep, is_promo,
    moving_piece, made, irreversible, counters_ok,
};
use crate::moves::uci_bytes;
use crate::text::bytes_equal;
use vstd::string::StringSliceAdditionalSpecFns;
use crate::move_list::MoveList;
use crate::moves::{Move, MoveType};
use crate::piece::PieceType;
use crate::position::Position;

broadcast use group_bit_lemmas;

/// The square in front of `s` for a pawn of color `c`.
pub open spec fn forward(c: Color, s: int) -> int {
    match c {
        Color::White => s - 8,
        Color::Black => s + 8,
    }
}

/// `s` is on the rank the pawns of `c` start from.
pub open spec fn pawn_start_rank(c: Color, s: int) -> bool {
    match c {
        Color::White => 48 <= s < 56,
        Color::Black => 8 <= s < 16,
    }
}

/// `s` is on the rank where the pawns of `c` promote.
pub open spec fn last_rank(c: Color, s: int) -> bool {
    match c {
        Color::White => 0 <= s < 8,
        Color::Black => 56 <= s < 64,
    }
}

/// The square the king of `c` starts from.
pub open spec fn king_home(c: Color) -> int {
    match c {
        Color::White => 60,
        Color::Black => 4,
    }
}

/// The square the king of `c` castles to, on the king side or the queen side.
pub open spec fn castle_target(c: Color, king_side: bool) -> int {
    match (c, king_side) {
        (Color::White, true) => 62,
        (Color::White, false) => 58,
        (Color::Black, true) => 6,
        (Color::Black, false) => 2,
    }
}

/// The castling right of `c` on the king side or on the queen side.
pub open spec fn castle_side(c: Color, king_side: bool) -> CastlingSide {
    match (c, king_side) {
        (Color::White, true) => CastlingSide::WhiteKingSide,
        (Color::White, false) => CastlingSide::WhiteQueenSide,
        (Color::Black, true) => CastlingSide::BlackKingSide,
        (Color::Black, false) => CastlingSide::BlackQueenSide,
    }
}

/// The board of `pos` with the king of `c` taken off.
pub open spec fn occ_without_king(pos: Position, c: Color) -> u64 {
    pos.all_occupancies.0 ^ pos.bitboards@[PieceType::King.index_of(c)].0
}

/// No enemy piece attacks `t` once the king of the side to move is taken off the
/// board, so that the king may stand on `t`.
pub open spec fn safe_square(pos: Position, t: int) -> bool {
    let o = pos.active_color.other();
    forall|s: int, p: PieceType|
        #![trigger pos.holds(s, o, p), piece_attack(s, o, p, occ_without_king(pos, pos.active_color), t)]
        0 <= s < 64 && pos.holds(s, o, p) ==> !piece_attack(
            s,
            o,
            p,
            occ_without_king(pos, pos.active_color),
            t,
        )
}

/// The move goes the way its piece moves: a castling king, with the right to
/// castle on that side, from its home square to two squares aside, over and onto
/// squares no enemy piece attacks and not out of check, every square between king
/// and rook empty; a pawn one square forward, two from its starting rank over an
/// empty square, or diagonally forward when it captures (en passant onto the en
/// passant square), promoting exactly when it reaches the last rank (en passant
/// aside); a king to a square next to it that no enemy piece attacks; any other
/// piece to a square it attacks, a slider along a line with nothing in between.
pub open spec fn move_shape(pos: Position, m: Move) -> bool {
    let c = pos.active_color;
    let src = m.from_sq() as int;
    let dst = m.to_sq() as int;
    let p = moving_piece(pos, m);
    if is_ks(m) || is_qs(m) {
        &&& p == PieceType::King
        &&& src == king_home(c)
        &&& dst == castle_target(c, is_ks(m))
        &&& pos.castling_ability.allows(castle_side(c, is_ks(m)))
        &&& is_qs(m) ==> pos.piece_on(rook_from(c, false) + 1) is None
        &&& safe_square(pos, src)
        &&& safe_square(pos, (src + dst) / 2)
        &&& safe_square(pos, dst)
    } else if p == PieceType::Pawn {
        &&& if is_cap(m) {
            pawn_target(src, dst, c)
        } else if is_dp(m) {
            pawn_start_rank(c, src) && dst == forward(c, forward(c, src)) && pos.piece_on(
                forward(c, src),
            ) is None
        } else {
            dst == forward(c, src)
        }
        &&& !is_ep(m) ==> (is_promo(m) == last_rank(c, dst))
        &&& is_ep(m) ==> bit(pos.enpassant_square.0, dst)
    } else {
        &&& piece_attack(src, c, p, pos.all_occupancies.0, dst)
        &&& p == PieceType::King ==> safe_square(pos, dst)
        &&& !is_promo(m)
        &&& !is_dp(m)
        &&& !is_ep(m)
    }
}

/// The squares of the castling masks that the castling king crosses or lands on,
/// and that the rook lands on.
proof fn lemma_castle_masks()
    ensures
        bit(0x6000_0000_0000_0000u64, 61) && bit(0x6000_0000_0000_0000u64, 62),
        bit(0x0c00_0000_0000_0000u64, 58) && bit(0x0c00_0000_0000_0000u64, 59),
        bit(0x0e00_0000_0000_0000u64, 58) && bit(0x0e00_0000_0000_0000u64, 59),
        bit(0x0e00_0000_0000_0000u64, 57) && bit(0x0eu64, 1),
        bit(0x60u64, 5) && bit(0x60u64, 6),
        bit(0x0cu64, 2) && bit(0x0cu64, 3),
        bit(0x0eu64, 2) && bit(0x0eu64, 3),
{
    assert({
        &&& (0x6000_0000_0000_0000u64 >> 61u64) & 1u64 == 1u64
        &&& (0x6000_0000_0000_0000u64 >> 62u64) & 1u64 == 1u64
        &&& (0x0c00_0000_0000_0000u64 >> 58u64) & 1u64 == 1u64
        &&& (0x0c00_0000_0000_0000u64 >> 59u64) & 1u64 == 1u64
        &&& (0x0e00_0000_0000_0000u64 >> 58u64) & 1u64 == 1u64
        &&& (0x0e00_0000_0000_0000u64 >> 59u64) & 1u64 == 1u64
        &&& (0x0e00_0000_0000_0000u64 >> 57u64) & 1u64 == 1u64
        &&& (0x0eu64 >> 1u64) & 1u64 == 1u64
        &&& (0x60u64 >> 5u64) & 1u64 == 1u64
        &&& (0x60u64 >> 6u64) & 1u64 == 1u64
        &&& (0x0cu64 >> 2u64) & 1u64 == 1u64
        &&& (0x0cu64 >> 3u64) & 1u64 == 1u64
        &&& (0x0eu64 >> 2u64) & 1u64 == 1u64
        &&& (0x0eu64 >> 3u64) & 1u64 == 1u64
    }) by (bit_vector);
}

/// A pawn capture lands on the last rank exactly when the pawn starts from the rank
/// before it.
proof fn lemma_pawn_target_rank(s: int, t: int, c: Color)
    requires
        0 <= s < 64,
        pawn_target(s, t, c),
    ensures
        last_rank(c, t) <==> match c {
            Color::White => 8 <= s < 16,
            Color::Black => 48 <= s < 56,
        },
{
}

/// The move fits the board of `pos`, goes the way its piece moves, and, unless
/// the king moves, answers every check given and keeps every pin: what holds of
/// each move that `generate_moves` lists.
pub open spec fn generated_move(pos: Position, m: Move) -> bool {
    move_sound(pos, m) && move_shape(pos, m) && evades(pos, m) && keeps_pins(pos, m)
        && canonical_flags(m)
}

/// The flag bits name a kind of move: the two codes with both the capture bit and
/// the top bit set, but not the promotion bit, name none.
pub open spec fn canonical_flags(m: Move) -> bool {
    m.flags() != 9 && m.flags() != 13
}

/// Every move of the list is one that `generate_moves` may list.
pub open spec fn list_sound(pos: Position, s: Seq<(u16, i16)>) -> bool {
    forall|i: int| 0 <= i < s.len() ==> generated_move(pos, Move { data: #[trigger] s[i].0 })
}

/// The flag bits of a plain move to `t`: a capture when an enemy piece stands there.
pub open spec fn capture_flag(pos: Position, t: int) -> int {
    if enemy(pos, t) {
        1
    } else {
        0
    }
}

/// `t` is reached from `x` along the rank and file rays (`hv`), the diagonal rays
/// (`d12`), or, with neither, by a knight jump.
pub open spec fn reaches(hv: bool, d12: bool, x: int, occ: u64, t: int) -> bool {
    if hv || d12 {
        (hv && hv_attack(x, occ, t)) || (d12 && d12_attack(x, occ, t))
    } else {
        knight_target(x, t)
    }
}

/// The data of a move from `src` to `dst` with the flag bits `flags`.
pub open spec fn has_move(d: u16, src: int, dst: int, flags: int) -> bool {
    &&& Move { data: d }.from_sq() == src
    &&& Move { data: d }.to_sq() == dst
    &&& Move { data: d }.flags() == flags
}

/// The list holds a move from `src` to `dst` with the flag bits `flags`.
pub open spec fn listed_as(s: Seq<(u16, i16)>, src: int, dst: int, flags: int) -> bool {
    exists|i: int| 0 <= i < s.len() && #[trigger] has_move(s[i].0, src, dst, flags)
}

/// The list holds the move `m`.
pub open spec fn listed(s: Seq<(u16, i16)>, m: Move) -> bool {
    exists|i: int| 0 <= i < s.len() && (#[trigger] s[i]).0 == m.data
}

/// `t` keeps the entries of `s` in place and may add more after them.
pub open spec fn grows(s: Seq<(u16, i16)>, t: Seq<(u16, i16)>) -> bool {
    &&& s.len() <= t.len()
    &&& forall|i: int| 0 <= i < s.len() ==> #[trigger] t[i] == s[i]
}

proof fn lemma_grows_trans(a: Seq<(u16, i16)>, b: Seq<(u16, i16)>, c: Seq<(u16, i16)>)
    requires
        grows(a, b),
        grows(b, c),
    ensures
        grows(a, c),
{
    assert forall|i: int| 0 <= i < a.len() implies #[trigger] c[i] == a[i] by {
        assert(b[i] == a[i]);
    }
}

/// A move listed before the list grows stays listed, as long as the list never fills.
proof fn lemma_carry(a: Seq<(u16, i16)>, b: Seq<(u16, i16)>, src: int, dst: int, flags: int)
    requires
        grows(a, b),
        a.len() < 256 ==> listed_as(a, src, dst, flags),
    ensures
        b.len() < 256 ==> listed_as(b, src, dst, flags),
{
    if b.len() < 256 {
        let i = choose|i: int| 0 <= i < a.len() && #[trigger] has_move(a[i].0, src, dst, flags);
        assert(b[i] == a[i]);
        assert(has_move(b[i].0, src, dst, flags));
    }
}

/// Four pushes in a row, of the promotions to a queen, a rook, a bishop and a
/// knight, list every promotion of that pawn move.
proof fn lemma_promotions_listed(
    a0: Seq<(u16, i16)>,
    a1: Seq<(u16, i16)>,
    a2: Seq<(u16, i16)>,
    a3: Seq<(u16, i16)>,
    a4: Seq<(u16, i16)>,
    src: int,
    dst: int,
    cap: int,
)
    requires
        grows(a0, a1),
        grows(a1, a2),
        grows(a2, a3),
        grows(a3, a4),
        a1.len() < 256 ==> listed_as(a1, src, dst, 14 + cap),
        a2.len() < 256 ==> listed_as(a2, src, dst, 10 + cap),
        a3.len() < 256 ==> listed_as(a3, src, dst, 6 + cap),
        a4.len() < 256 ==> listed_as(a4, src, dst, 2 + cap),
    ensures
        grows(a0, a4),
        a4.len() < 256 ==> forall|f: int|
            0 <= f < 16 && f % 4 == 2 + cap ==> #[trigger] listed_as(a4, src, dst, f),
{
    lemma_grows_trans(a0, a1, a2);
    lemma_grows_trans(a0, a2, a3);
    lemma_grows_trans(a0, a3, a4);
    lemma_grows_trans(a1, a2, a3);
    lemma_grows_trans(a1, a3, a4);
    lemma_grows_trans(a2, a3, a4);
    lemma_carry(a1, a4, src, dst, 14 + cap);
    lemma_carry(a2, a4, src, dst, 10 + cap);
    lemma_carry(a3, a4, src, dst, 6 + cap);
}

/// The list holds every capture of the pawn on `src` onto an enemy piece on a
/// square of both masks, as the four promotions when it reaches the last rank.
pub open spec fn pawn_captures_listed(
    pos: Position,
    src: int,
    check_mask: u64,
    pin_mask: u64,
    e: Seq<(u16, i16)>,
) -> bool {
    let c = pos.active_color;
    &&& forall|t: int|
        pawn_target(src, t, c) && bit(check_mask, t) && bit(pin_mask, t) && enemy(pos, t)
            && !last_rank(c, t) ==> #[trigger] listed_as(e, src, t, 1)
    &&& forall|t: int, f: int|
        pawn_target(src, t, c) && bit(check_mask, t) && bit(pin_mask, t) && enemy(pos, t)
            && last_rank(c, t) && 0 <= f < 16 && f % 4 == 3 ==> #[trigger] listed_as(e, src, t, f)
}

proof fn lemma_captures_carry(
    pos: Position,
    src: int,
    check_mask: u64,
    pin_mask: u64,
    a: Seq<(u16, i16)>,
    b: Seq<(u16, i16)>,
)
    requires
        grows(a, b),
        a.len() < 256 ==> pawn_captures_listed(pos, src, check_mask, pin_mask, a),
    ensures
        b.len() < 256 ==> pawn_captures_listed(pos, src, check_mask, pin_mask, b),
{
    let c = pos.active_color;
    if b.len() < 256 {
        assert forall|t: int|
            pawn_target(src, t, c) && bit(check_mask, t) && bit(pin_mask, t) && enemy(pos, t)
                && !last_rank(c, t) implies #[trigger] listed_as(b, src, t, 1) by {
            lemma_carry(a, b, src, t, 1);
        }
        assert forall|t: int, f: int|
            pawn_target(src, t, c) && bit(check_mask, t) && bit(pin_mask, t) && enemy(pos, t)
                && last_rank(c, t) && 0 <= f < 16 && f % 4 == 3 implies #[trigger] listed_as(
            b,
            src,
            t,
            f,
        ) by {
            lemma_carry(a, b, src, t, f);
        }
    }
}

/// A pin segment whose one blocker is the piece on `z` stays one once another
/// piece, on `x`, leaves the board: `x` cannot stand between the king and the
/// slider, where it would be a second blocker.
proof fn lemma_pin_segment_without(pos: Position, x: int, z: int, s: int)
    requires
        0 <= x < 64,
        bit(pos.all_occupancies.0, x),
        bit(pos.all_occupancies.0, z),
        x != z,
        x != s,
        z != s,
        aligned(king_square(pos), s),
        pin_segment(pos.all_occupancies.0, king_square(pos), s, z),
    ensures
        pin_segment(occ_without(pos, x), king_square(pos), s, z),
{
    let occ = pos.all_occupancies.0;
    let w = occ_without(pos, x);
    let k = king_square(pos);
    let dr = dir_r(k, s);
    let dc = dir_c(k, s);
    let n = ray_dist(k, s, dr, dc);
    lemma_aligned_on_ray(k, s);
    let jz = ray_dist(k, z, dr, dc);
    assert(z == ray_sq(k, dr, dc, jz));
    assert(jz != n);
    if exists|i: int| 1 <= i < n && #[trigger] ray_sq(k, dr, dc, i) == x {
        let i = choose|i: int| 1 <= i < n && #[trigger] ray_sq(k, dr, dc, i) == x;
        if i < jz {
            lemma_blockers_two(k, occ, dr, dc, n, i, jz);
        } else {
            lemma_blockers_two(k, occ, dr, dc, n, jz, i);
        }
    } else {
        assert forall|i: int| 1 <= i < n implies #[trigger] bit(w, ray_sq(k, dr, dc, i)) == bit(
            occ,
            ray_sq(k, dr, dc, i),
        ) by {
            assert(ray_sq(k, dr, dc, i) != x);
        }
        lemma_blockers_same(k, w, occ, dr, dc, n);
        assert(bit(w, s) == bit(occ, s));
    }
}

/// The en passant square, if any, is a single square.
pub open spec fn ep_single(pos: Position) -> bool {
    forall|a: int, b: int|
        #[trigger] bit(pos.enpassant_square.0, a) && #[trigger] bit(pos.enpassant_square.0, b) ==> a
            == b
}

/// Everything that an en passant capture by the pawn on `src` onto `e` asks: `e`
/// is the en passant square, which the pawn attacks, within `pin_mask`, empty, with
/// an enemy pawn behind it; the capture answers a check on either square of
/// `check_mask`, and uncovers no line to the king.
pub open spec fn ep_ready(pos: Position, src: int, e: int, check_mask: u64, pin_mask: u64) -> bool {
    let c = pos.active_color;
    let z = behind(c, e);
    &&& bit(pos.enpassant_square.0, e)
    &&& pawn_target(src, e, c)
    &&& bit(pin_mask, e)
    &&& 0 <= z < 64
    &&& pos.holds(z, c.other(), PieceType::Pawn)
    &&& pos.piece_on(e) is None
    &&& (bit(check_mask, e) || bit(check_mask, z))
    &&& uncovers_nothing(pos, src, z)
}

/// Whatever a list holds stays listed as it grows.
proof fn lemma_grows_listed(a: Seq<(u16, i16)>, b: Seq<(u16, i16)>)
    requires
        grows(a, b),
    ensures
        forall|src: int, dst: int, flags: int|
            #![trigger listed_as(b, src, dst, flags)]
            listed_as(a, src, dst, flags) ==> listed_as(b, src, dst, flags),
{
    assert forall|src: int, dst: int, flags: int|
        #![trigger listed_as(b, src, dst, flags)]
        listed_as(a, src, dst, flags) implies listed_as(b, src, dst, flags) by {
        let i = choose|i: int| 0 <= i < a.len() && #[trigger] has_move(a[i].0, src, dst, flags);
        assert(b[i] == a[i]);
        assert(has_move(b[i].0, src, dst, flags));
    }
}

/// The list holds every push of the pawn on `src` onto a square of `valid_mask`:
/// one square forward, as the four promotions on the last rank, and two squares
/// forward from the starting rank.
pub open spec fn quiet_listed(pos: Position, src: int, valid_mask: u64, e: Seq<(u16, i16)>) -> bool {
    let c = pos.active_color;
    let d = forward(c, src);
    &&& 0 <= d < 64 && pos.piece_on(d) is None && bit(valid_mask, d) && !last_rank(c, d)
        ==> listed_as(e, src, d, 0)
    &&& 0 <= d < 64 && pos.piece_on(d) is None && bit(valid_mask, d) && last_rank(c, d)
        ==> forall|f: int| 0 <= f < 16 && f % 4 == 2 ==> #[trigger] listed_as(e, src, d, f)
    &&& pawn_start_rank(c, src) && pos.piece_on(d) is None && pos.piece_on(forward(c, d)) is None
        && bit(valid_mask, forward(c, d)) ==> listed_as(e, src, forward(c, d), 4)
}

/// The list holds every en passant capture of the pawn on `src` that `ep_ready`
/// allows, when the en passant square is a single square.
pub open spec fn ep_listed(
    pos: Position,
    src: int,
    check_mask: u64,
    pin_mask: u64,
    e: Seq<(u16, i16)>,
) -> bool {
    ep_single(pos) ==> forall|t: int| #[trigger]
        ep_ready(pos, src, t, check_mask, pin_mask) ==> listed_as(e, src, t, 5)
}

/// The list holds the moves of the pawn on `src` that the pawn generation makes:
/// a pawn pinned along a rank or file only pushes, one pinned along a diagonal only
/// captures, within the squares of its pins, and a free pawn does both.
pub open spec fn pawn_moves_listed(
    pos: Position,
    src: int,
    check_mask: u64,
    hv_pin: u64,
    d12_pin: u64,
    e: Seq<(u16, i16)>,
) -> bool {
    &&& bit(hv_pin, src) ==> quiet_listed(pos, src, check_mask & hv_pin, e)
    &&& bit(d12_pin, src) ==> pawn_captures_listed(pos, src, check_mask, d12_pin, e) && ep_listed(
        pos,
        src,
        check_mask,
        d12_pin,
        e,
    )
    &&& !bit(hv_pin, src) && !bit(d12_pin, src) ==> quiet_listed(pos, src, check_mask, e)
        && pawn_captures_listed(pos, src, check_mask, 0xffff_ffff_ffff_ffffu64, e) && ep_listed(
        pos,
        src,
        check_mask,
        0xffff_ffff_ffff_ffffu64,
        e,
    )
}

proof fn lemma_quiet_carry(pos: Position, src: int, vm: u64, a: Seq<(u16, i16)>, b: Seq<(u16, i16)>)
    requires
        grows(a, b),
        quiet_listed(pos, src, vm, a),
    ensures
        quiet_listed(pos, src, vm, b),
{
    lemma_grows_listed(a, b);
    let c = pos.active_color;
    let d = forward(c, src);
    if 0 <= d < 64 && pos.piece_on(d) is None && bit(vm, d) && last_rank(c, d) {
        assert forall|f: int| 0 <= f < 16 && f % 4 == 2 implies #[trigger] listed_as(b, src, d, f) by {
            assert(listed_as(a, src, d, f));
        }
    }
}

proof fn lemma_ep_carry(
    pos: Position,
    src: int,
    cm: u64,
    pm: u64,
    a: Seq<(u16, i16)>,
    b: Seq<(u16, i16)>,
)
    requires
        grows(a, b),
        ep_listed(pos, src, cm, pm, a),
    ensures
        ep_listed(pos, src, cm, pm, b),
{
    lemma_grows_listed(a, b);
    if ep_single(pos) {
        assert forall|t: int| #[trigger] ep_ready(pos, src, t, cm, pm) implies listed_as(b, src, t, 5) by {
            assert(listed_as(a, src, t, 5));
        }
    }
}

proof fn lemma_pawn_moves_carry(
    pos: Position,
    src: int,
    cm: u64,
    hv: u64,
    d12: u64,
    a: Seq<(u16, i16)>,
    b: Seq<(u16, i16)>,
)
    requires
        grows(a, b),
        b.len() < 256,
        pawn_moves_listed(pos, src, cm, hv, d12, a),
    ensures
        pawn_moves_listed(pos, src, cm, hv, d12, b),
{
    if bit(hv, src) {
        lemma_quiet_carry(pos, src, cm & hv, a, b);
    }
    if bit(d12, src) {
        lemma_captures_carry(pos, src, cm, d12, a, b);
        lemma_ep_carry(pos, src, cm, d12, a, b);
    }
    if !bit(hv, src) && !bit(d12, src) {
        lemma_quiet_carry(pos, src, cm, a, b);
        lemma_captures_carry(pos, src, cm, 0xffff_ffff_ffff_ffffu64, a, b);
        lemma_ep_carry(pos, src, cm, 0xffff_ffff_ffff_ffffu64, a, b);
    }
}

/// A move is listed once a move with its squares and flag bits is.
proof fn lemma_listed_data(e: Seq<(u16, i16)>, m: Move)
    requires
        listed_as(e, m.from_sq() as int, m.to_sq() as int, m.flags() as int),
    ensures
        listed(e, m),
{
    let i = choose|i: int|
        0 <= i < e.len() && #[trigger] has_move(
            e[i].0,
            m.from_sq() as int,
            m.to_sq() as int,
            m.flags() as int,
        );
    crate::moves::lemma_decode_encode(e[i].0);
    crate::moves::lemma_decode_encode(m.data);
}

/// A piece that checks the king attacks its square, whatever stands behind it:
/// the king's square is not safe.
proof fn lemma_checker_unsafe(pos: Position, t: int)
    requires
        pos.wf(),
        has_king(pos),
        checker(pos, t),
    ensures
        !safe_square(pos, king_square(pos)),
{
    let k = king_square(pos);
    let c = pos.active_color;
    let o = c.other();
    let occ = pos.all_occupancies.0;
    let w = occ_without_king(pos, c);
    lemma_king_on_square(pos);
    let p = (pos.piece_on(t)->0).1;
    assert(pos.holds(t, o, p));
    if p == PieceType::Bishop || p == PieceType::Rook || p == PieceType::Queen {
        if ray_attack(k, occ, -1, 0, t) {
            lemma_slider_back(pos, t, -1, 0);
        } else if ray_attack(k, occ, 1, 0, t) {
            lemma_slider_back(pos, t, 1, 0);
        } else if ray_attack(k, occ, 0, -1, t) {
            lemma_slider_back(pos, t, 0, -1);
        } else if ray_attack(k, occ, 0, 1, t) {
            lemma_slider_back(pos, t, 0, 1);
        } else if ray_attack(k, occ, -1, -1, t) {
            lemma_slider_back(pos, t, -1, -1);
        } else if ray_attack(k, occ, -1, 1, t) {
            lemma_slider_back(pos, t, -1, 1);
        } else if ray_attack(k, occ, 1, -1, t) {
            lemma_slider_back(pos, t, 1, -1);
        } else {
            lemma_slider_back(pos, t, 1, 1);
        }
    }
    assert(piece_attack(t, o, p, w, k));
}

/// A ray from the king to a slider, read back from the slider, reaches the king on
/// the board without the king.
proof fn lemma_slider_back(pos: Position, t: int, dr: int, dc: int)
    requires
        pos.wf(),
        has_king(pos),
        is_dir(dr, dc),
        ray_attack(king_square(pos), pos.all_occupancies.0, dr, dc, t),
    ensures
        ray_attack(t, occ_without_king(pos, pos.active_color), -dr, -dc, king_square(pos)),
{
    let k = king_square(pos);
    let occ = pos.all_occupancies.0;
    let w = occ_without_king(pos, pos.active_color);
    lemma_king_on_square(pos);
    crate::legality::lemma_ray_reverse(k, t, occ, dr, dc);
    let n = ray_dist(t, k, -dr, -dc);
    assert forall|j: int| 1 <= j < n implies !#[trigger] bit(w, ray_sq(t, -dr, -dc, j)) by {
        let x = ray_sq(t, -dr, -dc, j);
        assert(!bit(occ, x));
        if 0 <= x < 64 {
            pos.lemma_bitboards(x, PieceType::King.index_of(pos.active_color));
        }
    }
}

/// A piece of the side to move within a pin mask is pinned, by a slider of the
/// kind of that mask.
proof fn lemma_mask_pinned(pos: Position, x: int, is_hv: bool) -> (s: int)
    requires
        pos.wf(),
        has_king(pos),
        own(pos, x),
        in_pin_mask(pos, pos.all_occupancies.0, x, is_hv),
    ensures
        pins(pos, s, x),
        is_hv ==> hv_slider(pos, s),
        !is_hv ==> d12_slider(pos, s),
{
    let k = king_square(pos);
    let occ = pos.all_occupancies.0;
    lemma_king_on_square(pos);
    let s = choose|s: int|
        #![trigger pin_segment(occ, k, s, x)]
        (if is_hv {
            hv_slider(pos, s)
        } else {
            d12_slider(pos, s)
        }) && pin_segment(occ, k, s, x);
    assert(aligned(k, s));
    lemma_aligned_on_ray(k, s);
    let dr = dir_r(k, s);
    let dc = dir_c(k, s);
    let n = ray_dist(k, s, dr, dc);
    let jx = ray_dist(k, x, dr, dc);
    assert(x == ray_sq(k, dr, dc, jx));
    assert(x != s);
    assert(jx != n);
    pos.lemma_occupancy(x);
    assert forall|y: int| #[trigger] segment(k, s, y) && y != s && y != x implies pos.piece_on(
        y,
    ) is None by {
        if pos.piece_on(y) is Some {
            let jy = ray_dist(k, y, dr, dc);
            assert(y == ray_sq(k, dr, dc, jy));
            assert(jy != n);
            pos.lemma_occupancy(y);
            if jy < jx {
                lemma_blockers_two(k, occ, dr, dc, n, jy, jx);
            } else {
                lemma_blockers_two(k, occ, dr, dc, n, jx, jy);
            }
        }
    }
    s
}

/// No piece of the side to move lies in both pin masks: a rank or file from the
/// king and a diagonal from it meet only on the king's own square.
proof fn lemma_pin_masks_disjoint(pos: Position, x: int)
    requires
        pos.wf(),
        has_king(pos),
        own(pos, x),
        in_pin_mask(pos, pos.all_occupancies.0, x, true),
    ensures
        !in_pin_mask(pos, pos.all_occupancies.0, x, false),
{
    if in_pin_mask(pos, pos.all_occupancies.0, x, false) {
        let k = king_square(pos);
        lemma_king_on_square(pos);
        let s1 = lemma_mask_pinned(pos, x, true);
        let s2 = lemma_mask_pinned(pos, x, false);
        assert(aligned(k, s1));
        assert(aligned(k, s2));
        lemma_aligned_on_ray(k, s1);
        lemma_aligned_on_ray(k, s2);
        let dr1 = dir_r(k, s1);
        let dc1 = dir_c(k, s1);
        let dr2 = dir_r(k, s2);
        let dc2 = dir_c(k, s2);
        assert(on_ray(k, x, dr1, dc1));
        assert(on_ray(k, x, dr2, dc2));
        assert(dr1 == 0 || dc1 == 0);
        assert(dr2 != 0 && dc2 != 0);
        let j = ray_dist(k, x, dr2, dc2);
        assert(row(x) == row(k) + crate::attacks::step(j, dr2));
        assert(col(x) == col(k) + crate::attacks::step(j, dc2));
        let j1 = ray_dist(k, x, dr1, dc1);
        assert(row(x) == row(k) + crate::attacks::step(j1, dr1));
        assert(col(x) == col(k) + crate::attacks::step(j1, dc1));
    }
}

/// Two squares on one ray from `k` lie on one line: the same rank, the same file,
/// or the same diagonal.
proof fn lemma_same_line(k: int, x: int, t: int, dr: int, dc: int)
    requires
        0 <= k < 64,
        is_dir(dr, dc),
        on_ray(k, x, dr, dc),
        on_ray(k, t, dr, dc),
    ensures
        dr == 0 ==> row(x) == row(t),
        dc == 0 ==> col(x) == col(t),
        dr != 0 && dc != 0 && dr == dc ==> row(x) - col(x) == row(t) - col(t),
        dr != 0 && dc != 0 && dr != dc ==> row(x) + col(x) == row(t) + col(t),
{
    lemma_ray_direction(k, x, dr, dc);
    lemma_ray_direction(k, t, dr, dc);
}

/// With the move landing on `d`, an en passant capture that takes the pawn checking
/// from behind `d` cannot also step onto the line of another check: that square is
/// a knight's jump away from the king.
proof fn lemma_ep_off_lines(pos: Position, m: Move, ta: int, tb: int)
    requires
        pos.wf(),
        has_king(pos),
        move_sound(pos, m),
        is_ep(m),
        checker(pos, ta),
        checker(pos, tb),
        check_line(pos, ta, m.to_sq() as int),
    ensures
        behind(pos.active_color, m.to_sq() as int) != tb,
{
    let k = king_square(pos);
    let d = m.to_sq() as int;
    lemma_king_on_square(pos);
    assert(pos.piece_on(d) is None);
    assert(d != ta);
    if behind(pos.active_color, d) == tb {
    assert(segment(k, ta, d));
    lemma_ray_direction(k, d, dir_r(k, ta), dir_c(k, ta));
    assert(aligned(k, d));
        assert(pos.piece_on(tb) == Some((pos.active_color.other(), PieceType::Pawn)));
        assert(pawn_target(k, tb, pos.active_color));
    }
}

/// A move answers two checks only when they are one: no move answers a double
/// check but the king's.
proof fn lemma_no_double_answer(pos: Position, m: Move, t1: int, t2: int)
    requires
        pos.wf(),
        has_king(pos),
        move_sound(pos, m),
        checker(pos, t1),
        checker(pos, t2),
        answers(pos, m, t1),
        answers(pos, m, t2),
    ensures
        t1 == t2,
{
    let k = king_square(pos);
    let d = m.to_sq() as int;
    let c = pos.active_color;
    lemma_king_on_square(pos);
    if check_line(pos, t1, d) && check_line(pos, t2, d) {
        if d == t1 {
            lemma_check_line_occupied(pos, t2, t1);
        } else if d == t2 {
            lemma_check_line_occupied(pos, t1, t2);
        } else {
            lemma_ray_lines(k, pos.all_occupancies.0, t1);
            lemma_ray_lines(k, pos.all_occupancies.0, t2);
            assert(aligned(k, t1));
            assert(aligned(k, t2));
            lemma_aligned_on_ray(k, t1);
            lemma_aligned_on_ray(k, t2);
            lemma_ray_direction(k, d, dir_r(k, t1), dir_c(k, t1));
            lemma_ray_direction(k, d, dir_r(k, t2), dir_c(k, t2));
            let dr = dir_r(k, t1);
            let dc = dir_c(k, t1);
            let n1 = ray_dist(k, t1, dr, dc);
            let n2 = ray_dist(k, t2, dr, dc);
            if n1 < n2 {
                assert(segment(k, t2, t1));
                lemma_check_line_occupied(pos, t2, t1);
            } else if n2 < n1 {
                assert(segment(k, t1, t2));
                lemma_check_line_occupied(pos, t1, t2);
            } else {
                assert(t1 == ray_sq(k, dr, dc, n1));
                assert(t2 == ray_sq(k, dr, dc, n2));
            }
        }
    } else if check_line(pos, t1, d) {
        lemma_ep_off_lines(pos, m, t1, t2);
    } else if check_line(pos, t2, d) {
        lemma_ep_off_lines(pos, m, t2, t1);
    }
}

/// The list holds the move of each piece of `pieces` to each square of `allowed`
/// that it reaches along the rays `hv` and `d12` (or by a knight jump).
pub open spec fn piece_moves_listed(
    pos: Position,
    pieces: u64,
    allowed: u64,
    hv: bool,
    d12: bool,
    e: Seq<(u16, i16)>,
) -> bool {
    forall|x: int, t: int|
        #![trigger listed_as(e, x, t, capture_flag(pos, t))]
        bit(pieces, x) && bit(allowed, t) && reaches(hv, d12, x, pos.all_occupancies.0, t) ==> listed_as(
            e,
            x,
            t,
            capture_flag(pos, t),
        )
}

proof fn lemma_piece_carry(
    pos: Position,
    pieces: u64,
    allowed: u64,
    hv: bool,
    d12: bool,
    a: Seq<(u16, i16)>,
    b: Seq<(u16, i16)>,
)
    requires
        grows(a, b),
        piece_moves_listed(pos, pieces, allowed, hv, d12, a),
    ensures
        piece_moves_listed(pos, pieces, allowed, hv, d12, b),
{
    lemma_grows_listed(a, b);
    assert forall|x: int, t: int|
        bit(pieces, x) && bit(allowed, t) && reaches(hv, d12, x, pos.all_occupancies.0, t) implies #[trigger] listed_as(
        b,
        x,
        t,
        capture_flag(pos, t),
    ) by {
        assert(listed_as(a, x, t, capture_flag(pos, t)));
    }
}

/// The list holds every move of the king on `king_square` to a square next to it
/// that holds no piece of its own and that no enemy piece attacks.
pub open spec fn king_moves_listed(pos: Position, e: Seq<(u16, i16)>) -> bool {
    forall|t: int| #[trigger]
        king_target(king_square(pos), t) && !own(pos, t) && safe_square(pos, t) ==> listed_as(
            e,
            king_square(pos),
            t,
            capture_flag(pos, t),
        )
}

/// The list holds each castling that `castle_ready` allows, the side to move
/// having one king.
pub open spec fn castles_listed(pos: Position, e: Seq<(u16, i16)>) -> bool {
    let c = pos.active_color;
    &&& one_king(pos) && castle_ready(pos, true) ==> listed_as(
        e,
        king_home(c),
        castle_target(c, true),
        8,
    )
    &&& one_king(pos) && castle_ready(pos, false) ==> listed_as(
        e,
        king_home(c),
        castle_target(c, false),
        12,
    )
}

proof fn lemma_king_carry(pos: Position, a: Seq<(u16, i16)>, b: Seq<(u16, i16)>)
    requires
        grows(a, b),
        king_moves_listed(pos, a),
        castles_listed(pos, a),
    ensures
        king_moves_listed(pos, b),
        castles_listed(pos, b),
{
    lemma_grows_listed(a, b);
    assert forall|t: int| #[trigger]
        king_target(king_square(pos), t) && !own(pos, t) && safe_square(pos, t) implies listed_as(
        b,
        king_square(pos),
        t,
        capture_flag(pos, t),
    ) by {
        assert(listed_as(a, king_square(pos), t, capture_flag(pos, t)));
    }
    let c = pos.active_color;
    if one_king(pos) && castle_ready(pos, true) {
        assert(listed_as(a, king_home(c), castle_target(c, true), 8));
    }
    if one_king(pos) && castle_ready(pos, false) {
        assert(listed_as(a, king_home(c), castle_target(c, false), 12));
    }
}

/// What the check mask and the pin masks of the move generation hold: every
/// square when there is no check, and each square of the line of each check; the
/// squares of the rank and file pins, and of the diagonal pins.
pub open spec fn masks_ok(pos: Position, check_mask: u64, hv_pin: u64, d12_pin: u64) -> bool {
    &&& !in_check(pos) ==> check_mask == 0xffff_ffff_ffff_ffffu64
    &&& forall|t: int, x: int| #[trigger]
        checker(pos, t) && #[trigger] check_line(pos, t, x) ==> bit(check_mask, x)
    &&& forall|t: int| #[trigger] bit(hv_pin, t) <==> in_pin_mask(pos, pos.all_occupancies.0, t, true)
    &&& forall|t: int| #[trigger] bit(d12_pin, t) <==> in_pin_mask(pos, pos.all_occupancies.0, t, false)
}

/// A move of any piece but the king that answers every check lands in the check
/// mask (en passant aside).
proof fn lemma_check_mask_target(pos: Position, m: Move, check_mask: u64, hv_pin: u64, d12_pin: u64)
    requires
        pos.wf(),
        has_king(pos),
        masks_ok(pos, check_mask, hv_pin, d12_pin),
        evades(pos, m),
        moving_piece(pos, m) != PieceType::King,
        !is_ep(m),
        0 <= m.to_sq() < 64,
    ensures
        bit(check_mask, m.to_sq() as int),
{
    if in_check(pos) {
        let tc = choose|t: int|
            0 <= t < 64 && enemy(pos, t) && #[trigger] checks(
                pos,
                king_square(pos),
                t,
                (pos.piece_on(t)->0).1,
            );
        assert(checker(pos, tc));
        assert(answers(pos, m, tc));
        assert(check_line(pos, tc, m.to_sq() as int));
    }
}

/// Each generated move of a knight, bishop, rook or queen is in the list, given
/// what the moves of those pieces put in it.
#[verifier::rlimit(60)]
#[verifier::spinoff_prover]
proof fn lemma_listed_piece(
    pos: Position,
    m: Move,
    e: Seq<(u16, i16)>,
    check_mask: u64,
    hv_pin: u64,
    d12_pin: u64,
)
    requires
        pos.wf(),
        has_king(pos),
        generated_move(pos, m),
        m.flags() != 9,
        m.flags() != 13,
        moving_piece(pos, m) == PieceType::Knight || moving_piece(pos, m) == PieceType::Bishop
            || moving_piece(pos, m) == PieceType::Rook || moving_piece(pos, m) == PieceType::Queen,
        masks_ok(pos, check_mask, hv_pin, d12_pin),
        ({
            let c = pos.active_color;
            let allowed = !pos.color_occupancies@[c.num()].0 & check_mask;
            let unpinned = !(hv_pin | d12_pin);
            let knights = pos.bitboards@[PieceType::Knight.index_of(c)].0;
            let bishops = pos.bitboards@[PieceType::Bishop.index_of(c)].0;
            let rooks = pos.bitboards@[PieceType::Rook.index_of(c)].0;
            let queens = pos.bitboards@[PieceType::Queen.index_of(c)].0;
            &&& piece_moves_listed(pos, knights & unpinned, allowed, false, false, e)
            &&& piece_moves_listed(pos, rooks & hv_pin, allowed & hv_pin, true, false, e)
            &&& piece_moves_listed(pos, rooks & unpinned, allowed, true, false, e)
            &&& piece_moves_listed(pos, bishops & d12_pin, allowed & d12_pin, false, true, e)
            &&& piece_moves_listed(pos, bishops & unpinned, allowed, false, true, e)
            &&& piece_moves_listed(pos, queens & hv_pin, allowed & hv_pin, true, false, e)
            &&& piece_moves_listed(pos, queens & d12_pin, allowed & d12_pin, false, true, e)
            &&& piece_moves_listed(pos, queens & unpinned, allowed, true, true, e)
        }),
    ensures
        listed_as(e, m.from_sq() as int, m.to_sq() as int, m.flags() as int),
{
    let c = pos.active_color;
    let x = m.from_sq() as int;
    let t = m.to_sq() as int;
    let p = moving_piece(pos, m);
    let occ = pos.all_occupancies.0;
    let k = king_square(pos);
    let allowed = !pos.color_occupancies@[c.num()].0 & check_mask;
    crate::moves::lemma_decode_encode(m.data);
    lemma_king_on_square(pos);
    pos.lemma_occupancy(x);
    pos.lemma_occupancy(t);
    pos.lemma_bitboards(x, p.index_of(c));
    assert(pos.holds(x, c, p));
    assert(m.flags() as int == capture_flag(pos, t));
    lemma_check_mask_target(pos, m, check_mask, hv_pin, d12_pin);
    assert(bit(allowed, t));
    lemma_ray_lines(x, occ, t);
    if bit(hv_pin, x) {
        let s = lemma_mask_pinned(pos, x, true);
        assert(pin_kept(pos, x, t));
        assert(segment(k, s, t));
        lemma_pin_line_in_mask(pos, s, x, t);
        assert(bit(hv_pin, t));
        lemma_aligned_on_ray(k, s);
        lemma_same_line(k, x, t, dir_r(k, s), dir_c(k, s));
        assert(row(x) == row(t) || col(x) == col(t));
        assert(bit(allowed & hv_pin, t));
    } else if bit(d12_pin, x) {
        let s = lemma_mask_pinned(pos, x, false);
        assert(pin_kept(pos, x, t));
        assert(segment(k, s, t));
        lemma_pin_line_in_mask(pos, s, x, t);
        assert(bit(d12_pin, t));
        lemma_aligned_on_ray(k, s);
        lemma_same_line(k, x, t, dir_r(k, s), dir_c(k, s));
        assert(row(x) - col(x) == row(t) - col(t) || row(x) + col(x) == row(t) + col(t));
        assert(bit(allowed & d12_pin, t));
    } else {
        assert(bit(!(hv_pin | d12_pin), x));
    }
}

/// Each generated king move, castling included, is in the list, given what the
/// king moves put in it.
proof fn lemma_listed_king(pos: Position, m: Move, e: Seq<(u16, i16)>)
    requires
        pos.wf(),
        has_king(pos),
        one_king(pos),
        generated_move(pos, m),
        m.flags() != 9,
        m.flags() != 13,
        moving_piece(pos, m) == PieceType::King,
        king_moves_listed(pos, e),
        castles_listed(pos, e),
    ensures
        listed_as(e, m.from_sq() as int, m.to_sq() as int, m.flags() as int),
{
    let c = pos.active_color;
    let x = m.from_sq() as int;
    let t = m.to_sq() as int;
    crate::moves::lemma_decode_encode(m.data);
    lemma_king_on_square(pos);
    pos.lemma_occupancy(x);
    pos.lemma_bitboards(x, PieceType::King.index_of(c));
    assert(pos.holds(x, c, PieceType::King));
    assert(x == king_square(pos));
    if is_ks(m) || is_qs(m) {
        assert(castle_ready(pos, is_ks(m)));
    } else {
        pos.lemma_occupancy(t);
        assert(m.flags() as int == capture_flag(pos, t));
    }
}

/// A pinned piece that moves keeps to the line of its pin, inside the pin mask.
proof fn lemma_move_pins(pos: Position, m: Move, check_mask: u64, hv_pin: u64, d12_pin: u64)
    requires
        pos.wf(),
        has_king(pos),
        generated_move(pos, m),
        moving_piece(pos, m) != PieceType::King,
        masks_ok(pos, check_mask, hv_pin, d12_pin),
    ensures
        bit(hv_pin, m.from_sq() as int) ==> bit(hv_pin, m.to_sq() as int) && (row(m.from_sq() as int)
            == row(m.to_sq() as int) || col(m.from_sq() as int) == col(m.to_sq() as int)),
        bit(d12_pin, m.from_sq() as int) ==> bit(d12_pin, m.to_sq() as int) && (row(
            m.from_sq() as int,
        ) - col(m.from_sq() as int) == row(m.to_sq() as int) - col(m.to_sq() as int) || row(
            m.from_sq() as int,
        ) + col(m.from_sq() as int) == row(m.to_sq() as int) + col(m.to_sq() as int)),
{
    let x = m.from_sq() as int;
    let t = m.to_sq() as int;
    let k = king_square(pos);
    crate::moves::lemma_decode_encode(m.data);
    lemma_king_on_square(pos);
    pos.lemma_occupancy(x);
    if bit(hv_pin, x) {
        let s = lemma_mask_pinned(pos, x, true);
        assert(pin_kept(pos, x, t));
        lemma_pin_line_in_mask(pos, s, x, t);
        lemma_aligned_on_ray(k, s);
        lemma_same_line(k, x, t, dir_r(k, s), dir_c(k, s));
    }
    if bit(d12_pin, x) {
        let s = lemma_mask_pinned(pos, x, false);
        assert(pin_kept(pos, x, t));
        lemma_pin_line_in_mask(pos, s, x, t);
        lemma_aligned_on_ray(k, s);
        lemma_same_line(k, x, t, dir_r(k, s), dir_c(k, s));
    }
}

/// An en passant capture that `generate_moves` may list is in the list.
#[verifier::rlimit(40)]
proof fn lemma_listed_pawn_ep(
    pos: Position,
    m: Move,
    e: Seq<(u16, i16)>,
    check_mask: u64,
    hv_pin: u64,
    d12_pin: u64,
)
    requires
        pos.wf(),
        has_king(pos),
        ep_single(pos),
        generated_move(pos, m),
        is_ep(m),
        moving_piece(pos, m) == PieceType::Pawn,
        masks_ok(pos, check_mask, hv_pin, d12_pin),
        pawn_moves_listed(pos, m.from_sq() as int, check_mask, hv_pin, d12_pin, e),
        bit(hv_pin, m.from_sq() as int) ==> (row(m.from_sq() as int) == row(m.to_sq() as int) || col(
            m.from_sq() as int,
        ) == col(m.to_sq() as int)),
        bit(d12_pin, m.from_sq() as int) ==> bit(d12_pin, m.to_sq() as int),
    ensures
        listed_as(e, m.from_sq() as int, m.to_sq() as int, m.flags() as int),
{
    let c = pos.active_color;
    let x = m.from_sq() as int;
    let t = m.to_sq() as int;
    let z = behind(c, t);
    let full = 0xffff_ffff_ffff_ffffu64;
    crate::moves::lemma_decode_encode(m.data);
    lemma_king_on_square(pos);
    if in_check(pos) {
        let tc = choose|u: int|
            0 <= u < 64 && enemy(pos, u) && #[trigger] checks(
                pos,
                king_square(pos),
                u,
                (pos.piece_on(u)->0).1,
            );
        assert(checker(pos, tc));
        assert(answers(pos, m, tc));
        assert(check_line(pos, tc, tc));
    }
    assert(bit(check_mask, t) || bit(check_mask, z));
    assert(m.flags() == 5);
    assert(pawn_target(x, t, c));
    assert(!bit(hv_pin, x));
    if bit(d12_pin, x) {
        assert(ep_ready(pos, x, t, check_mask, d12_pin));
        assert(ep_listed(pos, x, check_mask, d12_pin, e));
    } else {
        assert(ep_ready(pos, x, t, check_mask, full));
        assert(ep_listed(pos, x, check_mask, full, e));
    }
}

/// A pawn capture other than en passant that `generate_moves` may list is in the
/// list.
#[verifier::rlimit(40)]
proof fn lemma_listed_pawn_capture(
    pos: Position,
    m: Move,
    e: Seq<(u16, i16)>,
    check_mask: u64,
    hv_pin: u64,
    d12_pin: u64,
)
    requires
        pos.wf(),
        has_king(pos),
        generated_move(pos, m),
        m.flags() != 9,
        m.flags() != 13,
        is_cap(m),
        !is_ep(m),
        moving_piece(pos, m) == PieceType::Pawn,
        masks_ok(pos, check_mask, hv_pin, d12_pin),
        pawn_moves_listed(pos, m.from_sq() as int, check_mask, hv_pin, d12_pin, e),
        bit(check_mask, m.to_sq() as int),
        bit(hv_pin, m.from_sq() as int) ==> (row(m.from_sq() as int) == row(m.to_sq() as int) || col(
            m.from_sq() as int,
        ) == col(m.to_sq() as int)),
        bit(d12_pin, m.from_sq() as int) ==> bit(d12_pin, m.to_sq() as int),
    ensures
        listed_as(e, m.from_sq() as int, m.to_sq() as int, m.flags() as int),
{
    let c = pos.active_color;
    let x = m.from_sq() as int;
    let t = m.to_sq() as int;
    let f = m.flags() as int;
    let full = 0xffff_ffff_ffff_ffffu64;
    crate::moves::lemma_decode_encode(m.data);
    assert(!is_ks(m) && !is_qs(m));
    assert(pawn_target(x, t, c));
    assert(enemy(pos, t));
    assert(!bit(hv_pin, x));
    let pm = if bit(d12_pin, x) {
        d12_pin
    } else {
        full
    };
    assert(bit(pm, t));
    assert(pawn_captures_listed(pos, x, check_mask, pm, e));
    if last_rank(c, t) {
        assert(f % 4 == 3);
        assert(listed_as(e, x, t, f));
    } else {
        assert(f == 1);
        assert(listed_as(e, x, t, 1));
    }
}

/// A pawn push that `generate_moves` may list is in the list.
#[verifier::rlimit(40)]
proof fn lemma_listed_pawn_push(
    pos: Position,
    m: Move,
    e: Seq<(u16, i16)>,
    check_mask: u64,
    hv_pin: u64,
    d12_pin: u64,
)
    requires
        pos.wf(),
        has_king(pos),
        generated_move(pos, m),
        !is_cap(m),
        moving_piece(pos, m) == PieceType::Pawn,
        masks_ok(pos, check_mask, hv_pin, d12_pin),
        pawn_moves_listed(pos, m.from_sq() as int, check_mask, hv_pin, d12_pin, e),
        bit(check_mask, m.to_sq() as int),
        bit(hv_pin, m.from_sq() as int) ==> bit(hv_pin, m.to_sq() as int),
        bit(d12_pin, m.from_sq() as int) ==> (row(m.from_sq() as int) - col(m.from_sq() as int) == row(
            m.to_sq() as int,
        ) - col(m.to_sq() as int) || row(m.from_sq() as int) + col(m.from_sq() as int) == row(
            m.to_sq() as int,
        ) + col(m.to_sq() as int)),
    ensures
        listed_as(e, m.from_sq() as int, m.to_sq() as int, m.flags() as int),
{
    let c = pos.active_color;
    let x = m.from_sq() as int;
    let t = m.to_sq() as int;
    let f = m.flags() as int;
    crate::moves::lemma_decode_encode(m.data);
    assert(!is_ks(m) && !is_qs(m));
    assert(pos.piece_on(t) is None);
    assert(!bit(d12_pin, x));
    let vm = if bit(hv_pin, x) {
        check_mask & hv_pin
    } else {
        check_mask
    };
    assert(bit(vm, t));
    assert(quiet_listed(pos, x, vm, e));
    if is_dp(m) {
        assert(f == 4);
        assert(listed_as(e, x, t, 4));
    } else if last_rank(c, t) {
        assert(f % 4 == 2);
        assert(listed_as(e, x, t, f));
    } else {
        assert(f == 0);
        assert(listed_as(e, x, t, 0));
    }
}

/// Each generated pawn move is in the list, given what the pawn moves put in it.
proof fn lemma_listed_pawn(
    pos: Position,
    m: Move,
    e: Seq<(u16, i16)>,
    check_mask: u64,
    hv_pin: u64,
    d12_pin: u64,
)
    requires
        pos.wf(),
        has_king(pos),
        ep_single(pos),
        generated_move(pos, m),
        m.flags() != 9,
        m.flags() != 13,
        moving_piece(pos, m) == PieceType::Pawn,
        masks_ok(pos, check_mask, hv_pin, d12_pin),
        pawn_moves_listed(pos, m.from_sq() as int, check_mask, hv_pin, d12_pin, e),
    ensures
        listed_as(e, m.from_sq() as int, m.to_sq() as int, m.flags() as int),
{
    crate::moves::lemma_decode_encode(m.data);
    lemma_move_pins(pos, m, check_mask, hv_pin, d12_pin);
    if is_ep(m) {
        lemma_listed_pawn_ep(pos, m, e, check_mask, hv_pin, d12_pin);
    } else {
        assert(0 <= m.to_sq() < 64);
        lemma_check_mask_target(pos, m, check_mask, hv_pin, d12_pin);
        if is_cap(m) {
            lemma_listed_pawn_capture(pos, m, e, check_mask, hv_pin, d12_pin);
        } else {
            lemma_listed_pawn_push(pos, m, e, check_mask, hv_pin, d12_pin);
        }
    }
}

/// The list holds what each part of the move generation puts in it: the pawn
/// moves, the moves of the knights, bishops, rooks and queens within the check and
/// pin masks, and the king moves and castlings.
pub open spec fn all_listed(
    pos: Position,
    e: Seq<(u16, i16)>,
    check_mask: u64,
    hv_pin: u64,
    d12_pin: u64,
) -> bool {
    let c = pos.active_color;
    let allowed = !pos.color_occupancies@[c.num()].0 & check_mask;
    let unpinned = !(hv_pin | d12_pin);
    let knights = pos.bitboards@[PieceType::Knight.index_of(c)].0;
    let bishops = pos.bitboards@[PieceType::Bishop.index_of(c)].0;
    let rooks = pos.bitboards@[PieceType::Rook.index_of(c)].0;
    let queens = pos.bitboards@[PieceType::Queen.index_of(c)].0;
    &&& forall|x: int|
        0 <= x < 64 && #[trigger] pos.holds(x, c, PieceType::Pawn) ==> pawn_moves_listed(
            pos,
            x,
            check_mask,
            hv_pin,
            d12_pin,
            e,
        )
    &&& piece_moves_listed(pos, knights & unpinned, allowed, false, false, e)
    &&& piece_moves_listed(pos, rooks & hv_pin, allowed & hv_pin, true, false, e)
    &&& piece_moves_listed(pos, rooks & unpinned, allowed, true, false, e)
    &&& piece_moves_listed(pos, bishops & d12_pin, allowed & d12_pin, false, true, e)
    &&& piece_moves_listed(pos, bishops & unpinned, allowed, false, true, e)
    &&& piece_moves_listed(pos, queens & hv_pin, allowed & hv_pin, true, false, e)
    &&& piece_moves_listed(pos, queens & d12_pin, allowed & d12_pin, false, true, e)
    &&& piece_moves_listed(pos, queens & unpinned, allowed, true, true, e)
    &&& king_moves_listed(pos, e)
    &&& castles_listed(pos, e)
}

/// Each generated move is in a list that holds what every part of the move
/// generation puts in it.
proof fn lemma_all_listed(
    pos: Position,
    m: Move,
    e: Seq<(u16, i16)>,
    check_mask: u64,
    hv_pin: u64,
    d12_pin: u64,
)
    requires
        pos.wf(),
        has_king(pos),
        one_king(pos),
        ep_single(pos),
        masks_ok(pos, check_mask, hv_pin, d12_pin),
        all_listed(pos, e, check_mask, hv_pin, d12_pin),
        generated_move(pos, m),
        m.flags() != 9,
        m.flags() != 13,
    ensures
        listed(e, m),
{
    let c = pos.active_color;
    let x = m.from_sq() as int;
    let p = moving_piece(pos, m);
    crate::moves::lemma_decode_encode(m.data);
    pos.lemma_occupancy(x);
    assert(pos.square_ok(x));
    assert(p != PieceType::Empty);
    if p == PieceType::King {
        lemma_listed_king(pos, m, e);
    } else if p == PieceType::Pawn {
        assert(pos.holds(x, c, PieceType::Pawn));
        lemma_listed_pawn(pos, m, e, check_mask, hv_pin, d12_pin);
    } else {
        lemma_listed_piece(pos, m, e, check_mask, hv_pin, d12_pin);
    }
    lemma_listed_data(e, m);
}

/// The side to move has no king but the one on `king_square`.
pub open spec fn one_king(pos: Position) -> bool {
    forall|s: int|
        0 <= s < 64 && #[trigger] pos.holds(s, pos.active_color, PieceType::King) ==> s
            == king_square(pos)
}

/// Everything that castling on one side asks of the board: the king at home with
/// the right to castle, the rook at home, the squares between them empty, and the
/// squares the king stands on, crosses and lands on attacked by no enemy piece.
pub open spec fn castle_ready(pos: Position, king_side: bool) -> bool {
    let c = pos.active_color;
    &&& king_square(pos) == king_home(c)
    &&& pos.castling_ability.allows(castle_side(c, king_side))
    &&& pos.piece_on(rook_from(c, king_side)) == Some((c, PieceType::Rook))
    &&& pos.piece_on(rook_to(c, king_side)) is None
    &&& pos.piece_on(castle_target(c, king_side)) is None
    &&& !king_side ==> pos.piece_on(rook_from(c, false) + 1) is None
    &&& safe_square(pos, king_home(c))
    &&& safe_square(pos, rook_to(c, king_side))
    &&& safe_square(pos, castle_target(c, king_side))
}

/// Words with neither of the squares a castling king crosses or lands on, nor any
/// square between king and rook, meet the castling masks nowhere.
proof fn lemma_castle_clear(a: u64)
    by (bit_vector)
    ensures
        (a >> 61u64) & 1u64 != 1u64 && (a >> 62u64) & 1u64 != 1u64 ==> 0x6000_0000_0000_0000u64 & a == 0,
        (a >> 58u64) & 1u64 != 1u64 && (a >> 59u64) & 1u64 != 1u64 ==> 0x0c00_0000_0000_0000u64 & a == 0,
        (a >> 57u64) & 1u64 != 1u64 && (a >> 58u64) & 1u64 != 1u64 && (a >> 59u64) & 1u64 != 1u64
            ==> 0x0e00_0000_0000_0000u64 & a == 0,
        (a >> 5u64) & 1u64 != 1u64 && (a >> 6u64) & 1u64 != 1u64 ==> 0x60u64 & a == 0,
        (a >> 2u64) & 1u64 != 1u64 && (a >> 3u64) & 1u64 != 1u64 ==> 0x0cu64 & a == 0,
        (a >> 1u64) & 1u64 != 1u64 && (a >> 2u64) & 1u64 != 1u64 && (a >> 3u64) & 1u64 != 1u64
            ==> 0x0eu64 & a == 0,
{
}

/// No move is listed twice.
pub open spec fn no_dups(s: Seq<(u16, i16)>) -> bool {
    forall|i: int, j: int| 0 <= i < j < s.len() ==> #[trigger] s[i].0 != #[trigger] s[j].0
}

/// Fewer than 256 different moves are generated in `pos`: no 256 different move
/// words all stand for moves that `generated_move` allows.
pub open spec fn fits_move_list(pos: Position) -> bool {
    !exists|s: Seq<u16>|
        s.len() == 256 && s.no_duplicates() && forall|i: int|
            0 <= i < 256 ==> generated_move(pos, Move { data: #[trigger] s[i] })
}

/// A list of generated moves, none twice, has room left when fewer than 256
/// different moves are generated.
pub proof fn lemma_list_fits(pos: Position, e: Seq<(u16, i16)>)
    requires
        list_sound(pos, e),
        no_dups(e),
        fits_move_list(pos),
    ensures
        e.len() < 256,
{
    if e.len() >= 256 {
        let s = Seq::new(256, |i: int| e[i].0);
        assert(s.no_duplicates()) by {
            assert forall|i: int, j: int| 0 <= i < s.len() && 0 <= j < s.len() && i != j implies s[i]
                != s[j] by {
                if i < j {
                    assert(e[i].0 != e[j].0);
                } else {
                    assert(e[j].0 != e[i].0);
                }
            }
        }
        assert forall|i: int| 0 <= i < 256 implies generated_move(pos, Move { data: #[trigger] s[i] }) by {
            assert(generated_move(pos, Move { data: e[i].0 }));
        }
        assert(false);
    }
}

/// `n` moves are generated in `pos`: some `n` different move words stand for
/// exactly the moves that `generated_move` allows.
pub open spec fn move_count_is(pos: Position, n: int) -> bool {
    exists|s: Seq<u16>|
        s.len() == n && s.no_duplicates() && forall|d: u16| #[trigger]
            s.contains(d) <==> generated_move(pos, Move { data: d })
}

/// The move words of the entries of a list, in order.
pub open spec fn entry_words(e: Seq<(u16, i16)>) -> Seq<u16> {
    Seq::new(e.len(), |i: int| e[i].0)
}

/// `s` holds each move that `generated_move` allows in `pos` once, and nothing else.
pub open spec fn enumerates(pos: Position, s: Seq<u16>) -> bool {
    &&& s.no_duplicates()
    &&& forall|d: u16| #[trigger] s.contains(d) <==> generated_move(pos, Move { data: d })
}

/// A list of generated moves that holds each of them once enumerates them.
pub proof fn lemma_list_enumerates(pos: Position, e: Seq<(u16, i16)>)
    requires
        list_sound(pos, e),
        no_dups(e),
        forall|m: Move| #[trigger] generated_move(pos, m) ==> listed(e, m),
    ensures
        enumerates(pos, entry_words(e)),
{
    let s = entry_words(e);
    assert(s.no_duplicates()) by {
        assert forall|i: int, j: int| 0 <= i < s.len() && 0 <= j < s.len() && i != j implies s[i]
            != s[j] by {
            if i < j {
                assert(e[i].0 != e[j].0);
            } else {
                assert(e[j].0 != e[i].0);
            }
        }
    }
    assert forall|d: u16| #[trigger] s.contains(d) <==> generated_move(pos, Move { data: d }) by {
        if s.contains(d) {
            let i = choose|i: int| 0 <= i < s.len() && s[i] == d;
            assert(generated_move(pos, Move { data: e[i].0 }));
        }
        if generated_move(pos, Move { data: d }) {
            assert(listed(e, Move { data: d }));
            let j = choose|j: int| 0 <= j < e.len() && (#[trigger] e[j]).0 == d;
            assert(s[j] == d);
        }
    }
}

/// A list of generated moves that holds each of them once has as many entries as
/// there are generated moves.
pub proof fn lemma_list_counts(pos: Position, e: Seq<(u16, i16)>)
    requires
        list_sound(pos, e),
        no_dups(e),
        forall|m: Move| #[trigger] generated_move(pos, m) ==> listed(e, m),
    ensures
        move_count_is(pos, e.len() as int),
{
    let s = Seq::new(e.len(), |i: int| e[i].0);
    assert(s.no_duplicates()) by {
        assert forall|i: int, j: int| 0 <= i < s.len() && 0 <= j < s.len() && i != j implies s[i]
            != s[j] by {
            if i < j {
                assert(e[i].0 != e[j].0);
            } else {
                assert(e[j].0 != e[i].0);
            }
        }
    }
    assert forall|d: u16| #[trigger] s.contains(d) <==> generated_move(pos, Move { data: d }) by {
        if s.contains(d) {
            let i = choose|i: int| 0 <= i < s.len() && s[i] == d;
            assert(generated_move(pos, Move { data: e[i].0 }));
        }
        if generated_move(pos, Move { data: d }) {
            assert(listed(e, Move { data: d }));
            let j = choose|j: int| 0 <= j < e.len() && (#[trigger] e[j]).0 == d;
            assert(s[j] == d);
        }
    }
}

/// The source square of entry `i`.
pub open spec fn entry_from(s: Seq<(u16, i16)>, i: int) -> int {
    Move { data: s[i].0 }.from_sq() as int
}

/// The target square of entry `i`.
pub open spec fn entry_to(s: Seq<(u16, i16)>, i: int) -> int {
    Move { data: s[i].0 }.to_sq() as int
}

/// The flag bits of entry `i`.
pub open spec fn entry_flags(s: Seq<(u16, i16)>, i: int) -> int {
    Move { data: s[i].0 }.flags() as int
}

/// No entry moves from `src` with flag bits of parity `par` (either parity when
/// `par` is 2).
pub open spec fn none_from(s: Seq<(u16, i16)>, src: int, par: int) -> bool {
    forall|i: int|
        0 <= i < s.len() ==> #[trigger] entry_from(s, i) != src || (par != 2 && entry_flags(s, i) % 2
            != par)
}

/// Pushing a move the list does not hold keeps it free of duplicates.
proof fn lemma_push_no_dups(s: Seq<(u16, i16)>, t: Seq<(u16, i16)>, d: u16)
    requires
        no_dups(s),
        forall|i: int| 0 <= i < s.len() ==> s[i].0 != d,
        t == s.push((d, 0i16)) || t == s,
    ensures
        no_dups(t),
{
    if t != s {
        assert forall|i: int, j: int| 0 <= i < j < t.len() implies #[trigger] t[i].0 != #[trigger] t[j].0 by {
            if j < s.len() {
                assert(t[i] == s[i] && t[j] == s[j]);
            } else {
                assert(t[i] == s[i]);
            }
        }
    }
}

/// The entries from index `n` on move from `src`, each to a square and with flag
/// bits that `pairs` holds.
pub open spec fn added_in(s: Seq<(u16, i16)>, n: int, src: int, pairs: Set<(int, int)>) -> bool {
    forall|i: int|
        n <= i < s.len() ==> #[trigger] entry_from(s, i) == src && pairs.contains(
            (entry_to(s, i), entry_flags(s, i)),
        )
}

/// A push from `src` of a move whose squares and flag bits are new to the entries
/// added since `a`, onto a list that held no move from `src` of that flag parity
/// before them, keeps the list free of duplicates.
proof fn lemma_push_fresh(
    a: Seq<(u16, i16)>,
    b: Seq<(u16, i16)>,
    e: Seq<(u16, i16)>,
    src: int,
    par: int,
    pairs: Set<(int, int)>,
    m: Move,
)
    requires
        grows(a, b),
        no_dups(b),
        none_from(a, src, par),
        added_in(b, a.len() as int, src, pairs),
        m.from_sq() == src,
        m.flags() % 2 == par,
        !pairs.contains((m.to_sq() as int, m.flags() as int)),
        e == b.push((m.data, 0i16)) || e == b,
    ensures
        grows(a, e),
        no_dups(e),
        added_in(e, a.len() as int, src, pairs.insert((m.to_sq() as int, m.flags() as int))),
{
    assert forall|i: int| 0 <= i < b.len() implies b[i].0 != m.data by {
        if i < a.len() {
            assert(b[i] == a[i]);
            assert(entry_from(a, i) != src || entry_flags(a, i) % 2 != par);
        } else {
            assert(entry_from(b, i) == src);
        }
    }
    lemma_push_no_dups(b, e, m.data);
    let p2 = pairs.insert((m.to_sq() as int, m.flags() as int));
    assert forall|i: int| a.len() <= i < e.len() implies #[trigger] entry_from(e, i) == src && p2.contains(
        (entry_to(e, i), entry_flags(e, i)),
    ) by {
        if i < b.len() {
            assert(e[i] == b[i]);
            assert(entry_from(b, i) == src);
        } else {
            assert(e[i] == (m.data, 0i16));
        }
    }
    assert forall|i: int| 0 <= i < a.len() implies #[trigger] e[i] == a[i] by {
        assert(b[i] == a[i]);
    }
}

proof fn lemma_added_mono(s: Seq<(u16, i16)>, n: int, src: int, p: Set<(int, int)>, q: Set<(int, int)>)
    requires
        added_in(s, n, src, p),
        p.subset_of(q),
    ensures
        added_in(s, n, src, q),
{
    assert forall|i: int| n <= i < s.len() implies #[trigger] entry_from(s, i) == src && q.contains(
        (entry_to(s, i), entry_flags(s, i)),
    ) by {
        assert(entry_from(s, i) == src);
        assert(p.contains((entry_to(s, i), entry_flags(s, i))));
    }
}

/// Every entry moves from a square of `d`.
pub open spec fn froms_in(s: Seq<(u16, i16)>, d: u64) -> bool {
    forall|i: int| 0 <= i < s.len() ==> bit(d, #[trigger] entry_from(s, i))
}

/// Entries added from the squares of `p` onto a list whose entries move from the
/// squares of `d` leave a list whose entries move from the squares of either.
proof fn lemma_froms_grow(a: Seq<(u16, i16)>, b: Seq<(u16, i16)>, d: u64, p: u64)
    requires
        froms_in(a, d),
        grows(a, b),
        forall|i: int| a.len() <= i < b.len() ==> bit(p, #[trigger] entry_from(b, i)),
    ensures
        froms_in(b, d | p),
{
    broadcast use crate::bits::group_bit_lemmas;

    assert forall|i: int| 0 <= i < b.len() implies bit(d | p, #[trigger] entry_from(b, i)) by {
        if i < a.len() {
            assert(b[i] == a[i]);
            assert(bit(d, entry_from(a, i)));
        }
    }
}

/// No entry moves from a square outside the squares its entries move from.
proof fn lemma_froms_fresh(s: Seq<(u16, i16)>, d: u64, p: u64)
    requires
        froms_in(s, d),
        forall|x: int| #[trigger] bit(p, x) ==> !bit(d, x),
    ensures
        forall|x: int| #[trigger] bit(p, x) ==> none_from(s, x, 2),
{
    assert forall|x: int| #[trigger] bit(p, x) implies none_from(s, x, 2) by {
        assert forall|i: int| 0 <= i < s.len() implies #[trigger] entry_from(s, i) != x || (2 != 2
            && entry_flags(s, i) % 2 != 2) by {
            assert(bit(d, entry_from(s, i)));
        }
    }
}

/// The groups of pieces whose moves the generator lists one after another (pawns;
/// unpinned knights; rooks, bishops and queens by the pin mask that holds them, or
/// none) share no square with the groups before them, nor with the king.
proof fn lemma_groups_apart(
    pos: Position,
    knights: u64,
    rooks: u64,
    bishops: u64,
    queens: u64,
    hv: u64,
    d12: u64,
    unpinned: u64,
)
    requires
        pos.wf(),
        has_king(pos),
        forall|t: int| #[trigger] bit(hv, t) <==> in_pin_mask(pos, pos.all_occupancies.0, t, true),
        forall|t: int| #[trigger] bit(d12, t) <==> in_pin_mask(pos, pos.all_occupancies.0, t, false),
        unpinned == !(hv | d12),
        forall|s: int| #[trigger]
            bit(knights, s) ==> pos.holds(s, pos.active_color, PieceType::Knight) && bit(unpinned, s),
        forall|s: int| 0 <= s < 64 ==> #[trigger] bit(rooks, s) == pos.holds(s, pos.active_color, PieceType::Rook),
        forall|s: int|
            0 <= s < 64 ==> #[trigger] bit(bishops, s) == pos.holds(s, pos.active_color, PieceType::Bishop),
        forall|s: int| 0 <= s < 64 ==> #[trigger] bit(queens, s) == pos.holds(s, pos.active_color, PieceType::Queen),
    ensures
        ({
            let d1 = 0u64 | pos.bitboards@[PieceType::Pawn.index_of(pos.active_color)].0;
            let d2 = d1 | knights;
            let d3 = d2 | (rooks & hv);
            let d4 = d3 | (rooks & unpinned);
            let d5 = d4 | (bishops & d12);
            let d6 = d5 | (bishops & unpinned);
            let d7 = d6 | (queens & hv);
            let d8 = d7 | (queens & d12);
            &&& forall|x: int| #[trigger] bit(knights, x) ==> !bit(d1, x)
            &&& forall|x: int| #[trigger] bit(rooks & hv, x) ==> !bit(d2, x)
            &&& forall|x: int| #[trigger] bit(rooks & unpinned, x) ==> !bit(d3, x)
            &&& forall|x: int| #[trigger] bit(bishops & d12, x) ==> !bit(d4, x)
            &&& forall|x: int| #[trigger] bit(bishops & unpinned, x) ==> !bit(d5, x)
            &&& forall|x: int| #[trigger] bit(queens & hv, x) ==> !bit(d6, x)
            &&& forall|x: int| #[trigger] bit(queens & d12, x) ==> !bit(d7, x)
            &&& forall|x: int| #[trigger] bit(queens & unpinned, x) ==> !bit(d8, x)
            &&& !bit(d8 | (queens & unpinned), king_square(pos))
        }),
{
    broadcast use crate::bits::group_bit_lemmas;

    let c = pos.active_color;
    let pawn_bb = pos.bitboards@[PieceType::Pawn.index_of(c)].0;
    assert forall|x: int| 0 <= x < 64 implies #[trigger] bit(pawn_bb, x) == pos.holds(x, c, PieceType::Pawn) by {
        pos.lemma_bitboards(x, PieceType::Pawn.index_of(c));
    }
    assert forall|x: int| #[trigger] bit(queens & hv, x) implies !bit(d12, x) by {
        lemma_pin_masks_disjoint(pos, x);
    }
    lemma_king_on_square(pos);
}

/// The squares and flag bits of even flag bits.
pub open spec fn even_pairs() -> Set<(int, int)> {
    Set::new(|p: (int, int)| p.1 % 2 == 0)
}

/// The squares and flag bits of odd flag bits.
pub open spec fn odd_pairs() -> Set<(int, int)> {
    Set::new(|p: (int, int)| p.1 % 2 == 1)
}

/// The squares and flag bits of the pawn captures made so far: odd flags, no en
/// passant, onto squares no longer in `m`.
pub open spec fn cap_pairs(m: u64) -> Set<(int, int)> {
    Set::new(|p: (int, int)| p.1 % 2 == 1 && p.1 != 5 && !bit(m, p.0))
}

/// The squares and flag bits of the pawn captures made so far, en passant
/// captures only onto squares no longer in `m`.
pub open spec fn ep_pairs(m: u64) -> Set<(int, int)> {
    Set::new(|p: (int, int)| p.1 % 2 == 1 && (p.1 != 5 || !bit(m, p.0)))
}

/// The side to move has a king.
pub open spec fn has_king(pos: Position) -> bool {
    pos.bitboards@[PieceType::King.index_of(pos.active_color)].0 != 0
}

/// A square holds a piece of the side to move.
pub open spec fn own(pos: Position, s: int) -> bool {
    pos.piece_on(s) is Some && (pos.piece_on(s)->0).0 == pos.active_color
}

/// A square holds a piece of the side not to move.
pub open spec fn enemy(pos: Position, s: int) -> bool {
    pos.piece_on(s) is Some && (pos.piece_on(s)->0).0 == pos.active_color.other()
}

/// The square of the king of the side to move.
pub open spec fn king_square(pos: Position) -> int {
    u64_trailing_zeros(pos.bitboards@[PieceType::King.index_of(pos.active_color)].0) as int
}

/// An enemy piece of kind `p` on `t` attacks a king of the side to move on `k`.
pub open spec fn checks(pos: Position, k: int, t: int, p: PieceType) -> bool {
    let occ = pos.all_occupancies.0;
    match p {
        PieceType::Pawn => pawn_target(k, t, pos.active_color),
        PieceType::Knight => knight_target(k, t),
        PieceType::Bishop => d12_attack(k, occ, t),
        PieceType::Rook => hv_attack(k, occ, t),
        PieceType::Queen => d12_attack(k, occ, t) || hv_attack(k, occ, t),
        _ => false,
    }
}

/// The king of the side to move is attacked by an enemy pawn, knight, bishop,
/// rook or queen.
pub open spec fn in_check(pos: Position) -> bool {
    exists|t: int|
        0 <= t < 64 && enemy(pos, t) && #[trigger] checks(
            pos,
            king_square(pos),
            t,
            (pos.piece_on(t)->0).1,
        )
}

/// `t` holds an enemy piece that gives check.
pub open spec fn checker(pos: Position, t: int) -> bool {
    0 <= t < 64 && enemy(pos, t) && checks(pos, king_square(pos), t, (pos.piece_on(t)->0).1)
}

/// A bishop, rook or queen.
pub open spec fn is_slider(p: PieceType) -> bool {
    p == PieceType::Bishop || p == PieceType::Rook || p == PieceType::Queen
}

/// `x` is on the line of the check that the piece on `t` gives: its own square,
/// or for a bishop, rook or queen a square between it and the king.
pub open spec fn check_line(pos: Position, t: int, x: int) -> bool {
    x == t || (is_slider((pos.piece_on(t)->0).1) && segment(king_square(pos), t, x))
}

/// `x` is on the line of every check given.
pub open spec fn on_all_check_lines(pos: Position, x: int) -> bool {
    forall|t: int| #[trigger] checker(pos, t) ==> check_line(pos, t, x)
}

/// `x` is on the line of some check given.
pub open spec fn on_some_check_line(pos: Position, x: int) -> bool {
    exists|t: int| #[trigger] checker(pos, t) && check_line(pos, t, x)
}

/// The move answers a check from `t`: it takes the checking piece (en passant
/// too) or steps between it and the king.
pub open spec fn answers(pos: Position, m: Move, t: int) -> bool {
    check_line(pos, t, m.to_sq() as int) || (is_ep(m) && behind(pos.active_color, m.to_sq() as int)
        == t)
}

/// A move of any piece but the king answers every check given.
pub open spec fn evades(pos: Position, m: Move) -> bool {
    moving_piece(pos, m) != PieceType::King ==> forall|t: int| #[trigger]
        checker(pos, t) ==> answers(pos, m, t)
}

/// An enemy rook or queen on the rank or file of the king of the side to move.
pub open spec fn hv_slider(pos: Position, s: int) -> bool {
    let k = king_square(pos);
    let o = pos.active_color.other();
    &&& 0 <= s < 64
    &&& s != k
    &&& (row(s) == row(k) || col(s) == col(k))
    &&& (pos.holds(s, o, PieceType::Rook) || pos.holds(s, o, PieceType::Queen))
}

/// An enemy bishop or queen on a diagonal of the king of the side to move.
pub open spec fn d12_slider(pos: Position, s: int) -> bool {
    let k = king_square(pos);
    let o = pos.active_color.other();
    &&& 0 <= s < 64
    &&& s != k
    &&& (row(s) - col(s) == row(k) - col(k) || row(s) + col(s) == row(k) + col(k))
    &&& (pos.holds(s, o, PieceType::Bishop) || pos.holds(s, o, PieceType::Queen))
}

/// `t` is in the pin mask of some slider of `pos` for which `is_hv` tells the kind
/// of line, with the occupancy `occ`.
pub open spec fn in_pin_mask(pos: Position, occ: u64, t: int, is_hv: bool) -> bool {
    exists|s: int|
        #![trigger pin_segment(occ, king_square(pos), s, t)]
        (if is_hv {
            hv_slider(pos, s)
        } else {
            d12_slider(pos, s)
        }) && pin_segment(occ, king_square(pos), s, t)
}

/// The enemy slider on `s` pins the piece on `x`: it moves along the line from the
/// king of the side to move to `s`, and `x` is the only piece between them.
pub open spec fn pins(pos: Position, s: int, x: int) -> bool {
    let k = king_square(pos);
    &&& hv_slider(pos, s) || d12_slider(pos, s)
    &&& segment(k, s, x)
    &&& x != s
    &&& own(pos, x)
    &&& forall|y: int| #[trigger] segment(k, s, y) && y != s && y != x ==> pos.piece_on(y) is None
}

/// The board of `pos` once the piece on `x` has left it.
pub open spec fn occ_without(pos: Position, x: int) -> u64 {
    pos.all_occupancies.0 ^ (1u64 << (x as u64))
}

/// Taking the pawn on `z` uncovers no line to the king once the piece on `x` has
/// left: no enemy rook or queen on the king's rank, nor bishop or queen on its
/// diagonals, has `z` as the only piece between it and the king.
pub open spec fn uncovers_nothing(pos: Position, x: int, z: int) -> bool {
    forall|s: int|
        #[trigger] pin_segment(occ_without(pos, x), king_square(pos), s, z) ==> !((hv_slider(pos, s)
            && row(s) == row(king_square(pos))) || d12_slider(pos, s))
}

/// Moving the piece on `x` to `t` keeps every pin of it: `t` is between the king
/// and each piece that pins `x`, or is that piece.
pub open spec fn pin_kept(pos: Position, x: int, t: int) -> bool {
    forall|s: int| #[trigger] pins(pos, s, x) ==> segment(king_square(pos), s, t)
}

/// A move of any piece but the king keeps every pin: a pinned piece stays on the
/// line between the king and the piece that pins it, and an en passant capture
/// uncovers no line through the pawn it takes.
pub open spec fn keeps_pins(pos: Position, m: Move) -> bool {
    &&& moving_piece(pos, m) != PieceType::King ==> pin_kept(pos, m.from_sq() as int, m.to_sq() as int)
    &&& is_ep(m) ==> uncovers_nothing(
        pos,
        m.from_sq() as int,
        behind(pos.active_color, m.to_sq() as int),
    )
}

/// A square on a ray lies in the direction the ray takes from its start, at the
/// same distance.
pub proof fn lemma_ray_direction(k: int, t: int, dr: int, dc: int)
    requires
        0 <= k < 64,
        is_dir(dr, dc),
        on_ray(k, t, dr, dc),
    ensures
        dr == dir_r(k, t),
        dc == dir_c(k, t),
        aligned(k, t),
        ray_dist(k, t, dr, dc) == ray_dist(k, t, dir_r(k, t), dir_c(k, t)),
{
}

/// A slider reaching `s` along a ray reaches every square of the segment up to
/// `s`, and the only occupied one there is `s`.
proof fn lemma_segment_reached(k: int, occ: u64, dr: int, dc: int, s: int, x: int)
    requires
        0 <= k < 64,
        is_dir(dr, dc),
        ray_attack(k, occ, dr, dc, s),
        segment(k, s, x),
    ensures
        ray_attack(k, occ, dr, dc, x),
        bit(occ, x) ==> x == s,
{
    lemma_ray_direction(k, s, dr, dc);
    let n = ray_dist(k, s, dr, dc);
    let j = ray_dist(k, x, dr, dc);
    assert(on_ray(k, x, dr, dc));
    assert(ray_clear(k, occ, dr, dc, j)) by {
        assert forall|i: int| 1 <= i < j implies !#[trigger] bit(occ, ray_sq(k, dr, dc, i)) by {
            assert(i < n);
        }
    }
    if bit(occ, x) && j < n {
        assert(x == ray_sq(k, dr, dc, j));
        assert(!bit(occ, ray_sq(k, dr, dc, j)));
    }
}

/// Rook rays keep a rank or a file; bishop rays change both, along a diagonal.
proof fn lemma_ray_lines(k: int, occ: u64, t: int)
    requires
        0 <= k < 64,
    ensures
        hv_attack(k, occ, t) ==> (row(t) == row(k) || col(t) == col(k)),
        d12_attack(k, occ, t) ==> (row(t) != row(k) && col(t) != col(k) && (row(t) - col(t)
            == row(k) - col(k) || row(t) + col(t) == row(k) + col(k))),
{
}

/// A rook ray from the king reaching `s` reaches the whole segment up to `s`, with
/// nothing on it but `s`.
proof fn lemma_hv_segment(k: int, occ: u64, s: int)
    requires
        0 <= k < 64,
        hv_attack(k, occ, s),
    ensures
        aligned(k, s),
        forall|x: int| #[trigger] segment(k, s, x) ==> hv_attack(k, occ, x),
        forall|x: int| #[trigger] segment(k, s, x) && bit(occ, x) ==> x == s,
{
    let (dr, dc): (int, int) = if ray_attack(k, occ, -1, 0, s) {
        (-1, 0)
    } else if ray_attack(k, occ, 1, 0, s) {
        (1, 0)
    } else if ray_attack(k, occ, 0, -1, s) {
        (0, -1)
    } else {
        (0, 1)
    };
    lemma_ray_direction(k, s, dr, dc);
    assert forall|x: int| #[trigger] segment(k, s, x) implies hv_attack(k, occ, x) && (bit(occ, x)
        ==> x == s) by {
        lemma_segment_reached(k, occ, dr, dc, s, x);
    }
}

/// A bishop ray from the king reaching `s` reaches the whole segment up to `s`,
/// with nothing on it but `s`.
proof fn lemma_d12_segment(k: int, occ: u64, s: int)
    requires
        0 <= k < 64,
        d12_attack(k, occ, s),
    ensures
        aligned(k, s),
        forall|x: int| #[trigger] segment(k, s, x) ==> d12_attack(k, occ, x),
        forall|x: int| #[trigger] segment(k, s, x) && bit(occ, x) ==> x == s,
{
    let (dr, dc): (int, int) = if ray_attack(k, occ, -1, -1, s) {
        (-1, -1)
    } else if ray_attack(k, occ, -1, 1, s) {
        (-1, 1)
    } else if ray_attack(k, occ, 1, -1, s) {
        (1, -1)
    } else {
        (1, 1)
    };
    lemma_ray_direction(k, s, dr, dc);
    assert forall|x: int| #[trigger] segment(k, s, x) implies d12_attack(k, occ, x) && (bit(occ, x)
        ==> x == s) by {
        lemma_segment_reached(k, occ, dr, dc, s, x);
    }
}

/// The only occupied square on the line of a check is the checking piece's.
proof fn lemma_check_line_occupied(pos: Position, t: int, x: int)
    requires
        pos.wf(),
        has_king(pos),
        checker(pos, t),
        check_line(pos, t, x),
        pos.piece_on(x) is Some,
    ensures
        x == t,
{
    let k = king_square(pos);
    let occ = pos.all_occupancies.0;
    pos.lemma_occupancy(x);
    if x != t {
        let p = (pos.piece_on(t)->0).1;
        if p == PieceType::Rook || (p == PieceType::Queen && hv_attack(k, occ, t)) {
            lemma_hv_segment(k, occ, t);
        } else {
            lemma_d12_segment(k, occ, t);
        }
    }
}

/// A pinned piece is in the pin mask of its kind of line.
proof fn lemma_pinned_in_mask(pos: Position, s: int, x: int)
    requires
        pos.wf(),
        has_king(pos),
        pins(pos, s, x),
    ensures
        hv_slider(pos, s) ==> in_pin_mask(pos, pos.all_occupancies.0, x, true),
        d12_slider(pos, s) ==> in_pin_mask(pos, pos.all_occupancies.0, x, false),
{
    let k = king_square(pos);
    let occ = pos.all_occupancies.0;
    let dr = dir_r(k, s);
    let dc = dir_c(k, s);
    crate::lines::lemma_aligned_on_ray(k, s);
    let n = ray_dist(k, s, dr, dc);
    let j = ray_dist(k, x, dr, dc);
    crate::lines::lemma_ray_square_unique(k, dr, dc, n);
    pos.lemma_occupancy(s);
    pos.lemma_occupancy(x);
    assert(j < n);
    assert(x == ray_sq(k, dr, dc, j));
    assert forall|i: int| 1 <= i < n && i != j implies !#[trigger] bit(occ, ray_sq(k, dr, dc, i)) by {
        let y = ray_sq(k, dr, dc, i);
        crate::lines::lemma_ray_square_unique(k, dr, dc, i);
        assert(on_ray(k, y, dr, dc) && ray_dist(k, y, dr, dc) == i);
        assert(segment(k, s, y));
        pos.lemma_occupancy(y);
    }
    crate::lines::lemma_blockers_one(k, occ, dr, dc, n, j);
    assert(pin_segment(occ, k, s, x));
}

/// Every square between the king and the piece pinning `x`, that piece included,
/// is in the pin mask of its kind of line.
proof fn lemma_pin_line_in_mask(pos: Position, s: int, x: int, t: int)
    requires
        pos.wf(),
        has_king(pos),
        pins(pos, s, x),
        segment(king_square(pos), s, t),
    ensures
        hv_slider(pos, s) ==> in_pin_mask(pos, pos.all_occupancies.0, t, true),
        d12_slider(pos, s) ==> in_pin_mask(pos, pos.all_occupancies.0, t, false),
{
    let k = king_square(pos);
    let occ = pos.all_occupancies.0;
    let dr = dir_r(k, s);
    let dc = dir_c(k, s);
    lemma_pinned_in_mask(pos, s, x);
    crate::lines::lemma_aligned_on_ray(k, s);
    let n = ray_dist(k, s, dr, dc);
    let j = ray_dist(k, x, dr, dc);
    crate::lines::lemma_ray_square_unique(k, dr, dc, n);
    pos.lemma_occupancy(s);
    pos.lemma_occupancy(x);
    assert(j < n);
    assert(x == ray_sq(k, dr, dc, j));
    assert forall|i: int| 1 <= i < n && i != j implies !#[trigger] bit(occ, ray_sq(k, dr, dc, i)) by {
        let y = ray_sq(k, dr, dc, i);
        crate::lines::lemma_ray_square_unique(k, dr, dc, i);
        assert(on_ray(k, y, dr, dc) && ray_dist(k, y, dr, dc) == i);
        assert(segment(k, s, y));
        pos.lemma_occupancy(y);
    }
    crate::lines::lemma_blockers_one(k, occ, dr, dc, n, j);
    assert(pin_segment(occ, k, s, t));
}

/// The king stands on its square.
pub proof fn lemma_king_on_square(pos: Position)
    requires
        pos.wf(),
        has_king(pos),
    ensures
        0 <= king_square(pos) < 64,
        pos.holds(king_square(pos), pos.active_color, PieceType::King),
        bit(pos.all_occupancies.0, king_square(pos)),
{
    let i = PieceType::King.index_of(pos.active_color);
    crate::bits::lemma_trailing_zeros_bit(pos.bitboards@[i].0);
    pos.lemma_bitboards(king_square(pos), i);
}

/// Two rays from one square, of the same kind (both along ranks and files or both
/// along diagonals), meet a line of that kind through a square of the first ray
/// only when they are the same ray or opposite rays.
proof fn lemma_rays_cross(
    j: int,
    dr: int,
    dc: int,
    i: int,
    d2r: int,
    d2c: int,
    m: int,
    er: int,
    ec: int,
)
    requires
        is_dir(dr, dc),
        is_dir(d2r, d2c),
        is_dir(er, ec),
        j >= 1,
        i >= 1,
        m >= 1,
        (dr == 0 || dc == 0) == (er == 0 || ec == 0),
        (d2r == 0 || d2c == 0) == (er == 0 || ec == 0),
        crate::attacks::step(i, d2r) == crate::attacks::step(j, dr) + crate::attacks::step(m, er),
        crate::attacks::step(i, d2c) == crate::attacks::step(j, dc) + crate::attacks::step(m, ec),
    ensures
        (d2r == dr && d2c == dc) || (d2r == -dr && d2c == -dc),
{
}

/// A slider of the pinning kind on the ray through the pinned piece is the piece
/// that pins it.
proof fn lemma_same_ray_pinner(pos: Position, s: int, x: int, s2: int)
    requires
        pos.wf(),
        has_king(pos),
        pins(pos, s, x),
        hv_slider(pos, s2) || d12_slider(pos, s2),
        dir_r(king_square(pos), s2) == dir_r(king_square(pos), s),
        dir_c(king_square(pos), s2) == dir_c(king_square(pos), s),
        blockers(
            king_square(pos),
            pos.all_occupancies.0,
            dir_r(king_square(pos), s),
            dir_c(king_square(pos), s),
            ray_dist(king_square(pos), s2, dir_r(king_square(pos), s), dir_c(king_square(pos), s)),
        ) == 1,
    ensures
        s2 == s,
{
    let k = king_square(pos);
    let occ = pos.all_occupancies.0;
    let dr = dir_r(k, s);
    let dc = dir_c(k, s);
    crate::lines::lemma_aligned_on_ray(k, s);
    crate::lines::lemma_aligned_on_ray(k, s2);
    lemma_ray_direction(k, x, dr, dc);
    let n = ray_dist(k, s, dr, dc);
    let n2 = ray_dist(k, s2, dr, dc);
    let j = ray_dist(k, x, dr, dc);
    crate::lines::lemma_ray_square_unique(k, dr, dc, n);
    crate::lines::lemma_ray_square_unique(k, dr, dc, n2);
    crate::lines::lemma_ray_square_unique(k, dr, dc, j);
    pos.lemma_occupancy(s);
    pos.lemma_occupancy(x);
    pos.lemma_occupancy(s2);
    assert(j < n);
    if n2 > n {
        crate::lines::lemma_blockers_two(k, occ, dr, dc, n2, j, n);
    } else if n2 < n {
        assert(segment(k, s, s2));
        assert(s2 == x);
    }
}

/// A pinned piece that moves along a line of the kind it is pinned on, from its
/// pin mask into the pin mask, stays between the king and the piece pinning it.
#[verifier::rlimit(40)]
proof fn lemma_pinned_move_stays(pos: Position, s: int, x: int, t: int, er: int, ec: int)
    requires
        pos.wf(),
        has_king(pos),
        pins(pos, s, x),
        is_dir(er, ec),
        ray_attack(x, pos.all_occupancies.0, er, ec, t),
        in_pin_mask(pos, pos.all_occupancies.0, x, er == 0 || ec == 0),
        in_pin_mask(pos, pos.all_occupancies.0, t, er == 0 || ec == 0),
    ensures
        segment(king_square(pos), s, t),
{
    let k = king_square(pos);
    let occ = pos.all_occupancies.0;
    let is_hv = er == 0 || ec == 0;
    let s1 = choose|s1: int| #[trigger] pin_segment(occ, k, s1, x) && (if is_hv {
        hv_slider(pos, s1)
    } else {
        d12_slider(pos, s1)
    });
    let s2 = choose|s2: int| #[trigger] pin_segment(occ, k, s2, t) && (if is_hv {
        hv_slider(pos, s2)
    } else {
        d12_slider(pos, s2)
    });
    assert(pin_segment(occ, k, s1, x));
    assert(pin_segment(occ, k, s2, t));
    let dr = dir_r(k, s);
    let dc = dir_c(k, s);
    crate::lines::lemma_aligned_on_ray(k, s);
    crate::lines::lemma_aligned_on_ray(k, s1);
    crate::lines::lemma_aligned_on_ray(k, s2);
    lemma_ray_direction(k, x, dr, dc);
    lemma_ray_direction(k, x, dir_r(k, s1), dir_c(k, s1));
    let d2r = dir_r(k, s2);
    let d2c = dir_c(k, s2);
    lemma_ray_direction(k, t, d2r, d2c);
    lemma_ray_direction(x, t, er, ec);
    let j = ray_dist(k, x, dr, dc);
    let i = ray_dist(k, t, d2r, d2c);
    let m = ray_dist(x, t, er, ec);
    assert((dr == 0 || dc == 0) == is_hv);
    assert((d2r == 0 || d2c == 0) == is_hv);
    lemma_rays_cross(j, dr, dc, i, d2r, d2c, m, er, ec);
    if d2r == dr && d2c == dc {
        lemma_same_ray_pinner(pos, s, x, s2);
    } else {
        // the other side of the king: the king stands in the way
        lemma_king_on_square(pos);
        assert(er == -dr && ec == -dc);
        assert(1 <= j < m);
        assert(ray_sq(x, er, ec, j) == k);
        assert(!bit(occ, ray_sq(x, er, ec, j)));
    }
}

/// A piece in the rank and file pin mask that moves along a rank or file into it
/// keeps its pins.
proof fn lemma_hv_move_keeps(pos: Position, x: int, t: int)
    requires
        pos.wf(),
        has_king(pos),
        0 <= x < 64,
        hv_attack(x, pos.all_occupancies.0, t),
        in_pin_mask(pos, pos.all_occupancies.0, x, true),
        in_pin_mask(pos, pos.all_occupancies.0, t, true),
    ensures
        pin_kept(pos, x, t),
{
    let occ = pos.all_occupancies.0;
    assert forall|s: int| #[trigger] pins(pos, s, x) implies segment(king_square(pos), s, t) by {
        if ray_attack(x, occ, -1, 0, t) {
            lemma_pinned_move_stays(pos, s, x, t, -1, 0);
        } else if ray_attack(x, occ, 1, 0, t) {
            lemma_pinned_move_stays(pos, s, x, t, 1, 0);
        } else if ray_attack(x, occ, 0, -1, t) {
            lemma_pinned_move_stays(pos, s, x, t, 0, -1);
        } else {
            lemma_pinned_move_stays(pos, s, x, t, 0, 1);
        }
    }
}

/// A piece in the diagonal pin mask that moves along a diagonal into it keeps its
/// pins.
proof fn lemma_d12_move_keeps(pos: Position, x: int, t: int)
    requires
        pos.wf(),
        has_king(pos),
        0 <= x < 64,
        d12_attack(x, pos.all_occupancies.0, t),
        in_pin_mask(pos, pos.all_occupancies.0, x, false),
        in_pin_mask(pos, pos.all_occupancies.0, t, false),
    ensures
        pin_kept(pos, x, t),
{
    let occ = pos.all_occupancies.0;
    assert forall|s: int| #[trigger] pins(pos, s, x) implies segment(king_square(pos), s, t) by {
        if ray_attack(x, occ, -1, -1, t) {
            lemma_pinned_move_stays(pos, s, x, t, -1, -1);
        } else if ray_attack(x, occ, -1, 1, t) {
            lemma_pinned_move_stays(pos, s, x, t, -1, 1);
        } else if ray_attack(x, occ, 1, -1, t) {
            lemma_pinned_move_stays(pos, s, x, t, 1, -1);
        } else {
            lemma_pinned_move_stays(pos, s, x, t, 1, 1);
        }
    }
}

/// A pawn push goes along a file with nothing in between.
proof fn lemma_push_ray(x: int, t: int, c: Color, occ: u64)
    requires
        0 <= x < 64,
        0 <= t < 64,
        t == forward(c, x) || (t == forward(c, forward(c, x)) && !bit(occ, forward(c, x))),
    ensures
        hv_attack(x, occ, t),
{
    match c {
        Color::White => {
            assert(ray_sq(x, -1, 0, 1) == x - 8);
            assert(ray_attack(x, occ, -1, 0, t));
        },
        Color::Black => {
            assert(ray_sq(x, 1, 0, 1) == x + 8);
            assert(ray_attack(x, occ, 1, 0, t));
        },
    }
}

/// A pawn capture goes one step along a diagonal.
proof fn lemma_pawn_target_ray(x: int, t: int, c: Color, occ: u64)
    requires
        0 <= x < 64,
        pawn_target(x, t, c),
    ensures
        d12_attack(x, occ, t),
{
}

/// A push of a pawn keeps its pins when it is pinned along a rank or file with the
/// target in that pin mask, and always when it is not pinned.
proof fn lemma_push_keeps(pos: Position, x: int, t: int, pinned: bool)
    requires
        pos.wf(),
        has_king(pos),
        0 <= x < 64,
        0 <= t < 64,
        t == forward(pos.active_color, x) || (t == forward(pos.active_color, forward(pos.active_color, x))
            && !bit(pos.all_occupancies.0, forward(pos.active_color, x))),
        !pinned ==> forall|s: int| !#[trigger] pins(pos, s, x),
        pinned ==> in_pin_mask(pos, pos.all_occupancies.0, x, true),
        pinned ==> in_pin_mask(pos, pos.all_occupancies.0, t, true),
    ensures
        pin_kept(pos, x, t),
{
    if pinned {
        lemma_push_ray(x, t, pos.active_color, pos.all_occupancies.0);
        lemma_hv_move_keeps(pos, x, t);
    }
}

/// A capture of a pawn keeps its pins when it is pinned along a diagonal with the
/// target in that pin mask, and always when it is not pinned.
proof fn lemma_capture_keeps(pos: Position, x: int, t: int, pinned: bool)
    requires
        pos.wf(),
        has_king(pos),
        0 <= x < 64,
        pawn_target(x, t, pos.active_color),
        !pinned ==> forall|s: int| !#[trigger] pins(pos, s, x),
        pinned ==> in_pin_mask(pos, pos.all_occupancies.0, x, false),
        pinned ==> in_pin_mask(pos, pos.all_occupancies.0, t, false),
    ensures
        pin_kept(pos, x, t),
{
    if pinned {
        lemma_pawn_target_ray(x, t, pos.active_color, pos.all_occupancies.0);
        lemma_d12_move_keeps(pos, x, t);
    }
}

/// A piece in neither pin mask is pinned by nothing.
proof fn lemma_unpinned(pos: Position, x: int)
    requires
        pos.wf(),
        has_king(pos),
        !in_pin_mask(pos, pos.all_occupancies.0, x, true),
        !in_pin_mask(pos, pos.all_occupancies.0, x, false),
    ensures
        forall|s: int| !#[trigger] pins(pos, s, x),
{
    assert forall|s: int| !#[trigger] pins(pos, s, x) by {
        if pins(pos, s, x) {
            lemma_pinned_in_mask(pos, s, x);
        }
    }
}

/// Pushing a sound move keeps a list sound.
proof fn lemma_push_sound(pos: Position, s: Seq<(u16, i16)>, m: Move)
    requires
        list_sound(pos, s),
        move_sound(pos, m),
        move_shape(pos, m),
        evades(pos, m),
        keeps_pins(pos, m),
        canonical_flags(m),
    ensures
        list_sound(pos, s.push((m.data, 0i16))),
{
    assert forall|i: int| 0 <= i < s.push((m.data, 0i16)).len() implies move_sound(
        pos,
        Move { data: #[trigger] s.push((m.data, 0i16))[i].0 },
    ) && move_shape(pos, Move { data: s.push((m.data, 0i16))[i].0 }) && evades(
        pos,
        Move { data: s.push((m.data, 0i16))[i].0 },
    ) && keeps_pins(pos, Move { data: s.push((m.data, 0i16))[i].0 }) && canonical_flags(
        Move { data: s.push((m.data, 0i16))[i].0 },
    ) by {
        if i < s.len() {
            assert(s.push((m.data, 0i16))[i] == s[i]);
        }
    }
}

/// Pushes a move that fits the board.
fn push_sound(list: &mut MoveList, Ghost(pos): Ghost<Position>, m: Move)
    requires
        list_sound(pos, old(list).entries()),
        move_sound(pos, m),
        move_shape(pos, m),
        evades(pos, m),
        keeps_pins(pos, m),
        canonical_flags(m),
    ensures
        list_sound(pos, final(list).entries()),
        grows(old(list).entries(), final(list).entries()),
        final(list).entries().len() < 256 ==> listed_as(
            final(list).entries(),
            m.from_sq() as int,
            m.to_sq() as int,
            m.flags() as int,
        ),
        final(list).entries() == old(list).entries().push((m.data, 0i16)) || final(list).entries()
            == old(list).entries(),
{
    proof {
        lemma_push_sound(pos, list.entries(), m);
    }
    let ghost s = list.entries();
    list.push(m);
    proof {
        let t = list.entries();
        if s.len() < 256 {
            assert(t[s.len() as int] == (m.data, 0i16));
            assert(has_move(t[s.len() as int].0, m.from_sq() as int, m.to_sq() as int, m.flags() as int));
        }
    }
}

impl Position {
    /// The occupancy facts of a well formed position, square by square.
    pub proof fn lemma_occupancy(self, s: int)
        requires
            self.wf(),
            0 <= s < 64,
        ensures
            bit(self.all_occupancies.0, s) == (self.piece_on(s) is Some),
            bit(self.color_occupancies@[self.active_color.num()].0, s) == own(self, s),
            bit(self.color_occupancies@[self.active_color.other().num()].0, s) == enemy(self, s),
    {
        self.lemma_bitboards(s, 0);
    }

    /// Adds the moves of the piece on `src` to each square of `legal_targets`, as
    /// captures where an enemy piece stands.
    fn add_normal_moves(&self, move_list: &mut MoveList, src: u8, legal_targets: u64)
        requires
            self.wf(),
            src < 64,
            own(*self, src as int),
            self.piece_squares@[src as int] != PieceType::Pawn,
            forall|t: int| #[trigger] bit(legal_targets, t) ==> !own(*self, t),
            forall|t: int| #[trigger] bit(legal_targets, t) ==> piece_attack(
                src as int,
                self.active_color,
                self.piece_squares@[src as int],
                self.all_occupancies.0,
                t,
            ),
            self.piece_squares@[src as int] == PieceType::King ==> forall|t: int| #[trigger]
                bit(legal_targets, t) ==> safe_square(*self, t),
            self.piece_squares@[src as int] != PieceType::King ==> forall|t: int| #[trigger]
                bit(legal_targets, t) ==> on_all_check_lines(*self, t),
            self.piece_squares@[src as int] != PieceType::King ==> forall|t: int| #[trigger]
                bit(legal_targets, t) ==> pin_kept(*self, src as int, t),
            list_sound(*self, old(move_list).entries()),
            no_dups(old(move_list).entries()),
            none_from(old(move_list).entries(), src as int, 2),
        ensures
            list_sound(*self, final(move_list).entries()),
            no_dups(final(move_list).entries()),
            forall|i: int|
                old(move_list).entries().len() <= i < final(move_list).entries().len() ==> #[trigger] entry_from(
                    final(move_list).entries(),
                    i,
                ) == src && entry_flags(final(move_list).entries(), i) < 2,
            grows(old(move_list).entries(), final(move_list).entries()),
            final(move_list).entries().len() < 256 ==> forall|t: int| #[trigger]
                bit(legal_targets, t) ==> listed_as(
                    final(move_list).entries(),
                    src as int,
                    t,
                    capture_flag(*self, t),
                ),
    {
        let opp = self.color_bb(self.active_color.opposite());
        let mut targets = legal_targets;
        while targets != 0
            invariant
                self.wf(),
                src < 64,
                own(*self, src as int),
                self.piece_squares@[src as int] != PieceType::Pawn,
                forall|t: int| #[trigger] bit(targets, t) ==> !own(*self, t),
                forall|t: int| #[trigger] bit(targets, t) ==> piece_attack(
                    src as int,
                    self.active_color,
                    self.piece_squares@[src as int],
                    self.all_occupancies.0,
                    t,
                ),
                self.piece_squares@[src as int] == PieceType::King ==> forall|t: int| #[trigger]
                    bit(targets, t) ==> safe_square(*self, t),
                self.piece_squares@[src as int] != PieceType::King ==> forall|t: int| #[trigger]
                    bit(targets, t) ==> on_all_check_lines(*self, t),
                self.piece_squares@[src as int] != PieceType::King ==> forall|t: int| #[trigger]
                    bit(targets, t) ==> pin_kept(*self, src as int, t),
                opp == self.color_occupancies@[self.active_color.other().num()],
                list_sound(*self, move_list.entries()),
                grows(old(move_list).entries(), move_list.entries()),
                forall|t: int| #[trigger] bit(targets, t) ==> bit(legal_targets, t),
                no_dups(move_list.entries()),
                none_from(old(move_list).entries(), src as int, 2),
                forall|i: int|
                    old(move_list).entries().len() <= i < move_list.entries().len() ==> #[trigger] entry_from(
                        move_list.entries(),
                        i,
                    ) == src && !bit(targets, entry_to(move_list.entries(), i)) && entry_flags(
                        move_list.entries(),
                        i,
                    ) < 2,
                move_list.entries().len() < 256 ==> forall|t: int| #[trigger]
                    bit(legal_targets, t) && !bit(targets, t) ==> listed_as(
                        move_list.entries(),
                        src as int,
                        t,
                        capture_flag(*self, t),
                    ),
            decreases targets,
        {
            let ghost before = move_list.entries();
            let dst = pop_lowest(&mut targets);
            let is_capture = opp.get_bit(dst);
            let m = Move::new_normal(src, dst, is_capture);
            proof {
                self.lemma_occupancy(dst as int);
                self.lemma_occupancy(src as int);
            }
            proof {
                assert forall|i: int| 0 <= i < before.len() implies before[i].0 != m.data by {
                    if i < old(move_list).entries().len() {
                        assert(old(move_list).entries()[i] == before[i]);
                        assert(entry_from(old(move_list).entries(), i) != src);
                    } else {
                        assert(entry_from(before, i) == src);
                    }
                }
            }
            push_sound(move_list, Ghost(*self), m);
            proof {
                lemma_push_no_dups(before, move_list.entries(), m.data);
                let e = move_list.entries();
                assert forall|i: int|
                    old(move_list).entries().len() <= i < e.len() implies #[trigger] entry_from(e, i) == src
                        && !bit(targets, entry_to(e, i)) && entry_flags(e, i) < 2 by {
                    if i < before.len() {
                        assert(e[i] == before[i]);
                        assert(entry_from(before, i) == src);
                    } else {
                        assert(e[i] == (m.data, 0i16));
                    }
                }
                lemma_grows_trans(old(move_list).entries(), before, move_list.entries());
                assert forall|t: int| #[trigger] bit(legal_targets, t) && !bit(targets, t)
                    && move_list.entries().len() < 256 implies listed_as(
                    move_list.entries(),
                    src as int,
                    t,
                    capture_flag(*self, t),
                ) by {
                    if t != dst as int {
                        lemma_carry(before, move_list.entries(), src as int, t, capture_flag(*self, t));
                    }
                }
            }
        }
        proof {
            lemma_zero_iff_no_bits(targets);
        }
    }

    /// Pushes of a pawn: single, double and promotions, to squares in `valid_mask`.
    fn generate_quiet_pawn_moves(
        &self,
        move_list: &mut MoveList,
        src: u8,
        valid_mask: u64,
        Ghost(pinned): Ghost<bool>,
    )
        requires
            self.wf(),
            has_king(*self),
            !pinned ==> forall|s: int| !#[trigger] pins(*self, s, src as int),
            pinned ==> in_pin_mask(*self, self.all_occupancies.0, src as int, true),
            pinned ==> forall|t: int| #[trigger] bit(valid_mask, t) ==> in_pin_mask(
                *self,
                self.all_occupancies.0,
                t,
                true,
            ),
            src < 64,
            self.holds(src as int, self.active_color, PieceType::Pawn),
            forall|t: int| #[trigger] bit(valid_mask, t) ==> on_all_check_lines(*self, t),
            list_sound(*self, old(move_list).entries()),
            no_dups(old(move_list).entries()),
            none_from(old(move_list).entries(), src as int, 0),
        ensures
            list_sound(*self, final(move_list).entries()),
            no_dups(final(move_list).entries()),
            added_in(
                final(move_list).entries(),
                old(move_list).entries().len() as int,
                src as int,
                even_pairs(),
            ),
            grows(old(move_list).entries(), final(move_list).entries()),
            final(move_list).entries().len() < 256 ==> quiet_listed(
                *self,
                src as int,
                valid_mask,
                final(move_list).entries(),
            ),
    {
        let ghost a0 = move_list.entries();
        let color = self.active_color;
        let white = color.is_white();
        if (white && src < 8) || (!white && src >= 56) {
            return ;
        }
        let dst = if white {
            src - 8
        } else {
            src + 8
        };
        proof {
            self.lemma_occupancy(dst as int);
            self.lemma_occupancy(src as int);
        }
        // If the square in front is free
        if !self.all_occupancies.get_bit(dst) {
            proof {
                if bit(valid_mask, dst as int) {
                    lemma_push_keeps(*self, src as int, dst as int, pinned);
                }
            }
            // Promotion on the last rank
            if dst < 8 || dst >= 56 {
                if valid_mask.get_bit(dst) {
                    let ghost d = dst as int;
                    let ghost x = src as int;
                    let mq = Move::new_promotion(src, dst, PieceType::Queen, false);
                    push_sound(move_list, Ghost(*self), mq);
                    let ghost a1 = move_list.entries();
                    proof {
                        lemma_push_fresh(a0, a0, a1, x, 0, Set::empty(), mq);
                    }
                    let mr = Move::new_promotion(src, dst, PieceType::Rook, false);
                    push_sound(move_list, Ghost(*self), mr);
                    let ghost a2 = move_list.entries();
                    proof {
                        lemma_push_fresh(a0, a1, a2, x, 0, Set::empty().insert((d, 14int)), mr);
                    }
                    let mb = Move::new_promotion(src, dst, PieceType::Bishop, false);
                    push_sound(move_list, Ghost(*self), mb);
                    let ghost a3 = move_list.entries();
                    proof {
                        lemma_push_fresh(
                            a0,
                            a2,
                            a3,
                            x,
                            0,
                            Set::empty().insert((d, 14int)).insert((d, 10int)),
                            mb,
                        );
                    }
                    let mn = Move::new_promotion(src, dst, PieceType::Knight, false);
                    push_sound(move_list, Ghost(*self), mn);
                    proof {
                        let p3 = Set::empty().insert((d, 14int)).insert((d, 10int)).insert((d, 6int));
                        lemma_push_fresh(a0, a3, move_list.entries(), x, 0, p3, mn);
                        lemma_added_mono(move_list.entries(), a0.len() as int, x, p3.insert((d, 2int)), even_pairs());
                    }
                    proof {
                        lemma_promotions_listed(
                            a0,
                            a1,
                            a2,
                            a3,
                            move_list.entries(),
                            src as int,
                            dst as int,
                            0,
                        );
                    }
                }
            } else {
                // Normal move
                let ghost p1 = Set::empty().insert((dst as int, 0int));
                if valid_mask.get_bit(dst) {
                    let mq = Move::new_normal(src, dst, false);
                    push_sound(move_list, Ghost(*self), mq);
                    proof {
                        lemma_push_fresh(a0, a0, move_list.entries(), src as int, 0, Set::empty(), mq);
                    }
                }
                let ghost a1 = move_list.entries();
                proof {
                    lemma_grows_trans(a0, a0, a1);
                    assert(added_in(a1, a0.len() as int, src as int, p1));
                    lemma_added_mono(a1, a0.len() as int, src as int, p1, even_pairs());
                }
                // Double push from the initial rank
                let on_init_rank = if white {
                    48 <= src && src < 56
                } else {
                    8 <= src && src < 16
                };
                if on_init_rank {
                    let double_push_sq = if white {
                        src - 16
                    } else {
                        src + 16
                    };
                    proof {
                        self.lemma_occupancy(double_push_sq as int);
                        if bit(valid_mask, double_push_sq as int) {
                            lemma_push_keeps(*self, src as int, double_push_sq as int, pinned);
                        }
                    }
                    if !self.all_occupancies.get_bit(double_push_sq) && valid_mask.get_bit(
                        double_push_sq,
                    ) {
                        let md = Move::new(src, double_push_sq, MoveType::DoublePush);
                        push_sound(move_list, Ghost(*self), md);
                        proof {
                            lemma_push_fresh(a0, a1, move_list.entries(), src as int, 0, p1, md);
                            lemma_added_mono(
                                move_list.entries(),
                                a0.len() as int,
                                src as int,
                                p1.insert((double_push_sq as int, 4int)),
                                even_pairs(),
                            );
                            lemma_grows_trans(a0, a1, move_list.entries());
                            if bit(valid_mask, dst as int) {
                                lemma_carry(a1, move_list.entries(), src as int, dst as int, 0);
                            }
                        }
                    }
                }
            }
        }
    }

    /// Captures of a pawn into `check_mask & pin_mask`, and its en passant captures.
    #[verifier::spinoff_prover]
    #[verifier::rlimit(40)]
    fn generate_pawn_captures(
        &self,
        move_list: &mut MoveList,
        src: u8,
        check_mask: u64,
        pin_mask: u64,
        has_enpassant: bool,
        Ghost(pinned): Ghost<bool>,
    )
        requires
            self.wf(),
            !pinned ==> forall|s: int| !#[trigger] pins(*self, s, src as int),
            pinned ==> in_pin_mask(*self, self.all_occupancies.0, src as int, false),
            pinned ==> forall|t: int| #[trigger] bit(pin_mask, t) ==> in_pin_mask(
                *self,
                self.all_occupancies.0,
                t,
                false,
            ),
            has_king(*self),
            src < 64,
            self.holds(src as int, self.active_color, PieceType::Pawn),
            forall|t: int| #[trigger] bit(check_mask, t) ==> on_all_check_lines(*self, t),
            list_sound(*self, old(move_list).entries()),
            no_dups(old(move_list).entries()),
            none_from(old(move_list).entries(), src as int, 1),
        ensures
            list_sound(*self, final(move_list).entries()),
            no_dups(final(move_list).entries()),
            added_in(
                final(move_list).entries(),
                old(move_list).entries().len() as int,
                src as int,
                odd_pairs(),
            ),
            grows(old(move_list).entries(), final(move_list).entries()),
            final(move_list).entries().len() < 256 ==> pawn_captures_listed(
                *self,
                src as int,
                check_mask,
                pin_mask,
                final(move_list).entries(),
            ),
            final(move_list).entries().len() < 256 && has_enpassant ==> ep_listed(
                *self,
                src as int,
                check_mask,
                pin_mask,
                final(move_list).entries(),
            ),
    {
        let ghost a0 = move_list.entries();
        let color = self.active_color;
        let opp_color = color.opposite();
        let valid_mask = check_mask & pin_mask;
        let promoting = if color.is_white() {
            8 <= src && src < 16
        } else {
            48 <= src && src < 56
        };
        let attacks = pawn_attacks(src, color);
        let opp = self.color_bb(opp_color).0;
        let mut captures = attacks & valid_mask & opp;
        while captures != 0
            invariant
                self.wf(),
                src < 64,
                color == self.active_color,
                self.holds(src as int, self.active_color, PieceType::Pawn),
                opp == self.color_occupancies@[self.active_color.other().num()].0,
                promoting == match color {
                    Color::White => 8 <= src < 16,
                    Color::Black => 48 <= src < 56,
                },
                forall|t: int| #[trigger] bit(captures, t) ==> bit(opp, t),
                forall|t: int| #[trigger] bit(captures, t) ==> pawn_target(src as int, t, color),
                forall|t: int| #[trigger] bit(captures, t) ==> bit(pin_mask, t),
                has_king(*self),
                !pinned ==> forall|s: int| !#[trigger] pins(*self, s, src as int),
                pinned ==> in_pin_mask(*self, self.all_occupancies.0, src as int, false),
                pinned ==> forall|t: int| #[trigger] bit(pin_mask, t) ==> in_pin_mask(
                    *self,
                    self.all_occupancies.0,
                    t,
                    false,
                ),
                forall|t: int| #[trigger] bit(captures, t) ==> on_all_check_lines(*self, t),
                list_sound(*self, move_list.entries()),
                grows(a0, move_list.entries()),
                forall|t: int| #[trigger] bit(captures, t) ==> bit(attacks & valid_mask & opp, t),
                forall|t: int| #[trigger] bit(attacks, t) == pawn_target(src as int, t, color),
                valid_mask == check_mask & pin_mask,
                no_dups(move_list.entries()),
                none_from(a0, src as int, 1),
                added_in(move_list.entries(), a0.len() as int, src as int, cap_pairs(captures)),
                move_list.entries().len() < 256 ==> forall|t: int|
                    bit(attacks & valid_mask & opp, t) && !bit(captures, t) && !last_rank(color, t)
                        ==> #[trigger] listed_as(move_list.entries(), src as int, t, 1),
                move_list.entries().len() < 256 ==> forall|t: int, f: int|
                    bit(attacks & valid_mask & opp, t) && !bit(captures, t) && last_rank(color, t) && 0
                        <= f < 16 && f % 4 == 3 ==> #[trigger] listed_as(
                        move_list.entries(),
                        src as int,
                        t,
                        f,
                    ),
            decreases captures,
        {
            let ghost b0 = move_list.entries();
            let ghost captures_before = captures;
            let dst = pop_lowest(&mut captures);
            proof {
                self.lemma_occupancy(dst as int);
                self.lemma_occupancy(src as int);
                lemma_pawn_target_rank(src as int, dst as int, color);
                lemma_capture_keeps(*self, src as int, dst as int, pinned);
            }
            let ghost cb = captures_before;
            let ghost x = src as int;
            let ghost d = dst as int;
            if !promoting {
                let m1 = Move::new_normal(src, dst, true);
                push_sound(move_list, Ghost(*self), m1);
                proof {
                    lemma_push_fresh(a0, b0, move_list.entries(), x, 1, cap_pairs(cb), m1);
                    lemma_added_mono(
                        move_list.entries(),
                        a0.len() as int,
                        x,
                        cap_pairs(cb).insert((d, 1int)),
                        cap_pairs(captures),
                    );
                }
            } else {
                let mq = Move::new_promotion(src, dst, PieceType::Queen, true);
                push_sound(move_list, Ghost(*self), mq);
                let ghost b1 = move_list.entries();
                proof {
                    lemma_push_fresh(a0, b0, b1, x, 1, cap_pairs(cb), mq);
                }
                let mr = Move::new_promotion(src, dst, PieceType::Rook, true);
                push_sound(move_list, Ghost(*self), mr);
                let ghost b2 = move_list.entries();
                proof {
                    lemma_push_fresh(a0, b1, b2, x, 1, cap_pairs(cb).insert((d, 15int)), mr);
                }
                let mb = Move::new_promotion(src, dst, PieceType::Bishop, true);
                push_sound(move_list, Ghost(*self), mb);
                let ghost b3 = move_list.entries();
                proof {
                    lemma_push_fresh(
                        a0,
                        b2,
                        b3,
                        x,
                        1,
                        cap_pairs(cb).insert((d, 15int)).insert((d, 11int)),
                        mb,
                    );
                }
                let mn = Move::new_promotion(src, dst, PieceType::Knight, true);
                push_sound(move_list, Ghost(*self), mn);
                proof {
                    let p3 = cap_pairs(cb).insert((d, 15int)).insert((d, 11int)).insert((d, 7int));
                    lemma_push_fresh(a0, b3, move_list.entries(), x, 1, p3, mn);
                    lemma_added_mono(
                        move_list.entries(),
                        a0.len() as int,
                        x,
                        p3.insert((d, 3int)),
                        cap_pairs(captures),
                    );
                }
                proof {
                    lemma_promotions_listed(
                        b0,
                        b1,
                        b2,
                        b3,
                        move_list.entries(),
                        src as int,
                        dst as int,
                        1,
                    );
                }
            }
            proof {
                let e = move_list.entries();
                lemma_grows_trans(a0, b0, e);
                assert forall|t: int|
                    bit(attacks & valid_mask & opp, t) && !bit(captures, t) && !last_rank(color, t)
                        && e.len() < 256 implies #[trigger] listed_as(e, src as int, t, 1) by {
                    if t != dst as int {
                        lemma_carry(b0, e, src as int, t, 1);
                    }
                }
                assert forall|t: int, f: int|
                    bit(attacks & valid_mask & opp, t) && !bit(captures, t) && last_rank(color, t) && 0
                        <= f < 16 && f % 4 == 3 && e.len() < 256 implies #[trigger] listed_as(
                    e,
                    src as int,
                    t,
                    f,
                ) by {
                    if t != dst as int {
                        lemma_carry(b0, e, src as int, t, f);
                    }
                }
            }
        }
        proof {
            lemma_zero_iff_no_bits(captures);
            let e = move_list.entries();
            assert(e.len() < 256 ==> pawn_captures_listed(*self, src as int, check_mask, pin_mask, e))
                by {
                if e.len() < 256 {
                    assert forall|t: int|
                        pawn_target(src as int, t, self.active_color) && bit(check_mask, t) && bit(
                            pin_mask,
                            t,
                        ) && enemy(*self, t) && !last_rank(self.active_color, t) implies #[trigger] listed_as(
                        e,
                        src as int,
                        t,
                        1,
                    ) by {
                        self.lemma_occupancy(t);
                    }
                    assert forall|t: int, f: int|
                        pawn_target(src as int, t, self.active_color) && bit(check_mask, t) && bit(
                            pin_mask,
                            t,
                        ) && enemy(*self, t) && last_rank(self.active_color, t) && 0 <= f < 16 && f % 4
                            == 3 implies #[trigger] listed_as(e, src as int, t, f) by {
                        self.lemma_occupancy(t);
                    }
                }
            }
        }
        let ghost a1 = move_list.entries();
        if !has_enpassant {
            proof {
                lemma_added_mono(a1, a0.len() as int, src as int, cap_pairs(captures), odd_pairs());
            }
            return ;
        }
        let opp_pawns = self.bb(opp_color, PieceType::Pawn);
        let mut targets = attacks & pin_mask & self.enpassant_square.0;
        proof {
            lemma_added_mono(a1, a0.len() as int, src as int, cap_pairs(captures), ep_pairs(targets));
        }
        while targets != 0
            invariant
                self.wf(),
                has_king(*self),
                src < 64,
                self.holds(src as int, self.active_color, PieceType::Pawn),
                opp_color == self.active_color.other(),
                color == self.active_color,
                forall|t: int| #[trigger] bit(targets, t) ==> pawn_attacks_sq(src as int, t, color),
                forall|t: int| #[trigger] bit(targets, t) ==> bit(pin_mask, t),
                forall|t: int| #[trigger] bit(targets, t) ==> bit(self.enpassant_square.0, t),
                !pinned ==> forall|s: int| !#[trigger] pins(*self, s, src as int),
                pinned ==> in_pin_mask(*self, self.all_occupancies.0, src as int, false),
                pinned ==> forall|t: int| #[trigger] bit(pin_mask, t) ==> in_pin_mask(
                    *self,
                    self.all_occupancies.0,
                    t,
                    false,
                ),
                forall|t: int| #[trigger] bit(check_mask, t) ==> on_all_check_lines(*self, t),
                forall|s: int|
                    0 <= s < 64 ==> #[trigger] bit(opp_pawns.0, s) == self.holds(
                        s,
                        opp_color,
                        PieceType::Pawn,
                    ),
                list_sound(*self, move_list.entries()),
                a0 == old(move_list).entries(),
                grows(a0, move_list.entries()),
                grows(a1, move_list.entries()),
                no_dups(move_list.entries()),
                none_from(a0, src as int, 1),
                added_in(move_list.entries(), a0.len() as int, src as int, ep_pairs(targets)),
                a1.len() < 256 ==> pawn_captures_listed(*self, src as int, check_mask, pin_mask, a1),
                forall|t: int| #[trigger] bit(attacks, t) == pawn_target(src as int, t, color),
                move_list.entries().len() < 256 && ep_single(*self) ==> forall|e: int| #[trigger]
                    ep_ready(*self, src as int, e, check_mask, pin_mask) ==> bit(targets, e)
                        || listed_as(move_list.entries(), src as int, e, 5),
            decreases targets,
        {
            let ghost t0 = targets;
            let enp_sq = pop_lowest(&mut targets);
            let ghost cur = move_list.entries();
            proof {
                lemma_added_mono(cur, a0.len() as int, src as int, ep_pairs(t0), ep_pairs(targets));
            }
            proof {
                if ep_single(*self) {
                    assert forall|e: int| #[trigger]
                        ep_ready(*self, src as int, e, check_mask, pin_mask) && e != enp_sq as int
                            implies !bit(t0, e) by {
                        assert(bit(self.enpassant_square.0, enp_sq as int));
                    }
                }
            }
            let white = color.is_white();
            // The captured pawn stands behind the en passant square
            if (white && enp_sq >= 56) || (!white && enp_sq < 8) {
                proof {
                    lemma_captures_carry(*self, src as int, check_mask, pin_mask, a1, move_list.entries());
                    lemma_added_mono(move_list.entries(), a0.len() as int, src as int, ep_pairs(targets), odd_pairs());
                }
                return ;
            }
            let captured = if white {
                enp_sq + 8
            } else {
                enp_sq - 8
            };
            // Check mask check
            if !check_mask.get_bit(enp_sq) && !check_mask.get_bit(captured) {
                proof {
                    lemma_captures_carry(*self, src as int, check_mask, pin_mask, a1, move_list.entries());
                    lemma_added_mono(move_list.entries(), a0.len() as int, src as int, ep_pairs(targets), odd_pairs());
                }
                return ;
            }
            let pin = self.generate_enpassant_pin_mask(color, src);
            proof {
                self.lemma_occupancy(enp_sq as int);
                self.lemma_occupancy(captured as int);
                if ep_ready(*self, src as int, enp_sq as int, check_mask, pin_mask) {
                    let z = captured as int;
                    if bit(pin, z) {
                        if in_pin_mask(*self, self.all_occupancies.0, z, false) {
                            let k = king_square(*self);
                            let sl = choose|sl: int|
                                #![trigger pin_segment(self.all_occupancies.0, k, sl, z)]
                                d12_slider(*self, sl) && pin_segment(self.all_occupancies.0, k, sl, z);
                            self.lemma_occupancy(src as int);
                            self.lemma_occupancy(sl);
                            lemma_pin_segment_without(*self, src as int, z, sl);
                        }
                    }
                }
            }
            // Not opening up after the en passant capture
            if !pin.get_bit(captured) && opp_pawns.get_bit(captured)
                && !self.all_occupancies.get_bit(enp_sq) {
                let m = Move::new(src, enp_sq, MoveType::Enpassant);
                proof {
                    assert(captured != src);
                    lemma_capture_keeps(*self, src as int, enp_sq as int, pinned);
                    assert forall|t: int| #[trigger] checker(*self, t) implies answers(*self, m, t) by {
                        if !bit(check_mask, enp_sq as int) {
                            assert(bit(check_mask, captured as int));
                            assert(check_line(*self, t, captured as int));
                            lemma_check_line_occupied(*self, t, captured as int);
                        }
                    }
                }
                let ghost c0 = move_list.entries();
                push_sound(move_list, Ghost(*self), m);
                proof {
                    lemma_push_fresh(a0, c0, move_list.entries(), src as int, 1, ep_pairs(t0), m);
                    lemma_added_mono(
                        move_list.entries(),
                        a0.len() as int,
                        src as int,
                        ep_pairs(t0).insert((enp_sq as int, 5int)),
                        ep_pairs(targets),
                    );
                    lemma_grows_trans(a0, c0, move_list.entries());
                    lemma_grows_trans(a1, c0, move_list.entries());
                    if ep_single(*self) {
                        assert forall|e: int| #[trigger]
                            ep_ready(*self, src as int, e, check_mask, pin_mask)
                                && move_list.entries().len() < 256 implies bit(targets, e) || listed_as(
                            move_list.entries(),
                            src as int,
                            e,
                            5,
                        ) by {
                            if e != enp_sq as int {
                                if !bit(targets, e) {
                                    lemma_carry(c0, move_list.entries(), src as int, e, 5);
                                }
                            }
                        }
                    }
                }
            }
        }
        proof {
            lemma_zero_iff_no_bits(targets);
        }
        proof {
            lemma_captures_carry(*self, src as int, check_mask, pin_mask, a1, move_list.entries());
            lemma_added_mono(move_list.entries(), a0.len() as int, src as int, ep_pairs(targets), odd_pairs());
        }
    }

    /// All pawn moves, honoring the check mask and the pins.
    fn generate_pawn_moves(&self, move_list: &mut MoveList, check_mask: u64, hv_pin: u64, d12_pin: u64)
        requires
            self.wf(),
            has_king(*self),
            forall|t: int| #[trigger] bit(hv_pin, t) <==> in_pin_mask(*self, self.all_occupancies.0, t, true),
            forall|t: int| #[trigger] bit(d12_pin, t) <==> in_pin_mask(*self, self.all_occupancies.0, t, false),
            forall|t: int| #[trigger] bit(check_mask, t) ==> on_all_check_lines(*self, t),
            list_sound(*self, old(move_list).entries()),
            no_dups(old(move_list).entries()),
            forall|x: int|
                0 <= x < 64 && #[trigger] self.holds(x, self.active_color, PieceType::Pawn) ==> none_from(
                    old(move_list).entries(),
                    x,
                    2,
                ),
        ensures
            list_sound(*self, final(move_list).entries()),
            no_dups(final(move_list).entries()),
            forall|i: int|
                old(move_list).entries().len() <= i < final(move_list).entries().len() ==> bit(
                    self.bitboards@[PieceType::Pawn.index_of(self.active_color)].0,
                    #[trigger] entry_from(final(move_list).entries(), i),
                ),
            grows(old(move_list).entries(), final(move_list).entries()),
            final(move_list).entries().len() < 256 ==> forall|x: int|
                0 <= x < 64 && #[trigger] self.holds(x, self.active_color, PieceType::Pawn)
                    ==> pawn_moves_listed(*self, x, check_mask, hv_pin, d12_pin, final(move_list).entries()),
    {
        let ghost a0 = move_list.entries();
        let color = self.active_color;
        let pawns = self.bb(color, PieceType::Pawn).0;
        let has_enpassant = !self.enpassant_square.is_empty();
        proof {
            assert forall|t: int| #[trigger] bit(self.enpassant_square.0, t) implies has_enpassant by {
                lemma_zero_iff_no_bits(self.enpassant_square.0);
            }
        }

        let mut hv_pinned_pawns = pawns & hv_pin;
        while hv_pinned_pawns != 0
            invariant
                self.wf(),
                has_king(*self),
                forall|t: int| #[trigger] bit(hv_pin, t) <==> in_pin_mask(*self, self.all_occupancies.0, t, true),
                forall|t: int| #[trigger] bit(d12_pin, t) <==> in_pin_mask(*self, self.all_occupancies.0, t, false),
                forall|t: int| #[trigger] bit(check_mask, t) ==> on_all_check_lines(*self, t),
                color == self.active_color,
                forall|t: int| #[trigger] bit(hv_pinned_pawns, t) ==> self.holds(t, color, PieceType::Pawn) && bit(hv_pin, t),
                no_dups(move_list.entries()),
                forall|x: int|
                    0 <= x < 64 && #[trigger] self.holds(x, color, PieceType::Pawn) ==> none_from(a0, x, 2),
                forall|t: int| #[trigger] bit(hv_pinned_pawns, t) ==> bit(pawns & hv_pin, t),
                forall|i: int|
                    a0.len() <= i < move_list.entries().len() ==> bit(
                        pawns & hv_pin,
                        #[trigger] entry_from(move_list.entries(), i),
                    ) && !bit(hv_pinned_pawns, entry_from(move_list.entries(), i)) && entry_flags(
                        move_list.entries(),
                        i,
                    ) % 2 == 0,
                forall|t: int| 0 <= t < 64 ==> #[trigger] bit(pawns, t) == self.holds(t, color, PieceType::Pawn),
                list_sound(*self, move_list.entries()),
                a0 == old(move_list).entries(),
                grows(a0, move_list.entries()),
                move_list.entries().len() < 256 ==> forall|x: int|
                    0 <= x < 64 && #[trigger] self.holds(x, color, PieceType::Pawn) && bit(hv_pin, x)
                        && !bit(hv_pinned_pawns, x) ==> quiet_listed(
                        *self,
                        x,
                        check_mask & hv_pin,
                        move_list.entries(),
                    ),
            decreases hv_pinned_pawns,
        {
            let ghost before = move_list.entries();
            let src = pop_lowest(&mut hv_pinned_pawns);
            proof {
                assert(bit(hv_pin, src as int));
            }
            proof {
                assert forall|i: int| 0 <= i < before.len() implies #[trigger] entry_from(before, i)
                    != src as int || entry_flags(before, i) % 2 != 0 by {
                    if i < a0.len() {
                        assert(before[i] == a0[i]);
                        assert(none_from(a0, src as int, 2));
                        assert(entry_from(a0, i) != src as int);
                    }
                }
            }
            self.generate_quiet_pawn_moves(move_list, src, check_mask & hv_pin, Ghost(true));
            proof {
                let e2 = move_list.entries();
                assert forall|i: int| a0.len() <= i < e2.len() implies bit(
                    pawns & hv_pin,
                    #[trigger] entry_from(e2, i),
                ) && !bit(hv_pinned_pawns, entry_from(e2, i)) && entry_flags(e2, i) % 2 == 0 by {
                    if i < before.len() {
                        assert(e2[i] == before[i]);
                        assert(entry_from(before, i) == entry_from(e2, i));
                    } else {
                        assert(entry_from(e2, i) == src as int);
                        assert(even_pairs().contains((entry_to(e2, i), entry_flags(e2, i))));
                    }
                }
                let e = move_list.entries();
                lemma_grows_trans(a0, before, e);
                assert forall|x: int|
                    0 <= x < 64 && #[trigger] self.holds(x, color, PieceType::Pawn) && bit(hv_pin, x)
                        && !bit(hv_pinned_pawns, x) && e.len() < 256 implies quiet_listed(
                    *self,
                    x,
                    check_mask & hv_pin,
                    e,
                ) by {
                    if x != src as int {
                        lemma_quiet_carry(*self, x, check_mask & hv_pin, before, e);
                    }
                }
            }
        }
        let ghost a1 = move_list.entries();
        proof {
            lemma_zero_iff_no_bits(hv_pinned_pawns);
        }

        let mut d12_pinned_pawns = pawns & d12_pin;
        while d12_pinned_pawns != 0
            invariant
                self.wf(),
                has_king(*self),
                forall|t: int| #[trigger] bit(hv_pin, t) <==> in_pin_mask(*self, self.all_occupancies.0, t, true),
                forall|t: int| #[trigger] bit(d12_pin, t) <==> in_pin_mask(*self, self.all_occupancies.0, t, false),
                forall|t: int| #[trigger] bit(check_mask, t) ==> on_all_check_lines(*self, t),
                has_king(*self),
                color == self.active_color,
                forall|t: int| #[trigger] bit(d12_pinned_pawns, t) ==> self.holds(t, color, PieceType::Pawn) && bit(d12_pin, t),
                no_dups(move_list.entries()),
                forall|x: int|
                    0 <= x < 64 && #[trigger] self.holds(x, color, PieceType::Pawn) ==> none_from(a0, x, 2),
                forall|t: int| #[trigger] bit(d12_pinned_pawns, t) ==> bit(pawns & d12_pin, t),
                forall|i: int|
                    a0.len() <= i < a1.len() ==> bit(pawns & hv_pin, #[trigger] entry_from(a1, i))
                        && entry_flags(a1, i) % 2 == 0,
                forall|i: int|
                    a1.len() <= i < move_list.entries().len() ==> bit(
                        pawns & d12_pin,
                        #[trigger] entry_from(move_list.entries(), i),
                    ) && !bit(d12_pinned_pawns, entry_from(move_list.entries(), i)) && entry_flags(
                        move_list.entries(),
                        i,
                    ) % 2 == 1,
                forall|t: int| 0 <= t < 64 ==> #[trigger] bit(pawns, t) == self.holds(t, color, PieceType::Pawn),
                forall|t: int| #[trigger] bit(self.enpassant_square.0, t) ==> has_enpassant,
                list_sound(*self, move_list.entries()),
                a0 == old(move_list).entries(),
                grows(a0, a1),
                grows(a1, move_list.entries()),
                a1.len() < 256 ==> forall|x: int|
                    0 <= x < 64 && #[trigger] self.holds(x, color, PieceType::Pawn) && bit(hv_pin, x)
                        ==> quiet_listed(*self, x, check_mask & hv_pin, a1),
                move_list.entries().len() < 256 ==> forall|x: int|
                    0 <= x < 64 && #[trigger] self.holds(x, color, PieceType::Pawn) && bit(d12_pin, x)
                        && !bit(d12_pinned_pawns, x) ==> pawn_captures_listed(
                        *self,
                        x,
                        check_mask,
                        d12_pin,
                        move_list.entries(),
                    ) && ep_listed(*self, x, check_mask, d12_pin, move_list.entries()),
            decreases d12_pinned_pawns,
        {
            let ghost before = move_list.entries();
            let src = pop_lowest(&mut d12_pinned_pawns);
            proof {
                assert(bit(d12_pin, src as int));
            }
            proof {
                assert forall|i: int| 0 <= i < before.len() implies #[trigger] entry_from(before, i)
                    != src as int || entry_flags(before, i) % 2 != 1 by {
                    if i < a0.len() {
                        assert(before[i] == a0[i]);
                        assert(none_from(a0, src as int, 2));
                        assert(entry_from(a0, i) != src as int);
                    } else if i < a1.len() {
                        assert(before[i] == a1[i]);
                        assert(entry_from(a1, i) == entry_from(before, i));
                        assert(entry_flags(a1, i) % 2 == 0);
                    }
                }
            }
            self.generate_pawn_captures(move_list, src, check_mask, d12_pin, has_enpassant, Ghost(true));
            proof {
                let e2 = move_list.entries();
                assert forall|i: int| a1.len() <= i < e2.len() implies bit(
                    pawns & d12_pin,
                    #[trigger] entry_from(e2, i),
                ) && !bit(d12_pinned_pawns, entry_from(e2, i)) && entry_flags(e2, i) % 2 == 1 by {
                    if i < before.len() {
                        assert(e2[i] == before[i]);
                        assert(entry_from(before, i) == entry_from(e2, i));
                    } else {
                        assert(entry_from(e2, i) == src as int);
                        assert(odd_pairs().contains((entry_to(e2, i), entry_flags(e2, i))));
                    }
                }
                let e = move_list.entries();
                lemma_grows_trans(a1, before, e);
                if e.len() < 256 && !has_enpassant {
                    assert(!ep_single(*self) || forall|t: int| !#[trigger] ep_ready(*self, src as int, t, check_mask, d12_pin));
                }
                assert forall|x: int|
                    0 <= x < 64 && #[trigger] self.holds(x, color, PieceType::Pawn) && bit(d12_pin, x)
                        && !bit(d12_pinned_pawns, x) && e.len() < 256 implies pawn_captures_listed(
                    *self,
                    x,
                    check_mask,
                    d12_pin,
                    e,
                ) && ep_listed(*self, x, check_mask, d12_pin, e) by {
                    if x != src as int {
                        lemma_captures_carry(*self, x, check_mask, d12_pin, before, e);
                        lemma_ep_carry(*self, x, check_mask, d12_pin, before, e);
                    }
                }
            }
        }
        let ghost a2 = move_list.entries();
        proof {
            lemma_zero_iff_no_bits(d12_pinned_pawns);
            lemma_grows_trans(a0, a1, a2);
            assert forall|x: int|
                0 <= x < 64 && #[trigger] self.holds(x, color, PieceType::Pawn) && (bit(hv_pin, x) || bit(
                    d12_pin,
                    x,
                )) && a2.len() < 256 implies pawn_moves_listed(*self, x, check_mask, hv_pin, d12_pin, a2) by {
                if bit(hv_pin, x) {
                    lemma_quiet_carry(*self, x, check_mask & hv_pin, a1, a2);
                }
                if bit(d12_pin, x) {
                    assert(bit(pawns & d12_pin, x));
                }
            }
            assert forall|i: int| a0.len() <= i < a2.len() implies bit(pawns, #[trigger] entry_from(a2, i))
                && (bit(hv_pin, entry_from(a2, i)) || bit(d12_pin, entry_from(a2, i))) by {
                if i < a1.len() {
                    assert(a2[i] == a1[i]);
                    assert(entry_from(a1, i) == entry_from(a2, i));
                    assert(bit(pawns & hv_pin, entry_from(a1, i)));
                } else {
                    assert(bit(pawns & d12_pin, entry_from(a2, i)));
                }
            }
        }

        let mut unpinned_pawns = pawns & !(hv_pin | d12_pin);
        while unpinned_pawns != 0
            invariant
                self.wf(),
                has_king(*self),
                forall|t: int| #[trigger] bit(hv_pin, t) <==> in_pin_mask(*self, self.all_occupancies.0, t, true),
                forall|t: int| #[trigger] bit(d12_pin, t) <==> in_pin_mask(*self, self.all_occupancies.0, t, false),
                forall|t: int| #[trigger] bit(check_mask, t) ==> on_all_check_lines(*self, t),
                has_king(*self),
                color == self.active_color,
                forall|t: int| #[trigger] bit(unpinned_pawns, t) ==> self.holds(t, color, PieceType::Pawn) && !bit(hv_pin, t) && !bit(d12_pin, t),
                no_dups(move_list.entries()),
                forall|x: int|
                    0 <= x < 64 && #[trigger] self.holds(x, color, PieceType::Pawn) ==> none_from(a0, x, 2),
                forall|t: int| #[trigger] bit(unpinned_pawns, t) ==> bit(pawns, t),
                forall|i: int|
                    a0.len() <= i < a2.len() ==> bit(pawns, #[trigger] entry_from(a2, i)) && (bit(
                        hv_pin,
                        entry_from(a2, i),
                    ) || bit(d12_pin, entry_from(a2, i))),
                forall|i: int|
                    a2.len() <= i < move_list.entries().len() ==> bit(
                        pawns,
                        #[trigger] entry_from(move_list.entries(), i),
                    ) && !bit(hv_pin, entry_from(move_list.entries(), i)) && !bit(
                        d12_pin,
                        entry_from(move_list.entries(), i),
                    ) && !bit(unpinned_pawns, entry_from(move_list.entries(), i)),
                forall|t: int| 0 <= t < 64 ==> #[trigger] bit(pawns, t) == self.holds(t, color, PieceType::Pawn),
                forall|t: int| #[trigger] bit(self.enpassant_square.0, t) ==> has_enpassant,
                list_sound(*self, move_list.entries()),
                a0 == old(move_list).entries(),
                grows(a0, a2),
                grows(a2, move_list.entries()),
                a2.len() < 256 ==> forall|x: int|
                    0 <= x < 64 && #[trigger] self.holds(x, color, PieceType::Pawn) && (bit(hv_pin, x)
                        || bit(d12_pin, x)) ==> pawn_moves_listed(*self, x, check_mask, hv_pin, d12_pin, a2),
                move_list.entries().len() < 256 ==> forall|x: int|
                    0 <= x < 64 && #[trigger] self.holds(x, color, PieceType::Pawn) && !bit(hv_pin, x)
                        && !bit(d12_pin, x) && !bit(unpinned_pawns, x) ==> pawn_moves_listed(
                        *self,
                        x,
                        check_mask,
                        hv_pin,
                        d12_pin,
                        move_list.entries(),
                    ),
            decreases unpinned_pawns,
        {
            let ghost before = move_list.entries();
            let src = pop_lowest(&mut unpinned_pawns);
            proof {
                assert(!bit(hv_pin, src as int) && !bit(d12_pin, src as int));
                lemma_unpinned(*self, src as int);
            }
            proof {
                assert forall|i: int| 0 <= i < before.len() implies #[trigger] entry_from(before, i)
                    != src as int by {
                    if i < a0.len() {
                        assert(before[i] == a0[i]);
                        assert(none_from(a0, src as int, 2));
                        assert(entry_from(a0, i) != src as int);
                    } else if i < a2.len() {
                        assert(before[i] == a2[i]);
                        assert(entry_from(a2, i) == entry_from(before, i));
                    }
                }
            }
            self.generate_quiet_pawn_moves(move_list, src, check_mask, Ghost(false));
            let ghost mid = move_list.entries();
            proof {
                assert forall|i: int| 0 <= i < mid.len() implies #[trigger] entry_from(mid, i) != src as int
                    || entry_flags(mid, i) % 2 != 1 by {
                    if i < before.len() {
                        assert(mid[i] == before[i]);
                        assert(entry_from(before, i) == entry_from(mid, i));
                    } else {
                        assert(entry_from(mid, i) == src as int);
                        assert(even_pairs().contains((entry_to(mid, i), entry_flags(mid, i))));
                    }
                }
            }
            self.generate_pawn_captures(
                move_list,
                src,
                check_mask,
                0xffff_ffff_ffff_ffffu64,
                has_enpassant,
                Ghost(false),
            );
            proof {
                let e = move_list.entries();
                lemma_grows_trans(before, mid, e);
                lemma_grows_trans(a2, before, e);
                assert forall|i: int| a2.len() <= i < e.len() implies bit(
                    pawns,
                    #[trigger] entry_from(e, i),
                ) && !bit(hv_pin, entry_from(e, i)) && !bit(d12_pin, entry_from(e, i)) && !bit(
                    unpinned_pawns,
                    entry_from(e, i),
                ) by {
                    if i < before.len() {
                        assert(e[i] == before[i]);
                        assert(entry_from(before, i) == entry_from(e, i));
                    } else if i < mid.len() {
                        assert(e[i] == mid[i]);
                        assert(entry_from(mid, i) == entry_from(e, i));
                        assert(entry_from(mid, i) == src as int);
                    } else {
                        assert(entry_from(e, i) == src as int);
                    }
                }
                if e.len() < 256 {
                    lemma_quiet_carry(*self, src as int, check_mask, mid, e);
                }
                assert forall|x: int|
                    0 <= x < 64 && #[trigger] self.holds(x, color, PieceType::Pawn) && !bit(hv_pin, x)
                        && !bit(d12_pin, x) && !bit(unpinned_pawns, x) && e.len() < 256 implies pawn_moves_listed(
                    *self,
                    x,
                    check_mask,
                    hv_pin,
                    d12_pin,
                    e,
                ) by {
                    if x != src as int {
                        lemma_pawn_moves_carry(*self, x, check_mask, hv_pin, d12_pin, before, e);
                    }
                }
            }
        }
        proof {
            lemma_zero_iff_no_bits(unpinned_pawns);
            let e = move_list.entries();
            lemma_grows_trans(a0, a2, e);
            assert forall|i: int| a0.len() <= i < e.len() implies bit(
                self.bitboards@[PieceType::Pawn.index_of(self.active_color)].0,
                #[trigger] entry_from(e, i),
            ) by {
                if i < a2.len() {
                    assert(e[i] == a2[i]);
                    assert(entry_from(a2, i) == entry_from(e, i));
                    assert(bit(pawns, entry_from(a2, i)));
                } else {
                    assert(bit(pawns, entry_from(e, i)));
                }
            }
            assert forall|x: int|
                0 <= x < 64 && #[trigger] self.holds(x, color, PieceType::Pawn) && e.len() < 256
                    implies pawn_moves_listed(*self, x, check_mask, hv_pin, d12_pin, e) by {
                if bit(hv_pin, x) || bit(d12_pin, x) {
                    lemma_pawn_moves_carry(*self, x, check_mask, hv_pin, d12_pin, a2, e);
                } else {
                    assert(bit(pawns & !(hv_pin | d12_pin), x));
                }
            }
        }
    }
}


impl Position {
    /// Moves of the pieces of one kind in `pieces` to their targets among `allowed`;
    /// `hv` and `d12` choose the slider rays (neither: knight jumps).
    fn add_piece_moves(
        &self,
        move_list: &mut MoveList,
        pieces: u64,
        allowed: u64,
        piece: PieceType,
        hv: bool,
        d12: bool,
        Ghost(pinned): Ghost<Option<bool>>,
    )
        requires
            self.wf(),
            has_king(*self),
            pinned is None ==> forall|x: int, s: int|
                #![trigger bit(pieces, x), pins(*self, s, x)]
                bit(pieces, x) ==> !pins(*self, s, x),
            pinned matches Some(kind) ==> {
                &&& forall|x: int| #[trigger] bit(pieces, x) ==> in_pin_mask(*self, self.all_occupancies.0, x, kind)
                &&& forall|t: int| #[trigger] bit(allowed, t) ==> in_pin_mask(*self, self.all_occupancies.0, t, kind)
                &&& kind ==> hv && !d12
                &&& !kind ==> d12 && !hv
            },
            piece == PieceType::Knight ==> !hv && !d12,
            piece == PieceType::Rook ==> hv && !d12,
            piece == PieceType::Bishop ==> d12 && !hv,
            piece == PieceType::Queen ==> hv || d12,
            piece != PieceType::Empty && piece != PieceType::Pawn && piece != PieceType::King,
            forall|t: int| #[trigger] bit(pieces, t) ==> self.holds(t, self.active_color, piece),
            forall|t: int| #[trigger] bit(allowed, t) ==> !own(*self, t),
            forall|t: int| #[trigger] bit(allowed, t) ==> on_all_check_lines(*self, t),
            list_sound(*self, old(move_list).entries()),
            no_dups(old(move_list).entries()),
            forall|x: int| #[trigger] bit(pieces, x) ==> none_from(old(move_list).entries(), x, 2),
        ensures
            list_sound(*self, final(move_list).entries()),
            no_dups(final(move_list).entries()),
            forall|i: int|
                old(move_list).entries().len() <= i < final(move_list).entries().len() ==> bit(
                    pieces,
                    #[trigger] entry_from(final(move_list).entries(), i),
                ),
            grows(old(move_list).entries(), final(move_list).entries()),
            final(move_list).entries().len() < 256 ==> piece_moves_listed(
                *self,
                pieces,
                allowed,
                hv,
                d12,
                final(move_list).entries(),
            ),
    {
        let mut bb = pieces;
        while bb != 0
            invariant
                self.wf(),
                piece == PieceType::Knight ==> !hv && !d12,
                piece == PieceType::Rook ==> hv && !d12,
                piece == PieceType::Bishop ==> d12 && !hv,
                piece == PieceType::Queen ==> hv || d12,
                piece != PieceType::Empty && piece != PieceType::Pawn && piece != PieceType::King,
                forall|t: int| #[trigger] bit(bb, t) ==> self.holds(t, self.active_color, piece),
                forall|t: int| #[trigger] bit(allowed, t) ==> !own(*self, t),
                forall|t: int| #[trigger] bit(allowed, t) ==> on_all_check_lines(*self, t),
                has_king(*self),
                pinned is None ==> forall|x: int, s: int|
                    #![trigger bit(pieces, x), pins(*self, s, x)]
                    bit(pieces, x) ==> !pins(*self, s, x),
                pinned matches Some(kind) ==> {
                    &&& forall|x: int| #[trigger] bit(pieces, x) ==> in_pin_mask(*self, self.all_occupancies.0, x, kind)
                    &&& forall|t: int| #[trigger] bit(allowed, t) ==> in_pin_mask(*self, self.all_occupancies.0, t, kind)
                    &&& kind ==> hv && !d12
                    &&& !kind ==> d12 && !hv
                },
                forall|t: int| #[trigger] bit(bb, t) ==> bit(pieces, t),
                list_sound(*self, move_list.entries()),
                grows(old(move_list).entries(), move_list.entries()),
                no_dups(move_list.entries()),
                forall|x: int| #[trigger] bit(pieces, x) ==> none_from(old(move_list).entries(), x, 2),
                forall|i: int|
                    old(move_list).entries().len() <= i < move_list.entries().len() ==> bit(
                        pieces,
                        #[trigger] entry_from(move_list.entries(), i),
                    ) && !bit(bb, entry_from(move_list.entries(), i)),
                move_list.entries().len() < 256 ==> forall|x: int, t: int|
                    #![trigger listed_as(move_list.entries(), x, t, capture_flag(*self, t))]
                    bit(pieces, x) && !bit(bb, x) && bit(allowed, t) && reaches(
                        hv,
                        d12,
                        x,
                        self.all_occupancies.0,
                        t,
                    ) ==> listed_as(move_list.entries(), x, t, capture_flag(*self, t)),
            decreases bb,
        {
            let ghost before = move_list.entries();
            let src = pop_lowest(&mut bb);
            let seen = if hv && d12 {
                d12_attacks(src, self.all_occupancies) | hv_attacks(src, self.all_occupancies)
            } else if hv {
                hv_attacks(src, self.all_occupancies)
            } else if d12 {
                d12_attacks(src, self.all_occupancies)
            } else {
                knight_attacks(src)
            };
            proof {
                assert(self.piece_squares@[src as int] == piece);
                assert forall|t: int| #[trigger] bit(seen & allowed, t) implies piece_attack(
                    src as int,
                    self.active_color,
                    piece,
                    self.all_occupancies.0,
                    t,
                ) by {
                    assert(bit(seen, t));
                }
                assert forall|t: int| #[trigger] bit(seen & allowed, t) implies pin_kept(*self, src as int, t) by {
                    match pinned {
                        Some(kind) => {
                            if kind {
                                lemma_hv_move_keeps(*self, src as int, t);
                            } else {
                                lemma_d12_move_keeps(*self, src as int, t);
                            }
                        },
                        None => {
                            assert forall|s: int| !#[trigger] pins(*self, s, src as int) by {
                                assert(bit(pieces, src as int));
                            }
                        },
                    }
                }
            }
            proof {
                assert(bit(pieces, src as int));
                assert forall|i: int| 0 <= i < before.len() implies #[trigger] entry_from(before, i)
                    != src as int by {
                    if i < old(move_list).entries().len() {
                        assert(old(move_list).entries()[i] == before[i]);
                        assert(none_from(old(move_list).entries(), src as int, 2));
                        assert(entry_from(old(move_list).entries(), i) != src as int);
                    }
                }
            }
            self.add_normal_moves(move_list, src, seen & allowed);
            proof {
                let e2 = move_list.entries();
                assert forall|i: int|
                    old(move_list).entries().len() <= i < e2.len() implies bit(
                        pieces,
                        #[trigger] entry_from(e2, i),
                    ) && !bit(bb, entry_from(e2, i)) by {
                    if i < before.len() {
                        assert(e2[i] == before[i]);
                        assert(entry_from(before, i) == entry_from(e2, i));
                    } else {
                        assert(entry_from(e2, i) == src as int);
                    }
                }
                lemma_grows_trans(old(move_list).entries(), before, move_list.entries());
                assert forall|x: int, t: int|
                    bit(pieces, x) && !bit(bb, x) && bit(allowed, t) && reaches(
                        hv,
                        d12,
                        x,
                        self.all_occupancies.0,
                        t,
                    ) && move_list.entries().len() < 256 implies #[trigger] listed_as(
                    move_list.entries(),
                    x,
                    t,
                    capture_flag(*self, t),
                ) by {
                    if x == src as int {
                        assert(bit(seen, t));
                        assert(bit(seen & allowed, t));
                    } else {
                        lemma_carry(before, move_list.entries(), x, t, capture_flag(*self, t));
                    }
                }
            }
        }
        proof {
            lemma_zero_iff_no_bits(bb);
        }
    }

    /// The squares attacked by the pieces of one kind of the enemy of `color`,
    /// with the king of `color` taken off the board so that it cannot hide behind itself.
    fn get_attacked_wo_king(&self, color: Color, piece_type: PieceType) -> (r: u64)
        requires
            self.wf(),
            piece_type != PieceType::Empty,
        ensures
            forall|s: int, t: int|
                #![trigger self.holds(s, color.other(), piece_type), bit(r, t)]
                0 <= s < 64 && self.holds(s, color.other(), piece_type) && piece_attack(
                    s,
                    color.other(),
                    piece_type,
                    occ_without_king(*self, color),
                    t,
                ) ==> bit(r, t),
            forall|t: int| #[trigger]
                bit(r, t) ==> exists|s: int|
                    #![trigger self.holds(s, color.other(), piece_type)]
                    0 <= s < 64 && self.holds(s, color.other(), piece_type) && piece_attack(
                        s,
                        color.other(),
                        piece_type,
                        occ_without_king(*self, color),
                        t,
                    ),
    {
        let occ_wo_king = self.all_occupancies.0 ^ self.bb(color, PieceType::King).0;
        let opp_color = color.opposite();
        let pieces = self.bb(opp_color, piece_type).0;
        let mut bb = pieces;
        let mut mask: u64 = 0;
        while bb != 0
            invariant
                self.wf(),
                piece_type != PieceType::Empty,
                opp_color == color.other(),
                occ_wo_king == occ_without_king(*self, color),
                forall|s: int| 0 <= s < 64 ==> #[trigger] bit(pieces, s) == self.holds(s, opp_color, piece_type),
                forall|s: int| #[trigger] bit(bb, s) ==> bit(pieces, s),
                forall|s: int, t: int|
                    #![trigger self.holds(s, opp_color, piece_type), bit(mask, t)]
                    0 <= s < 64 && self.holds(s, opp_color, piece_type) && !bit(bb, s) && piece_attack(
                        s,
                        opp_color,
                        piece_type,
                        occ_wo_king,
                        t,
                    ) ==> bit(mask, t),
                forall|t: int| #[trigger]
                    bit(mask, t) ==> exists|s: int|
                        #![trigger self.holds(s, opp_color, piece_type)]
                        0 <= s < 64 && self.holds(s, opp_color, piece_type) && piece_attack(
                            s,
                            opp_color,
                            piece_type,
                            occ_wo_king,
                            t,
                        ),
            decreases bb,
        {
            let ghost old_bb = bb;
            let ghost old_mask = mask;
            let piece = pop_lowest(&mut bb);
            let a = get_attacks(piece, opp_color, piece_type, Bitboard(occ_wo_king));
            mask = mask | a;
            proof {
                assert forall|s: int, t: int|
                    0 <= s < 64 && self.holds(s, opp_color, piece_type) && !bit(bb, s) && piece_attack(
                        s,
                        opp_color,
                        piece_type,
                        occ_wo_king,
                        t,
                    ) implies bit(mask, t) by {
                    if s == piece as int {
                        assert(bit(a, t));
                    } else {
                        assert(!bit(old_bb, s));
                        assert(bit(old_mask, t));
                    }
                }
                assert forall|t: int| #[trigger] bit(mask, t) implies exists|s: int|
                    #![trigger self.holds(s, opp_color, piece_type)]
                    0 <= s < 64 && self.holds(s, opp_color, piece_type) && piece_attack(
                        s,
                        opp_color,
                        piece_type,
                        occ_wo_king,
                        t,
                    ) by {
                    if bit(a, t) {
                        assert(bit(pieces, piece as int));
                        assert(self.holds(piece as int, opp_color, piece_type));
                    } else {
                        assert(bit(old_mask, t));
                    }
                }
            }
        }
        mask
    }

    /// The squares that block or capture every checking piece; all squares when
    /// the king of `color` is not in check.
    fn generate_check_mask(&self, color: Color) -> (r: u64)
        requires
            self.wf(),
            color == self.active_color,
            self.bitboards@[PieceType::King.index_of(color)].0 != 0,
        ensures
            forall|t: int| #[trigger] checker(*self, t) ==> bit(r, t),
            in_check(*self) ==> !bit(r, king_square(*self)),
            !in_check(*self) ==> r == 0xffff_ffff_ffff_ffffu64,
            forall|x: int| #[trigger] bit(r, x) && in_check(*self) ==> on_some_check_line(*self, x),
            forall|t: int, x: int| #[trigger] checker(*self, t) && #[trigger] check_line(*self, t, x) ==> bit(r, x),
    {
        let ghost occ = self.all_occupancies.0;
        let mut mask: u64 = 0;
        let king_pos = self.king_position(color);
        let ghost k = king_pos as int;
        let opp_color = color.opposite();
        let king_rays = hv_attacks(king_pos, self.all_occupancies) | d12_attacks(
            king_pos,
            self.all_occupancies,
        );
        let hv_all = self.bb(opp_color, PieceType::Rook).0 | self.bb(opp_color, PieceType::Queen).0;
        let mut hv_sliders = hv_all;
        while hv_sliders != 0
            invariant
                self.wf(),
                color == self.active_color,
                opp_color == color.other(),
                king_pos < 64,
                k == king_pos,
                k == king_square(*self),
                occ == self.all_occupancies.0,
                forall|t: int| #[trigger]
                    bit(king_rays, t) == (hv_attack(k, occ, t) || d12_attack(k, occ, t)),
                forall|t: int|
                    0 <= t < 64 ==> #[trigger] bit(hv_all, t) == (self.holds(t, opp_color, PieceType::Rook)
                        || self.holds(t, opp_color, PieceType::Queen)),
                forall|t: int| #[trigger] bit(hv_sliders, t) ==> bit(hv_all, t),
                forall|x: int| #[trigger] bit(mask, x) ==> on_some_check_line(*self, x),
                !bit(mask, k),
                forall|t: int|
                    0 <= t < 64 && bit(hv_all, t) && !bit(hv_sliders, t) && hv_attack(k, occ, t)
                        ==> #[trigger] bit(mask, t),
                forall|t: int, x: int|
                    #![trigger segment(k, t, x), bit(mask, x)]
                    0 <= t < 64 && bit(hv_all, t) && !bit(hv_sliders, t) && hv_attack(k, occ, t)
                        && segment(k, t, x) ==> bit(mask, x),
            decreases hv_sliders,
        {
            let ghost old_sliders = hv_sliders;
            let ghost old_mask = mask;
            let slider = pop_lowest(&mut hv_sliders);
            let ghost sq = slider as int;
            proof {
                if hv_attack(k, occ, sq) {
                    lemma_hv_segment(k, occ, sq);
                    lemma_ray_lines(k, occ, sq);
                }
            }
            if slider != king_pos && (slider / 8 == king_pos / 8 || slider % 8 == king_pos % 8) {
                proof {
                    assert(aligned(k, sq));
                }
                let slider_check_mask = segment_mask(king_pos, slider);
                proof {
                    crate::lines::lemma_aligned_on_ray(k, sq);
                    assert(segment(k, sq, sq));
                    if hv_attack(k, occ, sq) {
                        assert forall|i: int| 0 <= i < 64 implies #[trigger] bit(
                            slider_check_mask & king_rays,
                            i,
                        ) == bit(slider_check_mask, i) by {
                            if segment(k, sq, i) {
                                assert(hv_attack(k, occ, i));
                            }
                        }
                        crate::bits::lemma_bits_ext(slider_check_mask & king_rays, slider_check_mask);
                    }
                }
                if (slider_check_mask & king_rays) == slider_check_mask {
                    proof {
                        assert(bit(slider_check_mask & king_rays, sq));
                        lemma_ray_lines(k, occ, sq);
                        assert(hv_attack(k, occ, sq));
                        assert(self.piece_on(sq) is Some);
                        assert(checker(*self, sq));
                        assert forall|x: int| #[trigger] bit(slider_check_mask, x) implies on_some_check_line(
                            *self,
                            x,
                        ) by {
                            assert(check_line(*self, sq, x));
                        }
                    }
                    mask = mask | slider_check_mask;
                }
            }
        }
        let d12_all = self.bb(opp_color, PieceType::Bishop).0 | self.bb(opp_color, PieceType::Queen).0;
        let mut d12_sliders = d12_all;
        while d12_sliders != 0
            invariant
                self.wf(),
                color == self.active_color,
                opp_color == color.other(),
                king_pos < 64,
                k == king_pos,
                k == king_square(*self),
                occ == self.all_occupancies.0,
                forall|t: int| #[trigger]
                    bit(king_rays, t) == (hv_attack(k, occ, t) || d12_attack(k, occ, t)),
                forall|t: int|
                    0 <= t < 64 ==> #[trigger] bit(hv_all, t) == (self.holds(t, opp_color, PieceType::Rook)
                        || self.holds(t, opp_color, PieceType::Queen)),
                forall|t: int|
                    0 <= t < 64 ==> #[trigger] bit(d12_all, t) == (self.holds(t, opp_color, PieceType::Bishop)
                        || self.holds(t, opp_color, PieceType::Queen)),
                forall|t: int| #[trigger] bit(d12_sliders, t) ==> bit(d12_all, t),
                forall|x: int| #[trigger] bit(mask, x) ==> on_some_check_line(*self, x),
                !bit(mask, k),
                forall|t: int|
                    0 <= t < 64 && bit(hv_all, t) && hv_attack(k, occ, t) ==> #[trigger] bit(mask, t),
                forall|t: int|
                    0 <= t < 64 && bit(d12_all, t) && !bit(d12_sliders, t) && d12_attack(k, occ, t)
                        ==> #[trigger] bit(mask, t),
                forall|t: int, x: int|
                    #![trigger segment(k, t, x), bit(mask, x)]
                    0 <= t < 64 && bit(hv_all, t) && hv_attack(k, occ, t) && segment(k, t, x) ==> bit(
                        mask,
                        x,
                    ),
                forall|t: int, x: int|
                    #![trigger segment(k, t, x), bit(mask, x)]
                    0 <= t < 64 && bit(d12_all, t) && !bit(d12_sliders, t) && d12_attack(k, occ, t)
                        && segment(k, t, x) ==> bit(mask, x),
            decreases d12_sliders,
        {
            let ghost old_sliders = d12_sliders;
            let ghost old_mask = mask;
            let slider = pop_lowest(&mut d12_sliders);
            let ghost sq = slider as int;
            proof {
                if d12_attack(k, occ, sq) {
                    lemma_d12_segment(k, occ, sq);
                    lemma_ray_lines(k, occ, sq);
                }
            }
            if slider != king_pos && (slider / 8 + king_pos % 8 == king_pos / 8 + slider % 8
                || slider / 8 + slider % 8 == king_pos / 8 + king_pos % 8) {
                proof {
                    assert(aligned(k, sq));
                }
                let slider_check_mask = segment_mask(king_pos, slider);
                proof {
                    crate::lines::lemma_aligned_on_ray(k, sq);
                    assert(segment(k, sq, sq));
                    if d12_attack(k, occ, sq) {
                        assert forall|i: int| 0 <= i < 64 implies #[trigger] bit(
                            slider_check_mask & king_rays,
                            i,
                        ) == bit(slider_check_mask, i) by {
                            if segment(k, sq, i) {
                                assert(d12_attack(k, occ, i));
                            }
                        }
                        crate::bits::lemma_bits_ext(slider_check_mask & king_rays, slider_check_mask);
                    }
                }
                if (slider_check_mask & king_rays) == slider_check_mask {
                    proof {
                        assert(bit(slider_check_mask & king_rays, sq));
                        lemma_ray_lines(k, occ, sq);
                        assert(d12_attack(k, occ, sq));
                        assert(self.piece_on(sq) is Some);
                        assert(checker(*self, sq));
                        assert forall|x: int| #[trigger] bit(slider_check_mask, x) implies on_some_check_line(
                            *self,
                            x,
                        ) by {
                            assert(check_line(*self, sq, x));
                        }
                    }
                    mask = mask | slider_check_mask;
                }
            }
        }
        let pawn_checks = pawn_attacks(king_pos, color) & self.bb(opp_color, PieceType::Pawn).0;
        let knight_checks = knight_attacks(king_pos) & self.bb(opp_color, PieceType::Knight).0;
        proof {
            assert forall|x: int| #[trigger] bit(pawn_checks, x) implies on_some_check_line(*self, x) by {
                assert(checker(*self, x));
                assert(check_line(*self, x, x));
            }
            assert forall|x: int| #[trigger] bit(knight_checks, x) implies on_some_check_line(*self, x) by {
                assert(checker(*self, x));
                assert(check_line(*self, x, x));
            }
        }
        mask = mask | pawn_checks;
        mask = mask | knight_checks;
        proof {
            assert forall|t: int| #[trigger] checker(*self, t) implies bit(mask, t) by {
                let p = (self.piece_on(t)->0).1;
                assert(self.holds(t, opp_color, p));
                if p == PieceType::Pawn {
                    assert(bit(pawn_checks, t));
                } else if p == PieceType::Knight {
                    assert(bit(knight_checks, t));
                } else if p == PieceType::Rook {
                    assert(bit(hv_all, t));
                } else if p == PieceType::Bishop {
                    assert(bit(d12_all, t));
                } else if p == PieceType::Queen {
                    assert(bit(hv_all, t) && bit(d12_all, t));
                }
            }
            assert forall|t: int, x: int| #[trigger] checker(*self, t) && #[trigger] check_line(
                *self,
                t,
                x,
            ) implies bit(mask, x) by {
                if x != t {
                    let p = (self.piece_on(t)->0).1;
                    assert(self.holds(t, opp_color, p));
                    assert(segment(k, t, x));
                    if p == PieceType::Rook {
                        assert(bit(hv_all, t));
                    } else if p == PieceType::Bishop {
                        assert(bit(d12_all, t));
                    } else {
                        assert(bit(hv_all, t) && bit(d12_all, t));
                    }
                }
            }
            if in_check(*self) {
                let t = choose|t: int|
                    0 <= t < 64 && enemy(*self, t) && #[trigger] checks(
                        *self,
                        king_square(*self),
                        t,
                        (self.piece_on(t)->0).1,
                    );
                assert(checker(*self, t));
                assert(bit(mask, t));
            } else {
                assert forall|i: int| 0 <= i < 64 implies !#[trigger] bit(mask, i) by {
                    if bit(mask, i) {
                        assert(on_some_check_line(*self, i));
                        let t = choose|t: int| #[trigger] checker(*self, t) && check_line(*self, t, i);
                        assert(checker(*self, t));
                    }
                }
                lemma_zero_iff_no_bits(mask);
            }
        }
        if mask != 0 {
            mask
        } else {
            0xffff_ffff_ffff_ffffu64
        }
    }

    /// The rank and file pin masks of the king of `color` with the occupancy `occ`.
    fn hv_pins(&self, color: Color, occ: u64) -> (r: u64)
        requires
            self.wf(),
            color == self.active_color,
            self.bitboards@[PieceType::King.index_of(color)].0 != 0,
        ensures
            forall|t: int| #[trigger] bit(r, t) <==> in_pin_mask(*self, occ, t, true),
    {
        let mut mask: u64 = 0;
        let opp_color = color.opposite();
        let king_pos = self.king_position(color);
        let ghost k = king_pos as int;
        let sliders = self.bb(opp_color, PieceType::Rook).0 | self.bb(opp_color, PieceType::Queen).0;
        let h_all = rank_mask(king_pos) & sliders;
        let mut h_sliders = h_all;
        while h_sliders != 0
            invariant
                self.wf(),
                color == self.active_color,
                opp_color == color.other(),
                king_pos < 64,
                k == king_pos,
                k == king_square(*self),
                forall|t: int|
                    0 <= t < 64 ==> #[trigger] bit(sliders, t) == (self.holds(t, opp_color, PieceType::Rook)
                        || self.holds(t, opp_color, PieceType::Queen)),
                forall|t: int| #[trigger] bit(h_all, t) == (bit(sliders, t) && 0 <= t < 64 && row(t) == row(k)),
                forall|t: int| #[trigger] bit(h_sliders, t) ==> bit(h_all, t),
                forall|t: int| #[trigger] bit(mask, t) ==> in_pin_mask(*self, occ, t, true),
                forall|s: int, t: int|
                    #![trigger pin_segment(occ, k, s, t)]
                    hv_slider(*self, s) && bit(h_all, s) && !bit(h_sliders, s) && pin_segment(occ, k, s, t) ==> bit(mask, t),
            decreases h_sliders,
        {
            let ghost old_sliders = h_sliders;
            let ghost old_mask = mask;
            let slider = pop_lowest(&mut h_sliders);
            if slider != king_pos {
                let pm = pin_mask_h(Bitboard(occ), king_pos, slider);
                proof {
                    assert(hv_slider(*self, slider as int));
                    assert forall|t: int| #[trigger] bit(pm, t) implies in_pin_mask(*self, occ, t, true) by {
                        assert(pin_segment(occ, k, slider as int, t));
                    }
                }
                mask = mask | pm;
            }
            proof {
                assert forall|s: int, t: int|
                    hv_slider(*self, s) && bit(h_all, s) && !bit(h_sliders, s) && #[trigger] pin_segment(occ, k, s, t) implies bit(mask, t) by {
                    if s != slider as int {
                        assert(!bit(old_sliders, s));
                        assert(bit(old_mask, t));
                    }
                }
            }
        }
        let v_all = file_mask(king_pos) & sliders;
        let mut v_sliders = v_all;
        while v_sliders != 0
            invariant
                self.wf(),
                color == self.active_color,
                opp_color == color.other(),
                king_pos < 64,
                k == king_pos,
                k == king_square(*self),
                forall|t: int|
                    0 <= t < 64 ==> #[trigger] bit(sliders, t) == (self.holds(t, opp_color, PieceType::Rook)
                        || self.holds(t, opp_color, PieceType::Queen)),
                forall|t: int| #[trigger] bit(h_all, t) == (bit(sliders, t) && 0 <= t < 64 && row(t) == row(k)),
                forall|t: int| #[trigger] bit(v_all, t) == (bit(sliders, t) && 0 <= t < 64 && col(t) == col(k)),
                forall|t: int| #[trigger] bit(v_sliders, t) ==> bit(v_all, t),
                forall|t: int| #[trigger] bit(mask, t) ==> in_pin_mask(*self, occ, t, true),
                forall|s: int, t: int|
                    #![trigger pin_segment(occ, k, s, t)]
                    hv_slider(*self, s) && bit(h_all, s) && pin_segment(occ, k, s, t) ==> bit(mask, t),
                forall|s: int, t: int|
                    #![trigger pin_segment(occ, k, s, t)]
                    hv_slider(*self, s) && bit(v_all, s) && !bit(v_sliders, s) && pin_segment(occ, k, s, t) ==> bit(mask, t),
            decreases v_sliders,
        {
            let ghost old_sliders = v_sliders;
            let ghost old_mask = mask;
            let slider = pop_lowest(&mut v_sliders);
            if slider != king_pos {
                let pm = pin_mask_v(Bitboard(occ), king_pos, slider);
                proof {
                    assert(hv_slider(*self, slider as int));
                    assert forall|t: int| #[trigger] bit(pm, t) implies in_pin_mask(*self, occ, t, true) by {
                        assert(pin_segment(occ, k, slider as int, t));
                    }
                }
                mask = mask | pm;
            }
            proof {
                assert forall|s: int, t: int|
                    hv_slider(*self, s) && bit(v_all, s) && !bit(v_sliders, s) && #[trigger] pin_segment(occ, k, s, t) implies bit(mask, t) by {
                    if s != slider as int {
                        assert(!bit(old_sliders, s));
                        assert(bit(old_mask, t));
                    }
                }
            }
        }
        proof {
            assert forall|t: int| #[trigger] bit(mask, t) <==> in_pin_mask(*self, occ, t, true) by {
                if in_pin_mask(*self, occ, t, true) {
                    let s = choose|s: int| #[trigger] pin_segment(occ, king_square(*self), s, t) && hv_slider(*self, s);
                    assert(pin_segment(occ, k, s, t));
                    if row(s) == row(k) {
                        assert(bit(h_all, s));
                    } else {
                        assert(bit(v_all, s));
                    }
                }
            }
        }
        mask
    }

    /// The diagonal pin masks of the king of `color` with the occupancy `occ`;
    /// with `d1` false only the diagonal from h8 to a1 is looked at.
    fn d12_pins(&self, color: Color, occ: u64) -> (r: u64)
        requires
            self.wf(),
            color == self.active_color,
            self.bitboards@[PieceType::King.index_of(color)].0 != 0,
        ensures
            forall|t: int| #[trigger] bit(r, t) <==> in_pin_mask(*self, occ, t, false),
    {
        let mut mask: u64 = 0;
        let opp_color = color.opposite();
        let king_pos = self.king_position(color);
        let ghost k = king_pos as int;
        let all = self.bb(opp_color, PieceType::Bishop).0 | self.bb(opp_color, PieceType::Queen).0;
        let mut sliders = all;
        let kr = king_pos / 8;
        let kc = king_pos % 8;
        while sliders != 0
            invariant
                self.wf(),
                color == self.active_color,
                opp_color == color.other(),
                king_pos < 64,
                k == king_pos,
                k == king_square(*self),
                kr == king_pos / 8,
                kc == king_pos % 8,
                forall|t: int|
                    0 <= t < 64 ==> #[trigger] bit(all, t) == (self.holds(t, opp_color, PieceType::Bishop)
                        || self.holds(t, opp_color, PieceType::Queen)),
                forall|t: int| #[trigger] bit(sliders, t) ==> bit(all, t),
                forall|t: int| #[trigger] bit(mask, t) ==> in_pin_mask(*self, occ, t, false),
                forall|s: int, t: int|
                    #![trigger pin_segment(occ, k, s, t)]
                    d12_slider(*self, s) && !bit(sliders, s) && pin_segment(occ, k, s, t) ==> bit(mask, t),
            decreases sliders,
        {
            let ghost old_sliders = sliders;
            let ghost old_mask = mask;
            let slider = pop_lowest(&mut sliders);
            let sr = slider / 8;
            let sc = slider % 8;
            if slider != king_pos && sr + kc == kr + sc {
                let pm = pin_mask_d1(Bitboard(occ), king_pos, slider);
                proof {
                    assert(d12_slider(*self, slider as int));
                    assert forall|t: int| #[trigger] bit(pm, t) implies in_pin_mask(*self, occ, t, false) by {
                        assert(pin_segment(occ, k, slider as int, t));
                    }
                }
                mask = mask | pm;
            } else if slider != king_pos && sr + sc == kr + kc {
                let pm = pin_mask_d2(Bitboard(occ), king_pos, slider);
                proof {
                    assert(d12_slider(*self, slider as int));
                    assert forall|t: int| #[trigger] bit(pm, t) implies in_pin_mask(*self, occ, t, false) by {
                        assert(pin_segment(occ, k, slider as int, t));
                    }
                }
                mask = mask | pm;
            }
            proof {
                assert forall|s: int, t: int|
                    d12_slider(*self, s) && !bit(sliders, s) && #[trigger] pin_segment(occ, k, s, t) implies bit(mask, t) by {
                    if s != slider as int {
                        assert(bit(all, s));
                        assert(!bit(old_sliders, s));
                        assert(bit(old_mask, t));
                    }
                }
            }
        }
        proof {
            assert forall|t: int| #[trigger] bit(mask, t) <==> in_pin_mask(*self, occ, t, false) by {
                if in_pin_mask(*self, occ, t, false) {
                    let s = choose|s: int| #[trigger] pin_segment(occ, king_square(*self), s, t) && d12_slider(*self, s);
                    assert(pin_segment(occ, k, s, t));
                }
            }
        }
        mask
    }

    /// The squares of the rank and file pins of the king of `color`.
    fn generate_hv_pin_mask(&self, color: Color) -> (r: u64)
        requires
            self.wf(),
            color == self.active_color,
            self.bitboards@[PieceType::King.index_of(color)].0 != 0,
        ensures
            forall|t: int| #[trigger] bit(r, t) <==> in_pin_mask(*self, self.all_occupancies.0, t, true),
    {
        self.hv_pins(color, self.all_occupancies.0)
    }

    /// The squares of the diagonal pins of the king of `color`.
    fn generate_d12_pin_mask(&self, color: Color) -> (r: u64)
        requires
            self.wf(),
            color == self.active_color,
            self.bitboards@[PieceType::King.index_of(color)].0 != 0,
        ensures
            forall|t: int| #[trigger] bit(r, t) <==> in_pin_mask(*self, self.all_occupancies.0, t, false),
    {
        self.d12_pins(color, self.all_occupancies.0)
    }

    /// The pins that arise once the pawn on `src` has left its square by an
    /// en passant capture, and the ordinary diagonal pins.
    fn generate_enpassant_pin_mask(&self, color: Color, src: u8) -> (r: u64)
        requires
            self.wf(),
            color == self.active_color,
            self.bitboards@[PieceType::King.index_of(color)].0 != 0,
            src < 64,
        ensures
            forall|s: int, t: int|
                #![trigger pin_segment(occ_without(*self, src as int), king_square(*self), s, t)]
                ((hv_slider(*self, s) && row(s) == row(king_square(*self))) || d12_slider(*self, s))
                    && pin_segment(occ_without(*self, src as int), king_square(*self), s, t) ==> bit(r, t),
            forall|t: int| #[trigger]
                bit(r, t) ==> (exists|s: int|
                    #![trigger pin_segment(occ_without(*self, src as int), king_square(*self), s, t)]
                    ((hv_slider(*self, s) && row(s) == row(king_square(*self))) || d12_slider(*self, s))
                        && pin_segment(occ_without(*self, src as int), king_square(*self), s, t))
                    || in_pin_mask(*self, self.all_occupancies.0, t, false),
    {
        let occ = self.all_occupancies.0 ^ (1u64 << src);
        let king_pos = self.king_position(color);
        let ghost k = king_pos as int;
        let opp_color = color.opposite();
        let mut mask: u64 = 0;
        let sliders = self.bb(opp_color, PieceType::Rook).0 | self.bb(opp_color, PieceType::Queen).0;
        let h_all = rank_mask(king_pos) & sliders;
        let mut h_sliders = h_all;
        while h_sliders != 0
            invariant
                self.wf(),
                color == self.active_color,
                opp_color == color.other(),
                king_pos < 64,
                k == king_pos,
                k == king_square(*self),
                occ == occ_without(*self, src as int),
                forall|t: int|
                    0 <= t < 64 ==> #[trigger] bit(sliders, t) == (self.holds(t, opp_color, PieceType::Rook)
                        || self.holds(t, opp_color, PieceType::Queen)),
                forall|t: int| #[trigger] bit(h_all, t) == (bit(sliders, t) && 0 <= t < 64 && row(t) == row(k)),
                forall|t: int| #[trigger] bit(h_sliders, t) ==> bit(h_all, t),
                forall|s: int, t: int|
                    #![trigger pin_segment(occ, k, s, t)]
                    hv_slider(*self, s) && bit(h_all, s) && !bit(h_sliders, s) && pin_segment(occ, k, s, t) ==> bit(mask, t),
                forall|t: int| #[trigger]
                    bit(mask, t) ==> exists|s: int|
                        #![trigger pin_segment(occ, k, s, t)]
                        hv_slider(*self, s) && row(s) == row(k) && pin_segment(occ, k, s, t),
            decreases h_sliders,
        {
            let ghost old_sliders = h_sliders;
            let ghost old_mask = mask;
            let slider = pop_lowest(&mut h_sliders);
            if slider != king_pos {
                mask = mask | pin_mask_h(Bitboard(occ), king_pos, slider);
            }
            proof {
                assert forall|s: int, t: int|
                    hv_slider(*self, s) && bit(h_all, s) && !bit(h_sliders, s) && #[trigger] pin_segment(occ, k, s, t) implies bit(mask, t) by {
                    if s != slider as int {
                        assert(!bit(old_sliders, s));
                        assert(bit(old_mask, t));
                    }
                }
                assert forall|t: int| #[trigger] bit(mask, t) implies exists|s: int|
                    #![trigger pin_segment(occ, k, s, t)]
                    hv_slider(*self, s) && row(s) == row(k) && pin_segment(occ, k, s, t) by {
                    if !bit(old_mask, t) {
                        let sl = slider as int;
                        assert(bit(h_all, sl));
                        assert(pin_segment(occ, k, sl, t));
                        assert(hv_slider(*self, sl));
                    }
                }
            }
        }
        let d = self.d12_pins(color, occ);
        mask = mask | d;
        let r = mask | self.generate_d12_pin_mask(color);
        proof {
            assert forall|s: int, t: int|
                ((hv_slider(*self, s) && row(s) == row(k)) || d12_slider(*self, s))
                    && #[trigger] pin_segment(occ, k, s, t) implies bit(r, t) by {
                if d12_slider(*self, s) {
                    assert(in_pin_mask(*self, occ, t, false));
                    assert(bit(d, t));
                } else {
                    assert(bit(h_all, s));
                }
            }
        }
        r
    }

    /// Whether the king of the side to move is attacked by an enemy pawn, knight,
    /// bishop, rook or queen.
    pub fn is_in_check(&self) -> (r: bool)
        requires
            self.wf(),
            has_king(*self),
        ensures
            r == in_check(*self),
    {
        broadcast use group_bit_lemmas;

        let c = self.active_color;
        let o = c.opposite();
        let k = self.king_position(c);
        proof {
            lemma_zero_iff_no_bits(self.bitboards@[PieceType::King.index_of(c)].0);
            crate::bits::lemma_trailing_zeros_bit(self.bitboards@[PieceType::King.index_of(c)].0);
        }
        let occ = self.all_occupancies;
        let queens = self.bb(o, PieceType::Queen).0;
        let x = (pawn_attacks(k, c) & self.bb(o, PieceType::Pawn).0) | (knight_attacks(k) & self.bb(
            o,
            PieceType::Knight,
        ).0) | (d12_attacks(k, occ) & (self.bb(o, PieceType::Bishop).0 | queens)) | (hv_attacks(
            k,
            occ,
        ) & (self.bb(o, PieceType::Rook).0 | queens));
        proof {
            lemma_zero_iff_no_bits(x);
            assert forall|t: int| 0 <= t < 64 implies #[trigger] bit(x, t) == (enemy(*self, t)
                && checks(*self, k as int, t, (self.piece_on(t)->0).1)) by {
                self.lemma_occupancy(t);
            }
            assert(k as int == king_square(*self));
            if x != 0 {
                let t = choose|t: int| 0 <= t < 64 && #[trigger] bit(x, t);
                assert(enemy(*self, t) && checks(*self, k as int, t, (self.piece_on(t)->0).1));
            } else if in_check(*self) {
                let t = choose|t: int|
                    0 <= t < 64 && enemy(*self, t) && #[trigger] checks(
                        *self,
                        king_square(*self),
                        t,
                        (self.piece_on(t)->0).1,
                    );
                assert(bit(x, t));
            }
        }
        x != 0
    }

    /// King moves to squares no enemy piece attacks, and castling. It adds nothing
    /// else: every move it adds starts on the king's square and is a move that
    /// `generated_move` allows, so a king step or a castle.
    fn generate_king_moves(&self, move_list: &mut MoveList, gen_castling: bool)
        requires
            self.wf(),
            has_king(*self),
            list_sound(*self, old(move_list).entries()),
            no_dups(old(move_list).entries()),
            none_from(old(move_list).entries(), king_square(*self), 2),
        ensures
            list_sound(*self, final(move_list).entries()),
            no_dups(final(move_list).entries()),
            forall|i: int|
                old(move_list).entries().len() <= i < final(move_list).entries().len() ==> #[trigger] entry_from(
                    final(move_list).entries(),
                    i,
                ) == king_square(*self),
            grows(old(move_list).entries(), final(move_list).entries()),
            final(move_list).entries().len() < 256 ==> king_moves_listed(*self, final(move_list).entries()),
            final(move_list).entries().len() < 256 && gen_castling ==> castles_listed(
                *self,
                final(move_list).entries(),
            ),
    {
        let ghost start = move_list.entries();
        let color = self.active_color;
        let a_pawn = self.get_attacked_wo_king(color, PieceType::Pawn);
        let a_knight = self.get_attacked_wo_king(color, PieceType::Knight);
        let a_bishop = self.get_attacked_wo_king(color, PieceType::Bishop);
        let a_rook = self.get_attacked_wo_king(color, PieceType::Rook);
        let a_queen = self.get_attacked_wo_king(color, PieceType::Queen);
        let a_king = self.get_attacked_wo_king(color, PieceType::King);
        let attacked = a_pawn | a_knight | a_bishop | a_rook | a_queen | a_king;
        proof {
            assert forall|t: int| #[trigger] bit(attacked, t) implies !safe_square(*self, t) by {
                let o = color.other();
                let w = occ_without_king(*self, color);
                if bit(a_pawn, t) {
                    let x = choose|x: int| 0 <= x < 64 && #[trigger] self.holds(x, o, PieceType::Pawn)
                        && piece_attack(x, o, PieceType::Pawn, w, t);
                } else if bit(a_knight, t) {
                    let x = choose|x: int| 0 <= x < 64 && #[trigger] self.holds(x, o, PieceType::Knight)
                        && piece_attack(x, o, PieceType::Knight, w, t);
                } else if bit(a_bishop, t) {
                    let x = choose|x: int| 0 <= x < 64 && #[trigger] self.holds(x, o, PieceType::Bishop)
                        && piece_attack(x, o, PieceType::Bishop, w, t);
                } else if bit(a_rook, t) {
                    let x = choose|x: int| 0 <= x < 64 && #[trigger] self.holds(x, o, PieceType::Rook)
                        && piece_attack(x, o, PieceType::Rook, w, t);
                } else if bit(a_queen, t) {
                    let x = choose|x: int| 0 <= x < 64 && #[trigger] self.holds(x, o, PieceType::Queen)
                        && piece_attack(x, o, PieceType::Queen, w, t);
                } else {
                    assert(bit(a_king, t));
                    let x = choose|x: int| 0 <= x < 64 && #[trigger] self.holds(x, o, PieceType::King)
                        && piece_attack(x, o, PieceType::King, w, t);
                }
            }
        }
        let king_pos = self.king_position(color);
        let own_occ = self.color_bb(color).0;
        let legal = king_attacks(king_pos) & !attacked & !own_occ;
        proof {
            assert forall|t: int| #[trigger] bit(legal, t) implies !own(*self, t) by {
                if 0 <= t < 64 {
                    self.lemma_occupancy(t);
                }
            }
            self.lemma_occupancy(king_pos as int);
            assert forall|t: int| #[trigger]
                king_target(king_square(*self), t) && !own(*self, t) && safe_square(*self, t)
                    implies bit(legal, t) by {
                if 0 <= t < 64 {
                    self.lemma_occupancy(t);
                }
            }
        }
        self.add_normal_moves(move_list, king_pos, legal);
        let ghost after_king = move_list.entries();
        proof {
            assert forall|i: int| start.len() <= i < after_king.len() implies #[trigger] entry_from(
                after_king,
                i,
            ) == king_square(*self) && entry_flags(after_king, i) < 2 by {
                assert(entry_from(after_king, i) == king_pos as int);
            }
        }

        let king_bb = self.bb(color, PieceType::King).0;
        proof {
            if gen_castling && one_king(*self) && (castle_ready(*self, true) || castle_ready(
                *self,
                false,
            )) {
                assert forall|i: int| 0 <= i < 64 implies !#[trigger] bit(attacked & king_bb, i) by {
                    if bit(king_bb, i) {
                        assert(self.holds(i, color, PieceType::King));
                    }
                }
                lemma_zero_iff_no_bits(attacked & king_bb);
            }
        }
        if !gen_castling || (attacked & king_bb) != 0 {
            return ;
        }
        let occ = self.all_occupancies.0;
        let rooks = self.bb(color, PieceType::Rook);
        let white = color.is_white();
        let (ks_side, qs_side, king_home): (CastlingSide, CastlingSide, u8) = if white {
            (CastlingSide::WhiteKingSide, CastlingSide::WhiteQueenSide, 60)
        } else {
            (CastlingSide::BlackKingSide, CastlingSide::BlackQueenSide, 4)
        };
        if king_pos != king_home {
            return ;
        }
        let (ks_rook, qs_rook): (u8, u8) = if white {
            (63, 56)
        } else {
            (7, 0)
        };
        proof {
            assert(castle_side(color, true) == ks_side);
            assert(castle_side(color, false) == qs_side);
            assert(ks_rook as int == rook_from(color, true));
            assert(qs_rook as int == rook_from(color, false));
            assert(king_home as int == crate::movegen::king_home(color));
            if one_king(*self) {
                lemma_castle_clear(attacked);
                lemma_castle_clear(occ);
                if castle_ready(*self, true) {
                    let rt = rook_to(color, true);
                    let dt = castle_target(color, true);
                    self.lemma_occupancy(rt);
                    self.lemma_occupancy(dt);
                    assert(!bit(attacked, rt));
                    assert(!bit(attacked, dt));
                    assert(!bit(occ, rt));
                    assert(!bit(occ, dt));
                    assert(bit(rooks.0, ks_rook as int));
                    assert((ks_side.attacked_mask_spec() & attacked) == 0);
                    assert((ks_side.open_mask_spec() & occ) == 0);
                }
                if castle_ready(*self, false) {
                    let rt = rook_to(color, false);
                    let dt = castle_target(color, false);
                    let bq = rook_from(color, false) + 1;
                    self.lemma_occupancy(rt);
                    self.lemma_occupancy(dt);
                    self.lemma_occupancy(bq);
                    assert(!bit(attacked, rt));
                    assert(!bit(attacked, dt));
                    assert(!bit(occ, rt));
                    assert(!bit(occ, dt));
                    assert(!bit(occ, bq));
                    assert(bit(rooks.0, qs_rook as int));
                    assert((qs_side.attacked_mask_spec() & attacked) == 0);
                    assert((qs_side.open_mask_spec() & occ) == 0);
                }
            }
        }
        if self.castling_ability.is_side_available(ks_side) && rooks.get_bit(ks_rook) {
            let none_attacked = (ks_side.attacked_mask() & attacked) == 0;
            let between_open = (ks_side.open_mask() & occ) == 0;
            if none_attacked && between_open {
                let dst: u8 = if white {
                    62
                } else {
                    6
                };
                let m = Move::new(king_home, dst, MoveType::CastleKingSide);
                proof {
                    let rt = rook_to(color, true);
                    self.lemma_occupancy(rt);
                    self.lemma_occupancy(dst as int);
                    self.lemma_occupancy(king_home as int);
                    lemma_castle_masks();
                    let om = ks_side.open_mask_spec();
                    let am = ks_side.attacked_mask_spec();
                    assert(bit(om, rt) && bit(om, dst as int));
                    assert(bit(am, rt) && bit(am, dst as int));
                    assert(!bit(om & occ, rt));
                    assert(!bit(om & occ, dst as int));
                    assert(!bit(am & attacked, rt));
                    assert(!bit(am & attacked, dst as int));
                    assert(!bit(attacked & king_bb, king_home as int));
                    assert(!bit(attacked, king_home as int));
                    assert(!bit(attacked, rt));
                    assert(!bit(attacked, dst as int));
                    assert(rt == (king_home + dst) / 2);
                    assert(is_ks(m));
                    assert(castle_side(color, true) == ks_side);
                }
                let ghost b0 = move_list.entries();
                proof {
                    assert forall|i: int| 0 <= i < b0.len() implies b0[i].0 != m.data by {
                        if i < start.len() {
                            assert(start[i] == b0[i]);
                            assert(entry_from(start, i) != king_square(*self));
                        } else {
                            assert(b0 == after_king);
                            assert(entry_from(after_king, i) == king_square(*self));
                            assert(entry_flags(b0, i) < 2);
                        }
                    }
                }
                push_sound(move_list, Ghost(*self), m);
                proof {
                    lemma_push_no_dups(b0, move_list.entries(), m.data);
                    let e = move_list.entries();
                    assert forall|i: int| start.len() <= i < e.len() implies #[trigger] entry_from(e, i)
                        == king_square(*self) && (entry_flags(e, i) < 2 || entry_flags(e, i) == 8) by {
                        if i < b0.len() {
                            assert(e[i] == b0[i]);
                            assert(entry_from(after_king, i) == king_square(*self));
                        } else {
                            assert(e[i] == (m.data, 0i16));
                        }
                    }
                }
            }
        }
        let ghost after_ks = move_list.entries();
        proof {
            assert forall|i: int| start.len() <= i < after_ks.len() implies #[trigger] entry_from(
                after_ks,
                i,
            ) == king_square(*self) && (entry_flags(after_ks, i) < 2 || entry_flags(after_ks, i) == 8)
                by {
                if after_ks == after_king {
                    assert(entry_from(after_king, i) == king_square(*self));
                }
            }
        }
        proof {
            lemma_grows_trans(start, after_king, after_ks);
        }
        if self.castling_ability.is_side_available(qs_side) && rooks.get_bit(qs_rook) {
            let none_attacked = (qs_side.attacked_mask() & attacked) == 0;
            let between_open = (qs_side.open_mask() & occ) == 0;
            if none_attacked && between_open {
                let dst: u8 = if white {
                    58
                } else {
                    2
                };
                let m = Move::new(king_home, dst, MoveType::CastleQueenSide);
                proof {
                    let rt = rook_to(color, false);
                    self.lemma_occupancy(rt);
                    self.lemma_occupancy(dst as int);
                    self.lemma_occupancy(king_home as int);
                    lemma_castle_masks();
                    let om = qs_side.open_mask_spec();
                    let am = qs_side.attacked_mask_spec();
                    assert(bit(om, rt) && bit(om, dst as int));
                    assert(bit(am, rt) && bit(am, dst as int));
                    assert(!bit(om & occ, rt));
                    assert(!bit(om & occ, dst as int));
                    assert(!bit(am & attacked, rt));
                    assert(!bit(am & attacked, dst as int));
                    assert(!bit(attacked & king_bb, king_home as int));
                    assert(!bit(attacked, king_home as int));
                    assert(!bit(attacked, rt));
                    assert(!bit(attacked, dst as int));
                    assert(rt == (king_home + dst) / 2);
                    assert(is_qs(m));
                    let bq = rook_from(color, false) + 1;
                    self.lemma_occupancy(bq);
                    assert(bit(om, bq));
                    assert(!bit(om & occ, bq));
                    assert(castle_side(color, false) == qs_side);
                }
                let ghost b0 = move_list.entries();
                proof {
                    assert forall|i: int| 0 <= i < b0.len() implies b0[i].0 != m.data by {
                        if i < start.len() {
                            assert(start[i] == b0[i]);
                            assert(entry_from(start, i) != king_square(*self));
                        } else {
                            assert(b0 == after_ks);
                            assert(entry_from(after_ks, i) == king_square(*self));
                        }
                    }
                }
                push_sound(move_list, Ghost(*self), m);
                proof {
                    lemma_push_no_dups(b0, move_list.entries(), m.data);
                    let e = move_list.entries();
                    assert forall|i: int| start.len() <= i < e.len() implies #[trigger] entry_from(e, i)
                        == king_square(*self) by {
                        if i < b0.len() {
                            assert(e[i] == b0[i]);
                            assert(entry_from(after_ks, i) == king_square(*self));
                        } else {
                            assert(e[i] == (m.data, 0i16));
                        }
                    }
                }
            }
        }
        proof {
            let e = move_list.entries();
            lemma_grows_trans(start, after_ks, e);
            lemma_grows_trans(after_king, after_ks, e);
            assert forall|t: int| #[trigger]
                king_target(king_square(*self), t) && !own(*self, t) && safe_square(*self, t)
                    && e.len() < 256 implies listed_as(e, king_square(*self), t, capture_flag(*self, t)) by {
                lemma_carry(after_king, e, king_square(*self), t, capture_flag(*self, t));
            }
            if one_king(*self) && castle_ready(*self, true) {
                lemma_carry(
                    after_ks,
                    e,
                    crate::movegen::king_home(color),
                    castle_target(color, true),
                    8,
                );
            }
        }
    }

    /// Generates the legal moves of the position. Every move in the list fits the
    /// board, so that `make_move` can play it, and goes the way its piece moves; a
    /// king never steps onto an attacked square, nor castles out of, through or
    /// into check; any other piece answers every check and keeps every pin.
    /// `legality::lemma_generated_moves_legal` draws from this that every move of
    /// the list leaves the king of the side that moves unattacked. No move is
    /// listed twice, so the list has room left whenever fewer than 256 moves are
    /// generated. The other way round, when the list has room left, the side to
    /// move has one king and the en passant square is a single square, every move
    /// that `generated_move` allows is in the list.
    pub fn generate_moves(&self) -> (r: MoveList)
        requires
            self.wf(),
            has_king(*self),
        ensures
            list_sound(*self, r.entries()),
            no_dups(r.entries()),
            fits_move_list(*self) ==> r.entries().len() < 256,
            r.entries().len() < 256 && one_king(*self) && ep_single(*self) ==> forall|m: Move|
                #[trigger] generated_move(*self, m) ==> listed(r.entries(), m),
    {
        let mut move_list = MoveList::new();
        let color = self.active_color;
        let check_mask = self.generate_check_mask(color);

        // If in double check, only the king can move
        let in_check = check_mask != 0xffff_ffff_ffff_ffffu64;
        let enemies = self.color_bb(color.opposite()).0;
        let checkers = Bitboard(check_mask & enemies).count_bits();
        if in_check && checkers > 1 {
            self.generate_king_moves(&mut move_list, false);
            proof {
                let e = move_list.entries();
                lemma_king_on_square(*self);
                assert(crate::movegen::in_check(*self));
                let t0 = choose|t: int|
                    0 <= t < 64 && enemy(*self, t) && #[trigger] checks(
                        *self,
                        king_square(*self),
                        t,
                        (self.piece_on(t)->0).1,
                    );
                assert(checker(*self, t0));
                lemma_checker_unsafe(*self, t0);
                if e.len() < 256 && one_king(*self) && ep_single(*self) {
                    assert(castles_listed(*self, e));
                    assert forall|m: Move| #[trigger]
                        generated_move(*self, m) && m.flags() != 9 && m.flags() != 13 implies listed(
                        e,
                        m,
                    ) by {
                        if moving_piece(*self, m) == PieceType::King {
                            lemma_listed_king(*self, m, e);
                            lemma_listed_data(e, m);
                        } else {
                            assert forall|i: int| #[trigger] bit(check_mask & enemies, i) implies i == t0 by {
                                self.lemma_occupancy(i);
                                assert(on_some_check_line(*self, i));
                                let tc = choose|tc: int| #[trigger] checker(*self, tc) && check_line(*self, tc, i);
                                lemma_check_line_occupied(*self, tc, i);
                                assert(answers(*self, m, i));
                                assert(answers(*self, m, t0));
                                lemma_no_double_answer(*self, m, i, t0);
                            }
                            crate::bits::lemma_popcount_le_one(check_mask & enemies, t0);
                        }
                    }
                }
                if fits_move_list(*self) {
                    lemma_list_fits(*self, e);
                }
            }
            return move_list;
        }
        proof {
            // With at most one checking piece, the check mask is the line of its check
            assert forall|x: int| #[trigger] bit(check_mask, x) implies on_all_check_lines(*self, x) by {
                if crate::movegen::in_check(*self) {
                    assert(in_check);
                    assert(on_some_check_line(*self, x));
                    let t0 = choose|t: int| #[trigger] checker(*self, t) && check_line(*self, t, x);
                    assert forall|t: int| #[trigger] checker(*self, t) implies check_line(*self, t, x) by {
                        self.lemma_occupancy(t);
                        self.lemma_occupancy(t0);
                        assert(bit(check_mask & enemies, t));
                        assert(bit(check_mask & enemies, t0));
                        crate::bits::lemma_popcount_single(check_mask & enemies, t, t0);
                    }
                } else {
                    assert forall|t: int| #[trigger] checker(*self, t) implies check_line(*self, t, x) by {
                        assert(0 <= t < 64 && enemy(*self, t) && checks(
                            *self,
                            king_square(*self),
                            t,
                            (self.piece_on(t)->0).1,
                        ));
                    }
                }
            }
        }

        // Generate the pin masks
        let hv_pin = self.generate_hv_pin_mask(color);
        let d12_pin = self.generate_d12_pin_mask(color);
        let own_occ = self.color_bb(color).0;
        let opp_or_empty = !own_occ;
        proof {
            assert forall|t: int| #[trigger] bit(opp_or_empty, t) implies !own(*self, t) by {
                if 0 <= t < 64 {
                    self.lemma_occupancy(t);
                }
            }
        }
        let allowed = opp_or_empty & check_mask;

        // Pawn moves
        let ghost e0 = move_list.entries();
        self.generate_pawn_moves(&mut move_list, check_mask, hv_pin, d12_pin);
        let ghost e1 = move_list.entries();

        let unpinned = !(hv_pin | d12_pin);
        proof {
            assert forall|x: int, s: int| #[trigger] bit(unpinned, x) implies !#[trigger] pins(
                *self,
                s,
                x,
            ) by {
                lemma_unpinned(*self, x);
            }
        }

        // Knight moves. Only unpinned knights can move
        let knights = self.bb(color, PieceType::Knight).0 & unpinned;
        let rooks = self.bb(color, PieceType::Rook).0;
        let bishops = self.bb(color, PieceType::Bishop).0;
        let queens = self.bb(color, PieceType::Queen).0;
        let ghost pawn_bb = self.bitboards@[PieceType::Pawn.index_of(color)].0;
        let ghost d1 = 0u64 | pawn_bb;
        let ghost d2 = d1 | knights;
        let ghost d3 = d2 | (rooks & hv_pin);
        let ghost d4 = d3 | (rooks & unpinned);
        let ghost d5 = d4 | (bishops & d12_pin);
        let ghost d6 = d5 | (bishops & unpinned);
        let ghost d7 = d6 | (queens & hv_pin);
        let ghost d8 = d7 | (queens & d12_pin);
        proof {
            lemma_froms_grow(e0, e1, 0u64, pawn_bb);
            lemma_groups_apart(*self, knights, rooks, bishops, queens, hv_pin, d12_pin, unpinned);
            lemma_froms_fresh(e1, d1, knights);
        }
        self.add_piece_moves(&mut move_list, knights, allowed, PieceType::Knight, false, false, Ghost(None));
        let ghost e2 = move_list.entries();

        // Rook moves
        proof {
            lemma_froms_grow(e1, e2, d1, knights);
            lemma_froms_fresh(e2, d2, rooks & hv_pin);
        }
        self.add_piece_moves(&mut move_list, rooks & hv_pin, allowed & hv_pin, PieceType::Rook, true, false, Ghost(Some(true)));
        let ghost e3 = move_list.entries();
        proof {
            lemma_froms_grow(e2, e3, d2, rooks & hv_pin);
            lemma_froms_fresh(e3, d3, rooks & unpinned);
        }
        self.add_piece_moves(&mut move_list, rooks & unpinned, allowed, PieceType::Rook, true, false, Ghost(None));
        let ghost e4 = move_list.entries();

        // Bishop moves
        proof {
            lemma_froms_grow(e3, e4, d3, rooks & unpinned);
            lemma_froms_fresh(e4, d4, bishops & d12_pin);
        }
        self.add_piece_moves(&mut move_list, bishops & d12_pin, allowed & d12_pin, PieceType::Bishop, false, true, Ghost(Some(false)));
        let ghost e5 = move_list.entries();
        proof {
            lemma_froms_grow(e4, e5, d4, bishops & d12_pin);
            lemma_froms_fresh(e5, d5, bishops & unpinned);
        }
        self.add_piece_moves(&mut move_list, bishops & unpinned, allowed, PieceType::Bishop, false, true, Ghost(None));
        let ghost e6 = move_list.entries();

        // Queen moves
        proof {
            lemma_froms_grow(e5, e6, d5, bishops & unpinned);
            lemma_froms_fresh(e6, d6, queens & hv_pin);
        }
        self.add_piece_moves(&mut move_list, queens & hv_pin, allowed & hv_pin, PieceType::Queen, true, false, Ghost(Some(true)));
        let ghost e7 = move_list.entries();
        proof {
            lemma_froms_grow(e6, e7, d6, queens & hv_pin);
            lemma_froms_fresh(e7, d7, queens & d12_pin);
        }
        self.add_piece_moves(&mut move_list, queens & d12_pin, allowed & d12_pin, PieceType::Queen, false, true, Ghost(Some(false)));
        let ghost e8 = move_list.entries();
        proof {
            lemma_froms_grow(e7, e8, d7, queens & d12_pin);
            lemma_froms_fresh(e8, d8, queens & unpinned);
        }
        self.add_piece_moves(&mut move_list, queens & unpinned, allowed, PieceType::Queen, true, true, Ghost(None));
        let ghost e9 = move_list.entries();

        // King moves
        proof {
            lemma_froms_grow(e8, e9, d8, queens & unpinned);
            assert(none_from(e9, king_square(*self), 2)) by {
                lemma_king_on_square(*self);
                let k = king_square(*self);
                assert(!bit(d8 | (queens & unpinned), k));
            }
        }
        self.generate_king_moves(&mut move_list, true);
        proof {
            let ef = move_list.entries();
            let c = color;
            lemma_grows_trans(e8, e9, ef);
            lemma_grows_trans(e7, e8, ef);
            lemma_grows_trans(e6, e7, ef);
            lemma_grows_trans(e5, e6, ef);
            lemma_grows_trans(e4, e5, ef);
            lemma_grows_trans(e3, e4, ef);
            lemma_grows_trans(e2, e3, ef);
            lemma_grows_trans(e1, e2, ef);
            if ef.len() < 256 && one_king(*self) && ep_single(*self) {
                assert(masks_ok(*self, check_mask, hv_pin, d12_pin));
                assert forall|x: int|
                    0 <= x < 64 && #[trigger] self.holds(x, c, PieceType::Pawn) implies pawn_moves_listed(
                    *self,
                    x,
                    check_mask,
                    hv_pin,
                    d12_pin,
                    ef,
                ) by {
                    lemma_pawn_moves_carry(*self, x, check_mask, hv_pin, d12_pin, e1, ef);
                }
                lemma_piece_carry(*self, knights, allowed, false, false, e2, ef);
                lemma_piece_carry(*self, rooks & hv_pin, allowed & hv_pin, true, false, e3, ef);
                lemma_piece_carry(*self, rooks & unpinned, allowed, true, false, e4, ef);
                lemma_piece_carry(*self, bishops & d12_pin, allowed & d12_pin, false, true, e5, ef);
                lemma_piece_carry(*self, bishops & unpinned, allowed, false, true, e6, ef);
                lemma_piece_carry(*self, queens & hv_pin, allowed & hv_pin, true, false, e7, ef);
                lemma_piece_carry(*self, queens & d12_pin, allowed & d12_pin, false, true, e8, ef);
                lemma_piece_carry(*self, queens & unpinned, allowed, true, true, e9, ef);
                assert(all_listed(*self, ef, check_mask, hv_pin, d12_pin));
                assert forall|m: Move| #[trigger]
                    generated_move(*self, m) && m.flags() != 9 && m.flags() != 13 implies listed(ef, m) by {
                    lemma_all_listed(*self, m, ef, check_mask, hv_pin, d12_pin);
                }
            }
            if fits_move_list(*self) {
                lemma_list_fits(*self, ef);
            }
        }

        move_list
    }
}

/// `t` is a square a pawn of `color` on `s` attacks.
pub open spec fn pawn_attacks_sq(s: int, t: int, color: Color) -> bool {
    crate::attacks::pawn_target(s, t, color)
}

impl Position {
    /// Plays the generated move whose UCI text is `moove`, such as "e2e4" or "e7e8q".
    /// Leaves the position as it was, and fails, when no generated move has that text.
    /// When one has it, the move is played: provided that fewer than 256 moves are
    /// generated, the side to move has one king and the en passant square is a
    /// single square (as in every position reached by play).
    pub fn make_uci_move(&mut self, moove: &str) -> (r: Result<(), String>)
        requires
            old(self).wf(),
            has_king(*old(self)),
            old(self).half_moves < 255,
            old(self).full_moves < 65535,
            old(self).rep_table.length() < 100,
        ensures
            r is Ok ==> exists|m: Move|
                #![trigger made(*old(self), m, *final(self))]
                uci_bytes(m) == moove.spec_bytes() && generated_move(*old(self), m) && made(
                    *old(self),
                    m,
                    *final(self),
                ),
            r is Err ==> *final(self) == *old(self),
            r is Err ==> r->Err_0@ == "Illegal move: "@ + moove@,
            fits_move_list(*old(self)) && one_king(*old(self)) && ep_single(*old(self)) && (exists|m: Move|
                #[trigger] generated_move(*old(self), m) && uci_bytes(m) == moove.spec_bytes()) ==> r is Ok,
    {
        let text = moove.as_bytes();
        let list = self.generate_moves();
        let n = list.len();
        let mut i: usize = 0;
        while i < n
            invariant
                n == list.entries().len(),
                i <= n,
                list_sound(*self, list.entries()),
                *self == *old(self),
                self.half_moves < 255,
                self.full_moves < 65535,
                self.rep_table.length() < 100,
                text@ == moove.spec_bytes(),
                forall|j: int| 0 <= j < i ==> uci_bytes(Move { data: #[trigger] list.entries()[j].0 }) != text@,
            decreases n - i,
        {
            let m = Move { data: list.get(i).0 };
            let u = m.uci_bytes();
            if bytes_equal(u.as_slice(), text) {
                assert(generated_move(*self, m));
                assert(counters_ok(*self, m));
                self.make_move(m);
                return Ok(());
            }
            i = i + 1;
        }
        proof {
            if fits_move_list(*self) && one_king(*self) && ep_single(*self) {
                if exists|m: Move| #[trigger] generated_move(*self, m) && uci_bytes(m) == moove.spec_bytes() {
                    let m = choose|m: Move| #[trigger] generated_move(*self, m) && uci_bytes(m) == moove.spec_bytes();
                    assert(listed(list.entries(), m));
                    let j = choose|j: int| 0 <= j < list.entries().len() && (#[trigger] list.entries()[j]).0 == m.data;
                    assert(Move { data: list.entries()[j].0 } == m);
                }
            }
        }
        Err("Illegal move: ".to_string().concat(moove))
    }
}

} // verus!
