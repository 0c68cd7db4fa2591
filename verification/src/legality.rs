use vstd::prelude::*;

verus! {

use crate::attacks::{
    piece_attack, pawn_target, knight_target, king_target, hv_attack, d12_attack, ray_attack,
    ray_clear, ray_sq, ray_dist, on_ray, is_dir,
};
use crate::bits::{bit, row, col, group_bit_lemmas};
use crate::color::Color;
use crate::lines::{segment, dir_r, dir_c};
use crate::make_move::{
    made, move_sound, moving_piece, is_ep, is_ks, is_qs, is_promo, board_after, rook_from, rook_to,
    behind,
};
use crate::movegen::{
    has_king, king_square, move_shape, evades, keeps_pins, checker, check_line, answers, pins,
    pin_kept, hv_slider, d12_slider, safe_square, occ_without_king, checks, enemy, own,
    lemma_ray_direction, lemma_king_on_square, king_home, castle_target, occ_without,
    uncovers_nothing,
};
use crate::lines::{pin_segment, blockers, lemma_blockers_one};
use crate::moves::Move;
use crate::piece::PieceType;
use crate::position::Position;

broadcast use group_bit_lemmas;

/// The piece on `t` of board `q` attacks the square `sq`.
pub open spec fn attacks_from(q: Position, t: int, sq: int) -> bool {
    q.piece_on(t) is Some && piece_attack(
        t,
        (q.piece_on(t)->0).0,
        (q.piece_on(t)->0).1,
        q.all_occupancies.0,
        sq,
    )
}

/// On board `q` a piece of the side other than `c` attacks the square `sq`.
pub open spec fn attacked_by_enemy(q: Position, c: Color, sq: int) -> bool {
    exists|t: int|
        0 <= t < 64 && #[trigger] attacks_from(q, t, sq) && (q.piece_on(t)->0).0 == c.other()
}

/// The kings of the two sides do not stand next to each other.
pub open spec fn kings_apart(pos: Position) -> bool {
    forall|t: int|
        #![trigger pos.holds(t, pos.active_color.other(), PieceType::King)]
        pos.holds(t, pos.active_color.other(), PieceType::King) ==> !king_target(king_square(pos), t)
}

/// Where the king of the side to move stands after the move.
pub open spec fn king_after(pos: Position, m: Move) -> int {
    if moving_piece(pos, m) == PieceType::King {
        m.to_sq() as int
    } else {
        king_square(pos)
    }
}

/// A slider ray read backwards is a ray too.
pub proof fn lemma_ray_reverse(a: int, b: int, occ: u64, dr: int, dc: int)
    requires
        0 <= a < 64,
        is_dir(dr, dc),
        ray_attack(a, occ, dr, dc, b),
    ensures
        ray_attack(b, occ, -dr, -dc, a),
{
    let n = ray_dist(a, b, dr, dc);
    assert(ray_dist(b, a, -dr, -dc) == n);
    assert forall|j: int| 1 <= j < n implies !#[trigger] bit(occ, ray_sq(b, -dr, -dc, j)) by {
        assert(ray_sq(b, -dr, -dc, j) == ray_sq(a, dr, dc, n - j));
    }
}

/// The facts of a plain move (no castling, no en passant): the board after it is
/// the board before, but for the two squares of the move.
proof fn lemma_plain_move(pos: Position, m: Move, next: Position)
    requires
        pos.wf(),
        has_king(pos),
        move_sound(pos, m),
        !is_ep(m),
        !is_ks(m),
        !is_qs(m),
        made(pos, m, next),
    ensures
        0 <= m.from_sq() < 64,
        0 <= m.to_sq() < 64,
        next.piece_on(m.from_sq() as int) is None,
        next.piece_on(m.to_sq() as int) is Some,
        (next.piece_on(m.to_sq() as int)->0).0 == pos.active_color,
        forall|t: int|
            0 <= t < 64 && t != m.from_sq() && t != m.to_sq() ==> #[trigger] next.piece_on(t)
                == pos.piece_on(t),
        forall|t: int| 0 <= t < 64 ==> #[trigger] bit(next.all_occupancies.0, t) == (next.piece_on(t) is Some),
        forall|t: int| 0 <= t < 64 ==> #[trigger] bit(pos.all_occupancies.0, t) == (pos.piece_on(t) is Some),
        own(pos, m.from_sq() as int),
{
    crate::moves::lemma_decode_encode(m.data);
    assert(next.piece_on(m.from_sq() as int) == board_after(pos, m, m.from_sq() as int));
    assert(next.piece_on(m.to_sq() as int) == board_after(pos, m, m.to_sq() as int));
    assert forall|t: int|
        0 <= t < 64 && t != m.from_sq() && t != m.to_sq() implies #[trigger] next.piece_on(t)
            == pos.piece_on(t) by {
        assert(next.piece_on(t) == board_after(pos, m, t));
    }
    assert forall|t: int| 0 <= t < 64 implies #[trigger] bit(next.all_occupancies.0, t) == (
    next.piece_on(t) is Some) by {
        next.lemma_occupancy(t);
    }
    assert forall|t: int| 0 <= t < 64 implies #[trigger] bit(pos.all_occupancies.0, t) == (
    pos.piece_on(t) is Some) by {
        pos.lemma_occupancy(t);
    }
}

/// After a plain move of a piece other than the king, no enemy slider reaches the
/// king along a line.
#[verifier::rlimit(60)]
proof fn lemma_no_slider_check(pos: Position, m: Move, next: Position, t: int, dr: int, dc: int)
    requires
        pos.wf(),
        has_king(pos),
        move_sound(pos, m),
        evades(pos, m),
        keeps_pins(pos, m),
        !is_ep(m),
        !is_ks(m),
        !is_qs(m),
        made(pos, m, next),
        moving_piece(pos, m) != PieceType::King,
        0 <= t < 64,
        t != m.from_sq(),
        t != m.to_sq(),
        pos.piece_on(t) is Some,
        (pos.piece_on(t)->0).0 == pos.active_color.other(),
        is_dir(dr, dc),
        (dr == 0 || dc == 0) ==> ((pos.piece_on(t)->0).1 == PieceType::Rook
            || (pos.piece_on(t)->0).1 == PieceType::Queen),
        (dr != 0 && dc != 0) ==> ((pos.piece_on(t)->0).1 == PieceType::Bishop
            || (pos.piece_on(t)->0).1 == PieceType::Queen),
    ensures
        !ray_attack(king_square(pos), next.all_occupancies.0, dr, dc, t),
{
    if ray_attack(king_square(pos), next.all_occupancies.0, dr, dc, t) {
        let k = king_square(pos);
        let x = m.from_sq() as int;
        let y = m.to_sq() as int;
        let occ = pos.all_occupancies.0;
        let nocc = next.all_occupancies.0;
        let p = (pos.piece_on(t)->0).1;
        lemma_plain_move(pos, m, next);
        lemma_king_on_square(pos);
        lemma_ray_direction(k, t, dr, dc);
        let n = ray_dist(k, t, dr, dc);
        assert(enemy(pos, t));
        // The destination is not strictly between the king and t
        assert(!(segment(k, t, y) && y != t)) by {
            if segment(k, t, y) && y != t {
                let j = ray_dist(k, y, dr, dc);
                assert(y == ray_sq(k, dr, dc, j));
                assert(1 <= j < n);
                assert(!bit(nocc, ray_sq(k, dr, dc, j)));
            }
        }
        if forall|j: int| 1 <= j < n ==> !#[trigger] bit(occ, ray_sq(k, dr, dc, j)) {
            // The line was open before: t gave check, and the move does not answer it
            assert(ray_attack(k, occ, dr, dc, t));
            if dr == 0 || dc == 0 {
                assert(hv_attack(k, occ, t));
            } else {
                assert(d12_attack(k, occ, t));
            }
            assert(checks(pos, k, t, p));
            assert(checker(pos, t));
            assert(answers(pos, m, t));
        } else {
            // The moving piece was the only one between: it was pinned
            let j0 = choose|j: int| 1 <= j < n && #[trigger] bit(occ, ray_sq(k, dr, dc, j));
            let z = ray_sq(k, dr, dc, j0);
            assert(bit(occ, z));
            assert(!bit(nocc, z));
            assert(0 <= z < 64);
            assert(z == x);
            assert(segment(k, t, x));
            assert forall|w: int| #[trigger] segment(k, t, w) && w != t && w != x implies pos.piece_on(
                w,
            ) is None by {
                let j = ray_dist(k, w, dr, dc);
                assert(w == ray_sq(k, dr, dc, j));
                assert(1 <= j < n);
                assert(!bit(nocc, ray_sq(k, dr, dc, j)));
                assert(w != y);
            }
            if dr == 0 || dc == 0 {
                assert(hv_slider(pos, t));
            } else {
                assert(d12_slider(pos, t));
            }
            assert(pins(pos, t, x));
            assert(pin_kept(pos, x, y));
            assert(segment(k, t, y));
        }

        assert(false);
    }
}

/// After a plain king move, no enemy piece reaches the king's new square: the
/// square was safe with the king taken off the board, and the board after the
/// move differs from that one only on the king's new square.
#[verifier::rlimit(40)]
proof fn lemma_king_move_unattacked(pos: Position, m: Move, next: Position, t: int)
    requires
        pos.wf(),
        has_king(pos),
        move_sound(pos, m),
        move_shape(pos, m),
        !is_ep(m),
        !is_ks(m),
        !is_qs(m),
        made(pos, m, next),
        moving_piece(pos, m) == PieceType::King,
        0 <= t < 64,
        t != m.from_sq(),
        t != m.to_sq(),
        pos.piece_on(t) is Some,
        (pos.piece_on(t)->0).0 == pos.active_color.other(),
    ensures
        !piece_attack(
            t,
            pos.active_color.other(),
            (pos.piece_on(t)->0).1,
            next.all_occupancies.0,
            m.to_sq() as int,
        ),
{
    let c = pos.active_color;
    let o = c.other();
    let x = m.from_sq() as int;
    let y = m.to_sq() as int;
    let p = (pos.piece_on(t)->0).1;
    let nocc = next.all_occupancies.0;
    let wk = occ_without_king(pos, c);
    let ki = PieceType::King.index_of(c);
    lemma_plain_move(pos, m, next);
    assert(safe_square(pos, y));
    assert(pos.holds(t, o, p));
    assert(!piece_attack(t, o, p, wk, y));
    // squares empty after the move are empty on the board without the king
    assert forall|z: int| 0 <= z < 64 && z != y && !bit(nocc, z) implies !#[trigger] bit(wk, z) by {
        pos.lemma_bitboards(z, ki);
        pos.lemma_occupancy(z);
        if z != x {
            assert(next.piece_on(z) == pos.piece_on(z));
        }
    }
    if piece_attack(t, o, p, nocc, y) {
        if p == PieceType::Bishop || p == PieceType::Rook || p == PieceType::Queen {
            let (dr, dc): (int, int) = if ray_attack(t, nocc, -1, 0, y) {
                (-1, 0)
            } else if ray_attack(t, nocc, 1, 0, y) {
                (1, 0)
            } else if ray_attack(t, nocc, 0, -1, y) {
                (0, -1)
            } else if ray_attack(t, nocc, 0, 1, y) {
                (0, 1)
            } else if ray_attack(t, nocc, -1, -1, y) {
                (-1, -1)
            } else if ray_attack(t, nocc, -1, 1, y) {
                (-1, 1)
            } else if ray_attack(t, nocc, 1, -1, y) {
                (1, -1)
            } else {
                (1, 1)
            };
            let n = ray_dist(t, y, dr, dc);
            assert forall|j: int| 1 <= j < n implies !#[trigger] bit(wk, ray_sq(t, dr, dc, j)) by {
                let z = ray_sq(t, dr, dc, j);
                assert(!bit(nocc, z));
                assert(z != y);
            }
            assert(ray_attack(t, wk, dr, dc, y));
        }
        assert(piece_attack(t, o, p, wk, y));
    }
}

/// After castling, no enemy piece reaches the king's new square: it was safe with
/// the king taken off the board, and the only square that castling empties besides
/// the king's, the rook's, lies at the edge beyond the king's new square.
#[verifier::rlimit(60)]
proof fn lemma_castle_unattacked(pos: Position, m: Move, next: Position, t: int)
    requires
        pos.wf(),
        has_king(pos),
        move_sound(pos, m),
        move_shape(pos, m),
        is_ks(m) || is_qs(m),
        made(pos, m, next),
        0 <= t < 64,
        next.piece_on(t) is Some,
        (next.piece_on(t)->0).0 == pos.active_color.other(),
    ensures
        !piece_attack(
            t,
            pos.active_color.other(),
            (next.piece_on(t)->0).1,
            next.all_occupancies.0,
            m.to_sq() as int,
        ),
{
    let c = pos.active_color;
    let o = c.other();
    let x = m.from_sq() as int;
    let y = m.to_sq() as int;
    let ks = is_ks(m);
    let rf = rook_from(c, ks);
    let rt = rook_to(c, ks);
    let nocc = next.all_occupancies.0;
    let wk = occ_without_king(pos, c);
    let ki = PieceType::King.index_of(c);
    crate::moves::lemma_decode_encode(m.data);
    assert(!is_ep(m));
    assert(y == castle_target(c, ks));
    assert forall|z: int| 0 <= z < 64 implies #[trigger] next.piece_on(z) == board_after(pos, m, z) by {}
    assert(next.piece_on(t) == board_after(pos, m, t));
    assert(t != x && t != y && t != rf && t != rt);
    assert(next.piece_on(t) == pos.piece_on(t));
    let p = (pos.piece_on(t)->0).1;
    assert(safe_square(pos, y));
    assert(pos.holds(t, o, p));
    assert(!piece_attack(t, o, p, wk, y));
    assert forall|z: int|
        0 <= z < 64 && z != y && z != rf && !bit(nocc, z) implies !#[trigger] bit(wk, z) by {
        pos.lemma_bitboards(z, ki);
        pos.lemma_occupancy(z);
        next.lemma_occupancy(z);
        assert(next.piece_on(z) == board_after(pos, m, z));
    }
    if piece_attack(t, o, p, nocc, y) {
        if p == PieceType::Bishop || p == PieceType::Rook || p == PieceType::Queen {
            let (dr, dc): (int, int) = if ray_attack(t, nocc, -1, 0, y) {
                (-1, 0)
            } else if ray_attack(t, nocc, 1, 0, y) {
                (1, 0)
            } else if ray_attack(t, nocc, 0, -1, y) {
                (0, -1)
            } else if ray_attack(t, nocc, 0, 1, y) {
                (0, 1)
            } else if ray_attack(t, nocc, -1, -1, y) {
                (-1, -1)
            } else if ray_attack(t, nocc, -1, 1, y) {
                (-1, 1)
            } else if ray_attack(t, nocc, 1, -1, y) {
                (1, -1)
            } else {
                (1, 1)
            };
            let n = ray_dist(t, y, dr, dc);
            assert forall|j: int| 1 <= j < n implies !#[trigger] bit(wk, ray_sq(t, dr, dc, j)) by {
                let z = ray_sq(t, dr, dc, j);
                assert(!bit(nocc, z));
                assert(z != y);
                assert(z != rf);
            }
            assert(ray_attack(t, wk, dr, dc, y));
        }
        assert(piece_attack(t, o, p, wk, y));
    }
}

/// The facts of an en passant capture: the board after it is the board before, but
/// for the two squares of the move and the square of the pawn taken.
proof fn lemma_ep_move(pos: Position, m: Move, next: Position)
    requires
        pos.wf(),
        has_king(pos),
        move_sound(pos, m),
        is_ep(m),
        made(pos, m, next),
    ensures
        0 <= m.from_sq() < 64,
        0 <= m.to_sq() < 64,
        0 <= behind(pos.active_color, m.to_sq() as int) < 64,
        next.piece_on(m.from_sq() as int) is None,
        next.piece_on(behind(pos.active_color, m.to_sq() as int)) is None,
        next.piece_on(m.to_sq() as int) is Some,
        (next.piece_on(m.to_sq() as int)->0).0 == pos.active_color,
        pos.piece_on(m.to_sq() as int) is None,
        pos.piece_on(behind(pos.active_color, m.to_sq() as int)) is Some,
        forall|t: int|
            0 <= t < 64 && t != m.from_sq() && t != m.to_sq() && t != behind(
                pos.active_color,
                m.to_sq() as int,
            ) ==> #[trigger] next.piece_on(t) == pos.piece_on(t),
        forall|t: int| 0 <= t < 64 ==> #[trigger] bit(next.all_occupancies.0, t) == (next.piece_on(t) is Some),
        forall|t: int| 0 <= t < 64 ==> #[trigger] bit(pos.all_occupancies.0, t) == (pos.piece_on(t) is Some),
        own(pos, m.from_sq() as int),
{
    crate::moves::lemma_decode_encode(m.data);
    let z = behind(pos.active_color, m.to_sq() as int);
    assert(next.piece_on(m.from_sq() as int) == board_after(pos, m, m.from_sq() as int));
    assert(next.piece_on(m.to_sq() as int) == board_after(pos, m, m.to_sq() as int));
    assert(next.piece_on(z) == board_after(pos, m, z));
    assert forall|t: int|
        0 <= t < 64 && t != m.from_sq() && t != m.to_sq() && t != z implies #[trigger] next.piece_on(t)
            == pos.piece_on(t) by {
        assert(next.piece_on(t) == board_after(pos, m, t));
    }
    assert forall|t: int| 0 <= t < 64 implies #[trigger] bit(next.all_occupancies.0, t) == (
    next.piece_on(t) is Some) by {
        next.lemma_occupancy(t);
    }
    assert forall|t: int| 0 <= t < 64 implies #[trigger] bit(pos.all_occupancies.0, t) == (
    pos.piece_on(t) is Some) by {
        pos.lemma_occupancy(t);
    }
}

/// What holds when an enemy slider on `t` is supposed to reach the king along
/// (`dr`, `dc`) after an en passant capture.
spec fn ep_slider_check(pos: Position, m: Move, next: Position, t: int, dr: int, dc: int) -> bool {
    &&& pos.wf()
    &&& has_king(pos)
    &&& move_sound(pos, m)
    &&& is_ep(m)
    &&& made(pos, m, next)
    &&& moving_piece(pos, m) != PieceType::King
    &&& 0 <= t < 64
    &&& t != m.from_sq()
    &&& t != m.to_sq()
    &&& t != behind(pos.active_color, m.to_sq() as int)
    &&& pos.piece_on(t) is Some
    &&& (pos.piece_on(t)->0).0 == pos.active_color.other()
    &&& is_dir(dr, dc)
    &&& (dr == 0 || dc == 0) ==> ((pos.piece_on(t)->0).1 == PieceType::Rook
        || (pos.piece_on(t)->0).1 == PieceType::Queen)
    &&& (dr != 0 && dc != 0) ==> ((pos.piece_on(t)->0).1 == PieceType::Bishop
        || (pos.piece_on(t)->0).1 == PieceType::Queen)
    &&& ray_attack(king_square(pos), next.all_occupancies.0, dr, dc, t)
}

/// The facts shared by the cases below: the squares of the line, and which of them
/// could hold pieces before the capture.
proof fn lemma_ep_line_facts(pos: Position, m: Move, next: Position, t: int, dr: int, dc: int)
    requires
        ep_slider_check(pos, m, next, t, dr, dc),
    ensures
        0 <= m.from_sq() < 64,
        0 <= m.to_sq() < 64,
        0 <= behind(pos.active_color, m.to_sq() as int) < 64,
        0 <= king_square(pos) < 64,
        king_square(pos) != m.from_sq(),
        king_square(pos) != m.to_sq(),
        king_square(pos) != behind(pos.active_color, m.to_sq() as int),
        enemy(pos, t),
        dr == dir_r(king_square(pos), t),
        dc == dir_c(king_square(pos), t),
        !(segment(king_square(pos), t, m.to_sq() as int) && m.to_sq() != t),
        forall|j: int|
            1 <= j < ray_dist(king_square(pos), t, dr, dc) && #[trigger] bit(
                pos.all_occupancies.0,
                ray_sq(king_square(pos), dr, dc, j),
            ) ==> ray_sq(king_square(pos), dr, dc, j) == m.from_sq() || ray_sq(
                king_square(pos),
                dr,
                dc,
                j,
            ) == behind(pos.active_color, m.to_sq() as int),
        forall|t: int| 0 <= t < 64 ==> #[trigger] bit(pos.all_occupancies.0, t) == (pos.piece_on(t) is Some),
        own(pos, m.from_sq() as int),
        pos.piece_on(m.to_sq() as int) is None,
        pos.piece_on(behind(pos.active_color, m.to_sq() as int)) is Some,
{
    let c = pos.active_color;
    let k = king_square(pos);
    let y = m.to_sq() as int;
    let nocc = next.all_occupancies.0;
    let occ = pos.all_occupancies.0;
    lemma_ep_move(pos, m, next);
    lemma_king_on_square(pos);
    lemma_ray_direction(k, t, dr, dc);
    let n = ray_dist(k, t, dr, dc);
    assert(!(segment(k, t, y) && y != t)) by {
        if segment(k, t, y) && y != t {
            let j = ray_dist(k, y, dr, dc);
            assert(y == ray_sq(k, dr, dc, j));
            assert(1 <= j < n);
            assert(!bit(nocc, ray_sq(k, dr, dc, j)));
        }
    }
    assert forall|j: int| 1 <= j < n && #[trigger] bit(occ, ray_sq(k, dr, dc, j)) implies ray_sq(
        k,
        dr,
        dc,
        j,
    ) == m.from_sq() || ray_sq(k, dr, dc, j) == behind(c, y) by {
        let w = ray_sq(k, dr, dc, j);
        assert(!bit(nocc, w));
        assert(w != y);
    }
}

/// With neither pawn between the king and `t`, `t` gave check before the capture,
/// and the capture does not answer it.
#[verifier::rlimit(100)]
#[verifier::spinoff_prover]
proof fn lemma_ep_case_open(pos: Position, m: Move, next: Position, t: int, dr: int, dc: int)
    requires
        ep_slider_check(pos, m, next, t, dr, dc),
        evades(pos, m),
    ensures
        (segment(king_square(pos), t, m.from_sq() as int) && m.from_sq() != t) || (segment(
            king_square(pos),
            t,
            behind(pos.active_color, m.to_sq() as int),
        ) && behind(pos.active_color, m.to_sq() as int) != t),
{
    let k = king_square(pos);
    let x = m.from_sq() as int;
    let z = behind(pos.active_color, m.to_sq() as int);
    let occ = pos.all_occupancies.0;
    let p = (pos.piece_on(t)->0).1;
    lemma_ep_line_facts(pos, m, next, t, dr, dc);
    let n = ray_dist(k, t, dr, dc);
    if !(segment(k, t, x) && x != t) && !(segment(k, t, z) && z != t) {
        assert forall|j: int| 1 <= j < n implies !#[trigger] bit(occ, ray_sq(k, dr, dc, j)) by {
            let w = ray_sq(k, dr, dc, j);
            if bit(occ, w) {
                assert(w == x || w == z);
                assert(on_ray(k, w, dr, dc) && ray_dist(k, w, dr, dc) == j);
            }
        }
        assert(ray_attack(k, occ, dr, dc, t));
        if dr == 0 || dc == 0 {
            assert(hv_attack(k, occ, t));
        } else {
            assert(d12_attack(k, occ, t));
        }
        assert(checks(pos, k, t, p));
        assert(checker(pos, t));
        assert(answers(pos, m, t));
    }
}

/// With only the capturing pawn between the king and `t`, it was pinned, and the
/// capture leaves the line.
#[verifier::rlimit(100)]
#[verifier::spinoff_prover]
proof fn lemma_ep_case_pinned(pos: Position, m: Move, next: Position, t: int, dr: int, dc: int)
    requires
        ep_slider_check(pos, m, next, t, dr, dc),
        keeps_pins(pos, m),
        !(segment(king_square(pos), t, behind(pos.active_color, m.to_sq() as int)) && behind(
            pos.active_color,
            m.to_sq() as int,
        ) != t),
    ensures
        !(segment(king_square(pos), t, m.from_sq() as int) && m.from_sq() != t),
{
    let k = king_square(pos);
    let x = m.from_sq() as int;
    let y = m.to_sq() as int;
    let occ = pos.all_occupancies.0;
    lemma_ep_line_facts(pos, m, next, t, dr, dc);
    let n = ray_dist(k, t, dr, dc);
    if segment(k, t, x) && x != t {
        assert forall|w: int| #[trigger] segment(k, t, w) && w != t && w != x implies pos.piece_on(
            w,
        ) is None by {
            let j = ray_dist(k, w, dr, dc);
            assert(w == ray_sq(k, dr, dc, j));
            assert(1 <= j < n);
            if pos.piece_on(w) is Some {
                assert(bit(occ, ray_sq(k, dr, dc, j)));
            }
        }
        if dr == 0 || dc == 0 {
            assert(hv_slider(pos, t));
        } else {
            assert(d12_slider(pos, t));
        }
        assert(pins(pos, t, x));
        assert(pin_kept(pos, x, y));
        assert(segment(k, t, y));
    }
}

/// With the taken pawn between the king and `t`, it is the only piece there once
/// the capturing pawn has left.
#[verifier::rlimit(100)]
#[verifier::spinoff_prover]
proof fn lemma_ep_taken_alone(pos: Position, m: Move, next: Position, t: int, dr: int, dc: int)
    requires
        ep_slider_check(pos, m, next, t, dr, dc),
        segment(king_square(pos), t, behind(pos.active_color, m.to_sq() as int)),
        behind(pos.active_color, m.to_sq() as int) != t,
    ensures
        pin_segment(
            occ_without(pos, m.from_sq() as int),
            king_square(pos),
            t,
            behind(pos.active_color, m.to_sq() as int),
        ),
{
    let c = pos.active_color;
    let k = king_square(pos);
    let x = m.from_sq() as int;
    let y = m.to_sq() as int;
    let z = behind(c, y);
    let occ = pos.all_occupancies.0;
    let wocc = occ_without(pos, x);
    lemma_ep_line_facts(pos, m, next, t, dr, dc);
    let n = ray_dist(k, t, dr, dc);
    let jz = ray_dist(k, z, dr, dc);
    assert(z == ray_sq(k, dr, dc, jz));
    assert(1 <= jz < n);
    assert forall|j: int| 1 <= j < n && j != jz implies !#[trigger] bit(wocc, ray_sq(k, dr, dc, j)) by {
        let w = ray_sq(k, dr, dc, j);
        assert(on_ray(k, w, dr, dc) && ray_dist(k, w, dr, dc) == j);
        assert(w != z);
        if bit(wocc, w) {
            assert(w != x);
            assert(bit(occ, w));
        }
    }
    assert(bit(wocc, ray_sq(k, dr, dc, jz)));
    lemma_blockers_one(k, wocc, dr, dc, n, jz);
    assert(bit(wocc, t));
}

/// The taken pawn is never between the king and `t` along the king's file: the
/// capturing pawn lands next to it on that file, between the king and `t` too.
#[verifier::rlimit(100)]
#[verifier::spinoff_prover]
proof fn lemma_ep_not_on_file(pos: Position, m: Move, next: Position, t: int, dr: int, dc: int)
    requires
        ep_slider_check(pos, m, next, t, dr, dc),
        segment(king_square(pos), t, behind(pos.active_color, m.to_sq() as int)),
        behind(pos.active_color, m.to_sq() as int) != t,
    ensures
        dc != 0,
{
    let c = pos.active_color;
    let k = king_square(pos);
    let y = m.to_sq() as int;
    let z = behind(c, y);
    lemma_ep_line_facts(pos, m, next, t, dr, dc);
    let n = ray_dist(k, t, dr, dc);
    let jz = ray_dist(k, z, dr, dc);
    assert(z == ray_sq(k, dr, dc, jz));
    assert(1 <= jz < n);
    if dc == 0 {
        assert(col(y) == col(z));
        if (row(y) == row(z) - 1) == (dr < 0) {
            assert(y == ray_sq(k, dr, dc, jz + 1));
            assert(on_ray(k, y, dr, dc));
        } else {
            assert(y == ray_sq(k, dr, dc, jz - 1));
            if jz > 1 {
                assert(on_ray(k, y, dr, dc));
            }
        }
    }
}

/// With the taken pawn between the king and `t`, it was the only piece there once
/// the capturing pawn left, which the capture rules out.
proof fn lemma_ep_case_uncovered(pos: Position, m: Move, next: Position, t: int, dr: int, dc: int)
    requires
        ep_slider_check(pos, m, next, t, dr, dc),
        keeps_pins(pos, m),
    ensures
        !(segment(king_square(pos), t, behind(pos.active_color, m.to_sq() as int)) && behind(
            pos.active_color,
            m.to_sq() as int,
        ) != t),
{
    let k = king_square(pos);
    let x = m.from_sq() as int;
    let z = behind(pos.active_color, m.to_sq() as int);
    if segment(k, t, z) && z != t {
        lemma_ep_line_facts(pos, m, next, t, dr, dc);
        lemma_ep_taken_alone(pos, m, next, t, dr, dc);
        lemma_ep_not_on_file(pos, m, next, t, dr, dc);
        assert(uncovers_nothing(pos, x, z));
        if dr == 0 {
            assert(hv_slider(pos, t));
        } else {
            assert(d12_slider(pos, t));
        }
        assert(pin_segment(occ_without(pos, x), k, t, z));
    }
}

/// After an en passant capture, no enemy slider reaches the king along a line.
proof fn lemma_ep_no_slider_check(pos: Position, m: Move, next: Position, t: int, dr: int, dc: int)
    requires
        pos.wf(),
        has_king(pos),
        move_sound(pos, m),
        evades(pos, m),
        keeps_pins(pos, m),
        is_ep(m),
        made(pos, m, next),
        moving_piece(pos, m) != PieceType::King,
        0 <= t < 64,
        t != m.from_sq(),
        t != m.to_sq(),
        t != behind(pos.active_color, m.to_sq() as int),
        pos.piece_on(t) is Some,
        (pos.piece_on(t)->0).0 == pos.active_color.other(),
        is_dir(dr, dc),
        (dr == 0 || dc == 0) ==> ((pos.piece_on(t)->0).1 == PieceType::Rook
            || (pos.piece_on(t)->0).1 == PieceType::Queen),
        (dr != 0 && dc != 0) ==> ((pos.piece_on(t)->0).1 == PieceType::Bishop
            || (pos.piece_on(t)->0).1 == PieceType::Queen),
    ensures
        !ray_attack(king_square(pos), next.all_occupancies.0, dr, dc, t),
{
    if ray_attack(king_square(pos), next.all_occupancies.0, dr, dc, t) {
        lemma_ep_case_uncovered(pos, m, next, t, dr, dc);
        lemma_ep_case_pinned(pos, m, next, t, dr, dc);
        lemma_ep_case_open(pos, m, next, t, dr, dc);
    }
}

/// No enemy piece attacks the king after an en passant capture.
proof fn lemma_ep_no_attack(pos: Position, m: Move, next: Position, t: int)
    requires
        pos.wf(),
        has_king(pos),
        kings_apart(pos),
        move_sound(pos, m),
        move_shape(pos, m),
        evades(pos, m),
        keeps_pins(pos, m),
        is_ep(m),
        made(pos, m, next),
        0 <= t < 64,
        next.piece_on(t) is Some,
        (next.piece_on(t)->0).0 == pos.active_color.other(),
    ensures
        !attacks_from(next, t, king_after(pos, m)),
{
    let c = pos.active_color;
    let o = c.other();
    let x = m.from_sq() as int;
    let y = m.to_sq() as int;
    let z = behind(c, y);
    let k = king_square(pos);
    let nocc = next.all_occupancies.0;
    lemma_ep_move(pos, m, next);
    lemma_king_on_square(pos);
    assert(moving_piece(pos, m) == PieceType::Pawn);
    assert(king_after(pos, m) == k);
    assert(t != x && t != y && t != z);
    assert(next.piece_on(t) == pos.piece_on(t));
    assert(k != x && k != y && k != z);
    let p = (pos.piece_on(t)->0).1;
    if attacks_from(next, t, k) {
        assert(piece_attack(t, o, p, nocc, k));
        if p == PieceType::Pawn || p == PieceType::Knight {
            assert(checks(pos, k, t, p));
            assert(checker(pos, t));
            assert(answers(pos, m, t));
        } else if p == PieceType::King {
            assert(pos.holds(t, o, PieceType::King));
            assert(king_target(k, t));
        } else {
            let (er, ec): (int, int) = if ray_attack(t, nocc, -1, 0, k) {
                (-1, 0)
            } else if ray_attack(t, nocc, 1, 0, k) {
                (1, 0)
            } else if ray_attack(t, nocc, 0, -1, k) {
                (0, -1)
            } else if ray_attack(t, nocc, 0, 1, k) {
                (0, 1)
            } else if ray_attack(t, nocc, -1, -1, k) {
                (-1, -1)
            } else if ray_attack(t, nocc, -1, 1, k) {
                (-1, 1)
            } else if ray_attack(t, nocc, 1, -1, k) {
                (1, -1)
            } else {
                (1, 1)
            };
            assert(ray_attack(t, nocc, er, ec, k));
            lemma_ray_reverse(t, k, nocc, er, ec);
            lemma_ep_no_slider_check(pos, m, next, t, -er, -ec);
        }
    }
}

/// Every move that fits the board, goes the way its piece moves, answers every
/// check and keeps every pin (as those `generate_moves` lists do) leaves the king
/// of the side that moved unattacked, when the kings did not stand next to each
/// other.
pub proof fn lemma_moves_leave_king_safe(pos: Position, m: Move, next: Position)
    requires
        pos.wf(),
        has_king(pos),
        kings_apart(pos),
        move_sound(pos, m),
        move_shape(pos, m),
        evades(pos, m),
        keeps_pins(pos, m),
        made(pos, m, next),
    ensures
        !attacked_by_enemy(next, pos.active_color, king_after(pos, m)),
{
    let c = pos.active_color;
    let o = c.other();
    let x = m.from_sq() as int;
    let y = m.to_sq() as int;
    let k = king_square(pos);
    let nocc = next.all_occupancies.0;
    if attacked_by_enemy(next, c, king_after(pos, m)) {
        let t = choose|t: int|
            0 <= t < 64 && #[trigger] attacks_from(next, t, king_after(pos, m)) && (next.piece_on(
                t,
            )->0).0 == o;
        if is_ks(m) || is_qs(m) {
            lemma_castle_unattacked(pos, m, next, t);
            assert(false);
        }
        if is_ep(m) {
            lemma_ep_no_attack(pos, m, next, t);
            assert(false);
        }
        lemma_plain_move(pos, m, next);
        lemma_king_on_square(pos);
        assert(t != x);
        assert(t != y);
        assert(next.piece_on(t) == pos.piece_on(t));
        let p = (pos.piece_on(t)->0).1;
        if moving_piece(pos, m) == PieceType::King {
            lemma_king_move_unattacked(pos, m, next, t);
        } else {
            assert(k != x);
            assert(k != y);
            assert(piece_attack(t, o, p, nocc, k));
            if p == PieceType::Pawn || p == PieceType::Knight {
                assert(checks(pos, k, t, p));
                assert(checker(pos, t));
                assert(answers(pos, m, t));
            } else if p == PieceType::King {
                assert(pos.holds(t, o, PieceType::King));
                assert(king_target(k, t));
            } else {
                let (er, ec): (int, int) = if ray_attack(t, nocc, -1, 0, k) {
                    (-1, 0)
                } else if ray_attack(t, nocc, 1, 0, k) {
                    (1, 0)
                } else if ray_attack(t, nocc, 0, -1, k) {
                    (0, -1)
                } else if ray_attack(t, nocc, 0, 1, k) {
                    (0, 1)
                } else if ray_attack(t, nocc, -1, -1, k) {
                    (-1, -1)
                } else if ray_attack(t, nocc, -1, 1, k) {
                    (-1, 1)
                } else if ray_attack(t, nocc, 1, -1, k) {
                    (1, -1)
                } else {
                    (1, 1)
                };
                assert(ray_attack(t, nocc, er, ec, k));
                lemma_ray_reverse(t, k, nocc, er, ec);
                lemma_no_slider_check(pos, m, next, t, -er, -ec);
            }
        }
    }
}

/// The moves of a list that `generate_moves` can return leave the king of the side
/// that moved unattacked, when the kings did not stand next to each other.
pub proof fn lemma_generated_moves_legal(pos: Position, s: Seq<(u16, i16)>, i: int, next: Position)
    requires
        pos.wf(),
        has_king(pos),
        kings_apart(pos),
        crate::movegen::list_sound(pos, s),
        0 <= i < s.len(),
        made(pos, Move { data: s[i].0 }, next),
    ensures
        !attacked_by_enemy(next, pos.active_color, king_after(pos, Move { data: s[i].0 })),
{
    lemma_moves_leave_king_safe(pos, Move { data: s[i].0 }, next);
}

/// A slider line from the king to `s`, clear on a board where `s` holds what it
/// held before, lets the piece on `s` attack the king there.
proof fn lemma_line_attack(pos: Position, next: Position, s: int, dr: int, dc: int)
    requires
        pos.wf(),
        has_king(pos),
        0 <= s < 64,
        enemy(pos, s),
        next.piece_on(s) == pos.piece_on(s),
        is_dir(dr, dc),
        ray_attack(king_square(pos), next.all_occupancies.0, dr, dc, s),
        (dr == 0 || dc == 0) ==> ((pos.piece_on(s)->0).1 == PieceType::Rook || (pos.piece_on(s)->0).1
            == PieceType::Queen),
        (dr != 0 && dc != 0) ==> ((pos.piece_on(s)->0).1 == PieceType::Bishop
            || (pos.piece_on(s)->0).1 == PieceType::Queen),
    ensures
        attacked_by_enemy(next, pos.active_color, king_square(pos)),
{
    let k = king_square(pos);
    lemma_king_on_square(pos);
    let nocc = next.all_occupancies.0;
    lemma_ray_reverse(k, s, nocc, dr, dc);
    let p = (pos.piece_on(s)->0).1;
    if dr == 0 || dc == 0 {
        assert(hv_attack(s, nocc, k));
    } else {
        assert(d12_attack(s, nocc, k));
    }
    assert(piece_attack(s, pos.active_color.other(), p, nocc, k));
    assert(attacks_from(next, s, k));
}

/// A slider check along the ray (`dr`, `dc`) that a plain move leaves unanswered
/// leaves the king attacked.
proof fn lemma_unanswered_line(pos: Position, m: Move, next: Position, t: int, dr: int, dc: int)
    requires
        pos.wf(),
        has_king(pos),
        move_sound(pos, m),
        !is_ep(m),
        !is_ks(m),
        !is_qs(m),
        made(pos, m, next),
        moving_piece(pos, m) != PieceType::King,
        checker(pos, t),
        !answers(pos, m, t),
        is_dir(dr, dc),
        ray_attack(king_square(pos), pos.all_occupancies.0, dr, dc, t),
        (dr == 0 || dc == 0) ==> ((pos.piece_on(t)->0).1 == PieceType::Rook || (pos.piece_on(t)->0).1
            == PieceType::Queen),
        (dr != 0 && dc != 0) ==> ((pos.piece_on(t)->0).1 == PieceType::Bishop
            || (pos.piece_on(t)->0).1 == PieceType::Queen),
    ensures
        attacked_by_enemy(next, pos.active_color, king_square(pos)),
{
    let k = king_square(pos);
    let x = m.from_sq() as int;
    let y = m.to_sq() as int;
    lemma_plain_move(pos, m, next);
    lemma_king_on_square(pos);
    let occ = pos.all_occupancies.0;
    let nocc = next.all_occupancies.0;
    lemma_ray_direction(k, t, dr, dc);
    let n = ray_dist(k, t, dr, dc);
    assert forall|j: int| 1 <= j < n implies !#[trigger] bit(nocc, ray_sq(k, dr, dc, j)) by {
        let z = ray_sq(k, dr, dc, j);
        assert(!bit(occ, z));
        if bit(nocc, z) {
            crate::lines::lemma_ray_square_unique(k, dr, dc, j);
            assert(0 <= z < 64);
            assert(z != x);
            assert(z == y);
            assert(segment(k, t, y));
            assert(check_line(pos, t, y));
        }
    }
    assert(ray_attack(k, nocc, dr, dc, t));
    assert(t != x);
    assert(t != y);
    assert(next.piece_on(t) == pos.piece_on(t));
    lemma_line_attack(pos, next, t, dr, dc);
}

/// A plain move of a piece other than the king that leaves a check unanswered
/// leaves the king attacked.
proof fn lemma_unanswered_check(pos: Position, m: Move, next: Position, t: int)
    requires
        pos.wf(),
        has_king(pos),
        move_sound(pos, m),
        !is_ep(m),
        !is_ks(m),
        !is_qs(m),
        made(pos, m, next),
        moving_piece(pos, m) != PieceType::King,
        checker(pos, t),
        !answers(pos, m, t),
    ensures
        attacked_by_enemy(next, pos.active_color, king_square(pos)),
{
    let k = king_square(pos);
    let occ = pos.all_occupancies.0;
    let p = (pos.piece_on(t)->0).1;
    lemma_king_on_square(pos);
    if p == PieceType::Pawn || p == PieceType::Knight {
        let x = m.from_sq() as int;
        let y = m.to_sq() as int;
        lemma_plain_move(pos, m, next);
        assert(t != x);
        assert(t != y);
        assert(next.piece_on(t) == pos.piece_on(t));
        assert(piece_attack(t, pos.active_color.other(), p, next.all_occupancies.0, k));
        assert(attacks_from(next, t, k));
    } else if (p == PieceType::Rook || p == PieceType::Queen) && hv_attack(k, occ, t) {
        if ray_attack(k, occ, -1, 0, t) {
            lemma_unanswered_line(pos, m, next, t, -1, 0);
        } else if ray_attack(k, occ, 1, 0, t) {
            lemma_unanswered_line(pos, m, next, t, 1, 0);
        } else if ray_attack(k, occ, 0, -1, t) {
            lemma_unanswered_line(pos, m, next, t, 0, -1);
        } else {
            lemma_unanswered_line(pos, m, next, t, 0, 1);
        }
    } else {
        assert(d12_attack(k, occ, t));
        if ray_attack(k, occ, -1, -1, t) {
            lemma_unanswered_line(pos, m, next, t, -1, -1);
        } else if ray_attack(k, occ, -1, 1, t) {
            lemma_unanswered_line(pos, m, next, t, -1, 1);
        } else if ray_attack(k, occ, 1, -1, t) {
            lemma_unanswered_line(pos, m, next, t, 1, -1);
        } else {
            lemma_unanswered_line(pos, m, next, t, 1, 1);
        }
    }
}

/// A plain move of a pinned piece off the line of its pin leaves the king
/// attacked.
#[verifier::rlimit(40)]
proof fn lemma_unkept_pin(pos: Position, m: Move, next: Position, s: int)
    requires
        pos.wf(),
        has_king(pos),
        move_sound(pos, m),
        !is_ep(m),
        !is_ks(m),
        !is_qs(m),
        made(pos, m, next),
        moving_piece(pos, m) != PieceType::King,
        pins(pos, s, m.from_sq() as int),
        !segment(king_square(pos), s, m.to_sq() as int),
    ensures
        attacked_by_enemy(next, pos.active_color, king_square(pos)),
{
    let k = king_square(pos);
    let x = m.from_sq() as int;
    let y = m.to_sq() as int;
    lemma_plain_move(pos, m, next);
    lemma_king_on_square(pos);
    let nocc = next.all_occupancies.0;
    assert(crate::lines::aligned(k, s));
    crate::lines::lemma_aligned_on_ray(k, s);
    let dr = dir_r(k, s);
    let dc = dir_c(k, s);
    let n = ray_dist(k, s, dr, dc);
    assert(segment(k, s, s));
    assert(s != y);
    assert forall|j: int| 1 <= j < n implies !#[trigger] bit(nocc, ray_sq(k, dr, dc, j)) by {
        let z = ray_sq(k, dr, dc, j);
        crate::lines::lemma_ray_square_unique(k, dr, dc, j);
        assert(on_ray(k, z, dr, dc) && ray_dist(k, z, dr, dc) == j);
        assert(segment(k, s, z));
        assert(z != s);
        if z != x {
            assert(pos.piece_on(z) is None);
            assert(z != y);
            assert(next.piece_on(z) == pos.piece_on(z));
        }
    }
    assert(ray_attack(k, nocc, dr, dc, s));
    assert(next.piece_on(s) == pos.piece_on(s));
    lemma_line_attack(pos, next, s, dr, dc);
}

/// The converse of the legality law, for plain moves of pieces other than the
/// king: a move that fits the board and goes the way its piece moves, after which
/// the king of the side that moved is not attacked, answers every check and keeps
/// every pin, and so is a move `generate_moves` lists (with canonical flag bits).
pub proof fn lemma_safe_plain_moves_generated(pos: Position, m: Move, next: Position)
    requires
        pos.wf(),
        has_king(pos),
        move_sound(pos, m),
        move_shape(pos, m),
        crate::movegen::canonical_flags(m),
        !is_ep(m),
        !is_ks(m),
        !is_qs(m),
        moving_piece(pos, m) != PieceType::King,
        made(pos, m, next),
        !attacked_by_enemy(next, pos.active_color, king_after(pos, m)),
    ensures
        evades(pos, m),
        keeps_pins(pos, m),
        crate::movegen::generated_move(pos, m),
{
    assert forall|t: int| #[trigger] checker(pos, t) implies answers(pos, m, t) by {
        if !answers(pos, m, t) {
            lemma_unanswered_check(pos, m, next, t);
        }
    }
    assert forall|s: int| #[trigger] pins(pos, s, m.from_sq() as int) implies segment(
        king_square(pos),
        s,
        m.to_sq() as int,
    ) by {
        if !segment(king_square(pos), s, m.to_sq() as int) {
            lemma_unkept_pin(pos, m, next, s);
        }
    }
}

/// A plain king move after which the king is not attacked goes to a square that
/// no enemy piece attacks with the king taken off the board.
proof fn lemma_safe_king_step(pos: Position, m: Move, next: Position)
    requires
        pos.wf(),
        has_king(pos),
        move_sound(pos, m),
        !is_ep(m),
        !is_ks(m),
        !is_qs(m),
        made(pos, m, next),
        moving_piece(pos, m) == PieceType::King,
        crate::movegen::one_king(pos),
        !attacked_by_enemy(next, pos.active_color, m.to_sq() as int),
    ensures
        safe_square(pos, m.to_sq() as int),
{
    let c = pos.active_color;
    let o = c.other();
    let x = m.from_sq() as int;
    let y = m.to_sq() as int;
    let nocc = next.all_occupancies.0;
    let wk = occ_without_king(pos, c);
    let ki = PieceType::King.index_of(c);
    lemma_plain_move(pos, m, next);
    assert forall|z: int| 0 <= z < 64 && z != y && !bit(wk, z) implies !#[trigger] bit(nocc, z) by {
        pos.lemma_bitboards(z, ki);
        pos.lemma_occupancy(z);
        pos.lemma_bitboards(x, ki);
        if z != x {
            assert(next.piece_on(z) == pos.piece_on(z));
            if pos.piece_on(z) is Some {
                assert(pos.holds(z, c, PieceType::King));
                assert(pos.holds(x, c, PieceType::King));
            }
        }
    }
    assert forall|t: int, p: PieceType|
        #![trigger pos.holds(t, o, p), piece_attack(t, o, p, wk, y)]
        0 <= t < 64 && pos.holds(t, o, p) implies !piece_attack(t, o, p, wk, y) by {
        if piece_attack(t, o, p, wk, y) {
            assert(t != x);
            assert(t != y) by {
                if t == y {
                    assert(!crate::attacks::ray_attack(y, wk, -1, 0, y));
                }
            }
            assert(next.piece_on(t) == pos.piece_on(t));
            if p == PieceType::Bishop || p == PieceType::Rook || p == PieceType::Queen {
                let (dr, dc): (int, int) = if ray_attack(t, wk, -1, 0, y) {
                    (-1, 0)
                } else if ray_attack(t, wk, 1, 0, y) {
                    (1, 0)
                } else if ray_attack(t, wk, 0, -1, y) {
                    (0, -1)
                } else if ray_attack(t, wk, 0, 1, y) {
                    (0, 1)
                } else if ray_attack(t, wk, -1, -1, y) {
                    (-1, -1)
                } else if ray_attack(t, wk, -1, 1, y) {
                    (-1, 1)
                } else if ray_attack(t, wk, 1, -1, y) {
                    (1, -1)
                } else {
                    (1, 1)
                };
                let n = ray_dist(t, y, dr, dc);
                assert forall|j: int| 1 <= j < n implies !#[trigger] bit(nocc, ray_sq(t, dr, dc, j)) by {
                    let z = ray_sq(t, dr, dc, j);
                    assert(!bit(wk, z));
                    assert(z != y);
                }
                assert(ray_attack(t, nocc, dr, dc, y));
            }
            assert(piece_attack(t, o, p, nocc, y));
            assert(attacks_from(next, t, y));
        }
    }
}

/// The converse of the legality law for plain king moves: with one king to move, a
/// king step onto a square it attacks, without a friendly piece, after which the
/// king is not attacked, is a move `generate_moves` lists (with canonical flag
/// bits).
pub proof fn lemma_safe_king_steps_generated(pos: Position, m: Move, next: Position)
    requires
        pos.wf(),
        has_king(pos),
        move_sound(pos, m),
        crate::movegen::canonical_flags(m),
        !is_ep(m),
        !is_ks(m),
        !is_qs(m),
        !is_promo(m),
        !crate::make_move::is_dp(m),
        moving_piece(pos, m) == PieceType::King,
        crate::movegen::one_king(pos),
        piece_attack(m.from_sq() as int, pos.active_color, PieceType::King, pos.all_occupancies.0, m.to_sq() as int),
        made(pos, m, next),
        !attacked_by_enemy(next, pos.active_color, king_after(pos, m)),
    ensures
        safe_square(pos, m.to_sq() as int),
        crate::movegen::generated_move(pos, m),
{
    lemma_safe_king_step(pos, m, next);
}

/// A slider check along the ray (`dr`, `dc`) that an en passant capture leaves
/// unanswered leaves the king attacked.
proof fn lemma_ep_unanswered_line(pos: Position, m: Move, next: Position, t: int, dr: int, dc: int)
    requires
        pos.wf(),
        has_king(pos),
        move_sound(pos, m),
        is_ep(m),
        made(pos, m, next),
        checker(pos, t),
        !answers(pos, m, t),
        is_dir(dr, dc),
        ray_attack(king_square(pos), pos.all_occupancies.0, dr, dc, t),
        (dr == 0 || dc == 0) ==> ((pos.piece_on(t)->0).1 == PieceType::Rook || (pos.piece_on(t)->0).1
            == PieceType::Queen),
        (dr != 0 && dc != 0) ==> ((pos.piece_on(t)->0).1 == PieceType::Bishop
            || (pos.piece_on(t)->0).1 == PieceType::Queen),
    ensures
        attacked_by_enemy(next, pos.active_color, king_square(pos)),
{
    let k = king_square(pos);
    let x = m.from_sq() as int;
    let y = m.to_sq() as int;
    let z = behind(pos.active_color, y);
    lemma_ep_move(pos, m, next);
    lemma_king_on_square(pos);
    let occ = pos.all_occupancies.0;
    let nocc = next.all_occupancies.0;
    lemma_ray_direction(k, t, dr, dc);
    let n = ray_dist(k, t, dr, dc);
    assert forall|j: int| 1 <= j < n implies !#[trigger] bit(nocc, ray_sq(k, dr, dc, j)) by {
        let w = ray_sq(k, dr, dc, j);
        assert(!bit(occ, w));
        if bit(nocc, w) {
            crate::lines::lemma_ray_square_unique(k, dr, dc, j);
            assert(0 <= w < 64);
            assert(w != x && w != z);
            assert(w == y);
            assert(segment(k, t, y));
            assert(check_line(pos, t, y));
        }
    }
    assert(ray_attack(k, nocc, dr, dc, t));
    assert(t != x && t != y && t != z);
    assert(next.piece_on(t) == pos.piece_on(t));
    lemma_line_attack(pos, next, t, dr, dc);
}

/// An en passant capture that leaves a check unanswered leaves the king attacked.
proof fn lemma_ep_unanswered_check(pos: Position, m: Move, next: Position, t: int)
    requires
        pos.wf(),
        has_king(pos),
        move_sound(pos, m),
        is_ep(m),
        made(pos, m, next),
        checker(pos, t),
        !answers(pos, m, t),
    ensures
        attacked_by_enemy(next, pos.active_color, king_square(pos)),
{
    let k = king_square(pos);
    let occ = pos.all_occupancies.0;
    let p = (pos.piece_on(t)->0).1;
    lemma_king_on_square(pos);
    if p == PieceType::Pawn || p == PieceType::Knight {
        let x = m.from_sq() as int;
        let y = m.to_sq() as int;
        lemma_ep_move(pos, m, next);
        assert(t != x && t != y && t != behind(pos.active_color, y));
        assert(next.piece_on(t) == pos.piece_on(t));
        assert(piece_attack(t, pos.active_color.other(), p, next.all_occupancies.0, k));
        assert(attacks_from(next, t, k));
    } else if (p == PieceType::Rook || p == PieceType::Queen) && hv_attack(k, occ, t) {
        if ray_attack(k, occ, -1, 0, t) {
            lemma_ep_unanswered_line(pos, m, next, t, -1, 0);
        } else if ray_attack(k, occ, 1, 0, t) {
            lemma_ep_unanswered_line(pos, m, next, t, 1, 0);
        } else if ray_attack(k, occ, 0, -1, t) {
            lemma_ep_unanswered_line(pos, m, next, t, 0, -1);
        } else {
            lemma_ep_unanswered_line(pos, m, next, t, 0, 1);
        }
    } else {
        assert(d12_attack(k, occ, t));
        if ray_attack(k, occ, -1, -1, t) {
            lemma_ep_unanswered_line(pos, m, next, t, -1, -1);
        } else if ray_attack(k, occ, -1, 1, t) {
            lemma_ep_unanswered_line(pos, m, next, t, -1, 1);
        } else if ray_attack(k, occ, 1, -1, t) {
            lemma_ep_unanswered_line(pos, m, next, t, 1, -1);
        } else {
            lemma_ep_unanswered_line(pos, m, next, t, 1, 1);
        }
    }
}

/// An en passant capture by a pinned pawn off the line of its pin leaves the king
/// attacked.
#[verifier::rlimit(40)]
proof fn lemma_ep_unkept_pin(pos: Position, m: Move, next: Position, s: int)
    requires
        pos.wf(),
        has_king(pos),
        move_sound(pos, m),
        is_ep(m),
        made(pos, m, next),
        pins(pos, s, m.from_sq() as int),
        !segment(king_square(pos), s, m.to_sq() as int),
    ensures
        attacked_by_enemy(next, pos.active_color, king_square(pos)),
{
    let k = king_square(pos);
    let x = m.from_sq() as int;
    let y = m.to_sq() as int;
    let z = behind(pos.active_color, y);
    lemma_ep_move(pos, m, next);
    lemma_king_on_square(pos);
    let nocc = next.all_occupancies.0;
    assert(crate::lines::aligned(k, s));
    crate::lines::lemma_aligned_on_ray(k, s);
    let dr = dir_r(k, s);
    let dc = dir_c(k, s);
    let n = ray_dist(k, s, dr, dc);
    assert(segment(k, s, s));
    assert(s != y && s != z && s != x);
    assert forall|j: int| 1 <= j < n implies !#[trigger] bit(nocc, ray_sq(k, dr, dc, j)) by {
        let w = ray_sq(k, dr, dc, j);
        crate::lines::lemma_ray_square_unique(k, dr, dc, j);
        assert(on_ray(k, w, dr, dc) && ray_dist(k, w, dr, dc) == j);
        assert(segment(k, s, w));
        assert(w != s);
        if w != x {
            assert(pos.piece_on(w) is None);
            assert(w != y);
            assert(w != z);
            assert(next.piece_on(w) == pos.piece_on(w));
        }
    }
    assert(ray_attack(k, nocc, dr, dc, s));
    assert(next.piece_on(s) == pos.piece_on(s));
    lemma_line_attack(pos, next, s, dr, dc);
}

/// An en passant capture that uncovers a line through the pawn it takes, on the
/// king's rank or diagonals, leaves the king attacked.
#[verifier::rlimit(40)]
proof fn lemma_ep_uncovered(pos: Position, m: Move, next: Position, s: int)
    requires
        pos.wf(),
        has_king(pos),
        move_sound(pos, m),
        is_ep(m),
        made(pos, m, next),
        pin_segment(occ_without(pos, m.from_sq() as int), king_square(pos), s, behind(pos.active_color, m.to_sq() as int)),
        (hv_slider(pos, s) && row(s) == row(king_square(pos))) || d12_slider(pos, s),
    ensures
        attacked_by_enemy(next, pos.active_color, king_square(pos)),
{
    let k = king_square(pos);
    let x = m.from_sq() as int;
    let y = m.to_sq() as int;
    let z = behind(pos.active_color, y);
    let occ = pos.all_occupancies.0;
    let occw = occ_without(pos, x);
    let nocc = next.all_occupancies.0;
    lemma_ep_move(pos, m, next);
    lemma_king_on_square(pos);
    assert(crate::lines::aligned(k, s));
    crate::lines::lemma_aligned_on_ray(k, s);
    let dr = dir_r(k, s);
    let dc = dir_c(k, s);
    let n = ray_dist(k, s, dr, dc);
    let jz = ray_dist(k, z, dr, dc);
    assert(z == ray_sq(k, dr, dc, jz));
    assert(pos.piece_on(z) == Some((pos.active_color.other(), PieceType::Pawn)));
    assert(z != s);
    assert(jz != n) by {
        crate::lines::lemma_ray_square_unique(k, dr, dc, n);
    }
    assert(1 <= jz < n);
    assert(bit(occw, z));
    assert(col(z) == col(y) && (row(z) == row(y) + 1 || row(z) == row(y) - 1));
    assert forall|j: int| 1 <= j < n implies !#[trigger] bit(nocc, ray_sq(k, dr, dc, j)) by {
        let w = ray_sq(k, dr, dc, j);
        crate::lines::lemma_ray_square_unique(k, dr, dc, j);
        assert(0 <= w < 64);
        if w != z && w != x {
            if bit(occw, w) {
                if j < jz {
                    crate::lines::lemma_blockers_two(k, occw, dr, dc, n, j, jz);
                } else {
                    crate::lines::lemma_blockers_two(k, occw, dr, dc, n, jz, j);
                }
            }
            assert(!bit(occw, w));
            assert(!bit(occ, w));
            assert(w != y) by {
                if w == y {
                    assert(row(w) == row(k) + crate::attacks::step(j, dr));
                    assert(row(z) == row(k) + crate::attacks::step(jz, dr));
                    assert(col(w) == col(k) + crate::attacks::step(j, dc));
                    assert(col(z) == col(k) + crate::attacks::step(jz, dc));
                }
            }
            assert(next.piece_on(w) == pos.piece_on(w));
        }
    }
    assert(ray_attack(k, nocc, dr, dc, s));
    assert(s != x && s != y);
    assert(next.piece_on(s) == pos.piece_on(s));
    lemma_line_attack(pos, next, s, dr, dc);
}

/// The converse of the legality law for en passant captures: one that fits the
/// board and goes the way pawns take, after which the king of the side that moved
/// is not attacked, answers every check, keeps every pin and uncovers no line
/// through the pawn it takes, and so is a move `generate_moves` lists (with
/// canonical flag bits).
pub proof fn lemma_safe_ep_generated(pos: Position, m: Move, next: Position)
    requires
        pos.wf(),
        has_king(pos),
        move_sound(pos, m),
        move_shape(pos, m),
        crate::movegen::canonical_flags(m),
        is_ep(m),
        made(pos, m, next),
        !attacked_by_enemy(next, pos.active_color, king_after(pos, m)),
    ensures
        evades(pos, m),
        keeps_pins(pos, m),
        crate::movegen::generated_move(pos, m),
{
    lemma_ep_move(pos, m, next);
    assert(moving_piece(pos, m) != PieceType::King) by {
        crate::moves::lemma_decode_encode(m.data);
    }
    assert forall|t: int| #[trigger] checker(pos, t) implies answers(pos, m, t) by {
        if !answers(pos, m, t) {
            lemma_ep_unanswered_check(pos, m, next, t);
        }
    }
    assert forall|s: int| #[trigger] pins(pos, s, m.from_sq() as int) implies segment(
        king_square(pos),
        s,
        m.to_sq() as int,
    ) by {
        if !segment(king_square(pos), s, m.to_sq() as int) {
            lemma_ep_unkept_pin(pos, m, next, s);
        }
    }
    let x = m.from_sq() as int;
    let z = behind(pos.active_color, m.to_sq() as int);
    assert forall|s: int| #[trigger] pin_segment(occ_without(pos, x), king_square(pos), s, z) implies !((
    hv_slider(pos, s) && row(s) == row(king_square(pos))) || d12_slider(pos, s)) by {
        if (hv_slider(pos, s) && row(s) == row(king_square(pos))) || d12_slider(pos, s) {
            lemma_ep_uncovered(pos, m, next, s);
        }
    }
}

/// The move goes the way its piece moves: castling by its own rules (the king and
/// rook at home, the squares between empty, the right kept, and the king neither
/// in check nor crossing or landing on an attacked square); a king one step to a
/// square without a piece of its own; any other piece by its rule.
pub open spec fn piece_rule(pos: Position, m: Move) -> bool {
    if is_ks(m) || is_qs(m) {
        move_shape(pos, m)
    } else if moving_piece(pos, m) == PieceType::King {
        &&& piece_attack(
            m.from_sq() as int,
            pos.active_color,
            PieceType::King,
            pos.all_occupancies.0,
            m.to_sq() as int,
        )
        &&& !is_promo(m)
        &&& !crate::make_move::is_dp(m)
        &&& !is_ep(m)
    } else {
        move_shape(pos, m)
    }
}

/// Every legal move is one that `generate_moves` lists: a move that fits the board
/// (`move_sound`, with canonical flag bits), goes the way its piece moves
/// (`piece_rule`) and leaves the king of the side that moved unattacked is a
/// generated move, when the side to move has one king. With
/// `Position::generate_moves`, which lists every generated move when fewer than 256
/// are generated and the en passant square is a single square, the list holds
/// every legal move.
pub proof fn lemma_legal_moves_generated(pos: Position, m: Move, next: Position)
    requires
        pos.wf(),
        has_king(pos),
        crate::movegen::one_king(pos),
        move_sound(pos, m),
        crate::movegen::canonical_flags(m),
        piece_rule(pos, m),
        made(pos, m, next),
        !attacked_by_enemy(next, pos.active_color, king_after(pos, m)),
    ensures
        crate::movegen::generated_move(pos, m),
{
    if is_ks(m) || is_qs(m) {
        assert(moving_piece(pos, m) == PieceType::King);
    } else if is_ep(m) {
        lemma_safe_ep_generated(pos, m, next);
    } else if moving_piece(pos, m) == PieceType::King {
        lemma_safe_king_steps_generated(pos, m, next);
    } else {
        lemma_safe_plain_moves_generated(pos, m, next);
    }
}

} // verus!
