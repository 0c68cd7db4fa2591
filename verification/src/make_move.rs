use vstd::prelude::*;

verus! {

use crate::bits::{bit, group_bit_lemmas};
use crate::bitboard::{Bitboard, BitUtils};
use crate::castling::rights_mask;
use crate::color::Color;
use crate::keys::{castling_key_value, side_key_value, enpassant_key_value};
use crate::moves::{Move, promotion_of_bits};
use crate::piece::PieceType;
use crate::position::Position;
use crate::repetition::RepetitionTable;
use crate::zobrist::{
    board_hash, hash_of, state_hash, ep_key, color_key, lemma_board_hash_update, lemma_xor_facts,
    square_key, lemma_board_hash_same,
};
use vstd::std_specs::bits::u64_trailing_zeros;

broadcast use group_bit_lemmas;

/// The square of the pawn taken en passant, or passed over by a double push:
/// behind the destination from the mover's point of view.
pub open spec fn behind(color: Color, dst: int) -> int {
    match color {
        Color::White => dst + 8,
        Color::Black => dst - 8,
    }
}

/// The home square of the rook that castles, king side or queen side.
pub open spec fn rook_from(color: Color, king_side: bool) -> int {
    match (color, king_side) {
        (Color::White, true) => 63,
        (Color::White, false) => 56,
        (Color::Black, true) => 7,
        (Color::Black, false) => 0,
    }
}

/// The square the castling rook moves to.
pub open spec fn rook_to(color: Color, king_side: bool) -> int {
    match (color, king_side) {
        (Color::White, true) => 61,
        (Color::White, false) => 59,
        (Color::Black, true) => 5,
        (Color::Black, false) => 3,
    }
}

pub open spec fn is_cap(m: Move) -> bool {
    m.flags() % 2 == 1
}

pub open spec fn is_ep(m: Move) -> bool {
    m.flags() == 5
}

pub open spec fn is_ks(m: Move) -> bool {
    m.flags() == 8
}

pub open spec fn is_qs(m: Move) -> bool {
    m.flags() == 12
}

pub open spec fn is_dp(m: Move) -> bool {
    m.flags() == 4
}

pub open spec fn is_promo(m: Move) -> bool {
    m.flags() / 2 % 2 == 1
}

/// The kind of the piece that moves.
pub open spec fn moving_piece(pos: Position, m: Move) -> PieceType {
    pos.piece_squares@[m.from_sq() as int]
}

/// Whether the move resets the fifty move counter.
pub open spec fn irreversible(pos: Position, m: Move) -> bool {
    is_cap(m) || moving_piece(pos, m) == PieceType::Pawn || is_promo(m)
}

/// A move that fits the board of `pos`: the mover's piece stands on the source,
/// a capture finds an enemy piece where it takes, other moves land on an empty
/// square, castling finds its rook at home and its path square empty.
pub open spec fn move_sound(pos: Position, m: Move) -> bool {
    let c = pos.active_color;
    let o = c.other();
    let src = m.from_sq() as int;
    let dst = m.to_sq() as int;
    let ks = is_ks(m);
    &&& pos.wf()
    &&& src != dst
    &&& pos.piece_on(src) is Some && (pos.piece_on(src)->0).0 == c
    &&& (is_cap(m) && !is_ep(m)) ==> (pos.piece_on(dst) is Some && (pos.piece_on(dst)->0).0 == o)
    &&& (is_cap(m) && !is_ep(m)) ==> (pos.piece_on(dst)->0).1 != PieceType::Empty
    &&& !(is_cap(m) && !is_ep(m)) ==> pos.piece_on(dst) is None
    &&& is_ep(m) ==> (0 <= behind(c, dst) < 64 && pos.piece_on(behind(c, dst)) == Some(
        (o, PieceType::Pawn),
    ) && behind(c, dst) != src)
    &&& (is_ks(m) || is_qs(m)) ==> (pos.piece_on(rook_from(c, ks)) == Some((c, PieceType::Rook))
        && pos.piece_on(rook_to(c, ks)) is None && rook_from(c, ks) != src && rook_to(c, ks)
        != dst && rook_from(c, ks) != dst && rook_to(c, ks) != src)
    &&& is_dp(m) ==> 0 <= behind(c, dst) < 64
    &&& is_promo(m) ==> moving_piece(pos, m) == PieceType::Pawn
}

/// The counters of `pos` do not overflow when the move is made.
pub open spec fn counters_ok(pos: Position, m: Move) -> bool {
    let c = pos.active_color;
    &&& pos.half_moves < 255
    &&& c == Color::Black ==> pos.full_moves < 65535
    &&& !irreversible(pos, m) ==> pos.rep_table.length() < 100
}

/// A move that `make_move` can play on `pos`.
pub open spec fn move_applicable(pos: Position, m: Move) -> bool {
    move_sound(pos, m) && counters_ok(pos, m)
}

/// The piece that stands on `t` after the move.
pub open spec fn board_after(pos: Position, m: Move, t: int) -> Option<(Color, PieceType)> {
    let c = pos.active_color;
    let src = m.from_sq() as int;
    let dst = m.to_sq() as int;
    let ks = is_ks(m);
    let moved = if is_promo(m) {
        promotion_of_bits(m.flags() / 4)
    } else {
        moving_piece(pos, m)
    };
    if t == src {
        None
    } else if t == dst {
        Some((c, moved))
    } else if is_ep(m) && t == behind(c, dst) {
        None
    } else if (is_ks(m) || is_qs(m)) && t == rook_from(c, ks) {
        None
    } else if (is_ks(m) || is_qs(m)) && t == rook_to(c, ks) {
        Some((c, PieceType::Rook))
    } else {
        pos.piece_on(t)
    }
}

/// The en passant square after the move, as a bitboard.
pub open spec fn ep_after(pos: Position, m: Move) -> u64 {
    if is_dp(m) {
        1u64 << (behind(pos.active_color, m.to_sq() as int) as u64)
    } else {
        0
    }
}

/// Everything `make_move` does to a position.
pub open spec fn made(pos: Position, m: Move, next: Position) -> bool {
    &&& next.wf()
    &&& forall|t: int| 0 <= t < 64 ==> #[trigger] next.piece_on(t) == board_after(pos, m, t)
    &&& next.active_color == pos.active_color.other()
    &&& next.castling_ability.byte == pos.castling_ability.byte & rights_mask(
        m.from_sq() as int,
    ) & rights_mask(m.to_sq() as int)
    &&& next.enpassant_square.0 == ep_after(pos, m)
    &&& next.full_moves == pos.full_moves + if pos.active_color == Color::Black {
        1int
    } else {
        0int
    }
    &&& next.half_moves == if irreversible(pos, m) {
        0
    } else {
        pos.half_moves + 1
    }
    &&& irreversible(pos, m) ==> next.rep_table.length() == 0 && next.rep_table.slots()
        == pos.rep_table.slots()
    &&& !irreversible(pos, m) ==> next.rep_table.length() == pos.rep_table.length() + 1
        && next.rep_table.slots() == pos.rep_table.slots().update(
        pos.rep_table.length() as int,
        next.zobrist_hash,
    )
    &&& pos.zobrist_hash == hash_of(pos) ==> next.zobrist_hash == hash_of(next)
}

/// The index of the only set bit of a single bit word.
pub proof fn lemma_trailing_zeros_single(s: u64)
    requires
        s < 64,
    ensures
        u64_trailing_zeros(1u64 << s) == s,
        1u64 << s != 0,
{
    vstd::std_specs::bits::axiom_u64_trailing_zeros(1u64 << s);
    assert(1u64 << s != 0) by (bit_vector)
        requires
            s < 64,
    ;
    let t = u64_trailing_zeros(1u64 << s) as u64;
    assert(t < 64);
    assert(((1u64 << s) >> t) & 1u64 == 1u64);
    if t < s {
        assert(((1u64 << s) >> t) & 1u64 == 0u64) by (bit_vector)
            requires
                t < s,
                s < 64,
        ;
    } else if t > s {
        assert(((1u64 << s) >> s) & 1u64 == 1u64) by (bit_vector)
            requires
                s < 64,
        ;
        assert(forall|j: u64| 0 <= j < t ==> #[trigger] ((1u64 << s) >> j) & 1u64 == 0u64);
        assert(((1u64 << s) >> s) & 1u64 == 0u64);
    }
}

/// Removing the old castling and en passant keys leaves the key of the side to move.
proof fn lemma_state_keys_removed(h0: u64, b0: u64, ck0: u64, cc: u64, e0: u64, h1: u64, x1: u64)
    requires
        h0 == b0 ^ ((ck0 ^ cc) ^ e0),
        h1 == (h0 ^ ck0) ^ e0,
        x1 == h1 ^ b0,
    ensures
        x1 == cc,
{
    assert(x1 == cc) by (bit_vector)
        requires
            h0 == b0 ^ ((ck0 ^ cc) ^ e0),
            h1 == (h0 ^ ck0) ^ e0,
            x1 == h1 ^ b0,
    ;
}

/// Adding the new en passant, castling and side keys gives the new state hash.
proof fn lemma_state_keys_added(
    x6: u64,
    h6: u64,
    b6: u64,
    e: u64,
    k: u64,
    sd: u64,
    co: u64,
    h7: u64,
    h9: u64,
)
    requires
        x6 == h6 ^ b6,
        co == x6 ^ sd,
        h7 == h6 ^ e,
        h9 == (h7 ^ k) ^ sd,
    ensures
        h9 == b6 ^ ((k ^ co) ^ e),
{
    assert(h9 == b6 ^ ((k ^ co) ^ e)) by (bit_vector)
        requires
            x6 == h6 ^ b6,
            co == x6 ^ sd,
            h7 == h6 ^ e,
            h9 == (h7 ^ k) ^ sd,
    ;
}

impl Position {
    /// Takes a piece off its square and toggles its key.
    fn take_off(&mut self, color: Color, piece_type: PieceType, square: u8)
        requires
            old(self).wf(),
            square < 64,
            old(self).piece_on(square as int) == Some((color, piece_type)),
        ensures
            final(self).wf(),
            final(self).piece_on(square as int) is None,
            final(self).same_board_except(*old(self), square as int),
            *final(self) == (Position {
                zobrist_hash: final(self).zobrist_hash,
                bitboards: final(self).bitboards,
                color_occupancies: final(self).color_occupancies,
                all_occupancies: final(self).all_occupancies,
                piece_squares: final(self).piece_squares,
                ..*old(self)
            }),
            final(self).zobrist_hash ^ board_hash(*final(self)) == old(self).zobrist_hash
                ^ board_hash(*old(self)),
    {
        let ghost p0 = *self;
        self.remove_piece(color, piece_type, square);
        let ghost p1 = *self;
        self.apply_piece_zobrist(color, piece_type, square);
        proof {
            self.lemma_same_board(p1);
            lemma_board_hash_same(*self, p1);
            lemma_board_hash_update(p0, p1, square as int);
            let k = square_key(p0, square as int);
            assert(square_key(p1, square as int) == 0);
            let h0 = p0.zobrist_hash;
            let b0 = board_hash(p0);
            lemma_xor_facts(b0, k, 0);
            lemma_xor_facts(h0, k, b0 ^ k);
            lemma_xor_facts(k, b0, k);
            lemma_xor_facts(b0, k, k);
            lemma_xor_facts(k, k, 0);
            lemma_xor_facts(h0, b0, 0);
            assert(board_hash(p1) == b0 ^ k);
            assert(self.zobrist_hash == h0 ^ k);
            assert((h0 ^ k) ^ (b0 ^ k) == h0 ^ b0) by {
                assert((h0 ^ k) ^ (b0 ^ k) == h0 ^ (k ^ (b0 ^ k)));
                assert(k ^ (b0 ^ k) == (k ^ b0) ^ k);
                assert(k ^ b0 == b0 ^ k);
                assert((b0 ^ k) ^ k == b0 ^ (k ^ k));
            }
        }
    }

    /// Puts a piece on an empty square and toggles its key.
    fn put_on(&mut self, color: Color, piece_type: PieceType, square: u8)
        requires
            old(self).wf(),
            square < 64,
            piece_type != PieceType::Empty,
            old(self).piece_on(square as int) is None,
        ensures
            final(self).wf(),
            final(self).piece_on(square as int) == Some((color, piece_type)),
            final(self).same_board_except(*old(self), square as int),
            *final(self) == (Position {
                zobrist_hash: final(self).zobrist_hash,
                bitboards: final(self).bitboards,
                color_occupancies: final(self).color_occupancies,
                all_occupancies: final(self).all_occupancies,
                piece_squares: final(self).piece_squares,
                ..*old(self)
            }),
            final(self).zobrist_hash ^ board_hash(*final(self)) == old(self).zobrist_hash
                ^ board_hash(*old(self)),
    {
        let ghost p0 = *self;
        self.place_piece(color, piece_type, square);
        let ghost p1 = *self;
        self.apply_piece_zobrist(color, piece_type, square);
        proof {
            self.lemma_same_board(p1);
            lemma_board_hash_same(*self, p1);
            lemma_board_hash_update(p0, p1, square as int);
            let k = square_key(p1, square as int);
            assert(square_key(p0, square as int) == 0);
            let h0 = p0.zobrist_hash;
            let b0 = board_hash(p0);
            lemma_xor_facts(b0, 0, k);
            lemma_xor_facts(b0, 0, 0);
            lemma_xor_facts(h0, k, b0 ^ k);
            lemma_xor_facts(k, b0, k);
            lemma_xor_facts(b0, k, k);
            lemma_xor_facts(k, k, 0);
            assert(board_hash(p1) == b0 ^ k);
            assert(self.zobrist_hash == h0 ^ k);
            assert((h0 ^ k) ^ (b0 ^ k) == h0 ^ b0) by {
                assert((h0 ^ k) ^ (b0 ^ k) == h0 ^ (k ^ (b0 ^ k)));
                assert(k ^ (b0 ^ k) == (k ^ b0) ^ k);
                assert(k ^ b0 == b0 ^ k);
                assert((b0 ^ k) ^ k == b0 ^ (k ^ k));
            }
        }
    }

    /// Plays a move: moves the piece, takes what it captures, moves the castling rook,
    /// promotes, and updates the castling rights, en passant square, counters,
    /// repetition table, side to move and hash.
    pub fn make_move(&mut self, moove: Move)
        requires
            move_applicable(*old(self), moove),
        ensures
            made(*old(self), moove, *final(self)),
    {
        let ghost p0 = *self;
        let ghost h_old = self.zobrist_hash;
        let color = self.active_color;
        let opp_color = color.opposite();
        let src = moove.src();
        let dst = moove.dst();
        let piece = self.piece_type_at(src);
        let is_capture = moove.is_capture();
        let is_enpassant = moove.is_enpassant();
        let ks = moove.is_castle_ks();
        let qs = moove.is_castle_qs();
        let ghost x0 = self.zobrist_hash ^ board_hash(*self);

        // Unapply the current castling ability key (reapplied after castling)
        self.apply_castling_zobrist();
        // Unapply the en passant key
        if !self.enpassant_square.is_empty() {
            let e = self.enpassant_square.least_significant();
            self.apply_enpassant_zobrist(e);
        }
        let ghost x1 = self.zobrist_hash ^ board_hash(*self);
        let ghost p1 = *self;
        proof {
            p1.lemma_same_board(p0);
            lemma_board_hash_same(p1, p0);
        }

        if is_capture && !is_enpassant {
            let captured = self.piece_type_at(dst);
            self.take_off(opp_color, captured, dst);
        }
        let ghost p2 = *self;

        if is_enpassant {
            let captured = if color.is_white() {
                dst + 8
            } else {
                dst - 8
            };
            self.take_off(opp_color, PieceType::Pawn, captured);
        }
        let ghost p3 = *self;

        if ks || qs {
            let (from, to): (u8, u8) = if color.is_white() {
                if ks {
                    (63, 61)
                } else {
                    (56, 59)
                }
            } else {
                if ks {
                    (7, 5)
                } else {
                    (0, 3)
                }
            };
            self.take_off(color, PieceType::Rook, from);
            self.put_on(color, PieceType::Rook, to);
        }
        let ghost p4 = *self;

        let moved = if moove.is_promotion() {
            moove.promotion()
        } else {
            piece
        };
        self.put_on(color, moved, dst);
        let ghost p5 = *self;
        self.take_off(color, piece, src);
        let ghost p6 = *self;
        let ghost x6 = self.zobrist_hash ^ board_hash(*self);
        let ghost h6 = self.zobrist_hash;
        proof {
            assert(x6 == x1);
            assert forall|t: int| 0 <= t < 64 implies #[trigger] self.piece_on(t) == board_after(
                p0,
                moove,
                t,
            ) by {
                assert(p1.piece_on(t) == p0.piece_on(t));
                if t != src as int {
                    assert(p6.piece_on(t) == p5.piece_on(t));
                }
                if t != src as int && t != dst as int {
                    assert(p5.piece_on(t) == p4.piece_on(t));
                }
            }
        }

        if moove.is_double_push() {
            let enp_sq = if color.is_white() {
                dst + 8
            } else {
                dst - 8
            };
            self.enpassant_square = Bitboard(1u64 << enp_sq);
            self.apply_enpassant_zobrist(enp_sq);
        } else {
            self.enpassant_square = Bitboard(0);
        }
        let ghost h7 = self.zobrist_hash;
        let ghost e_new = ep_key(self.enpassant_square.0);
        proof {
            if is_dp(moove) {
                let s = behind(color, dst as int) as u64;
                lemma_trailing_zeros_single(s);
            } else {
                lemma_xor_facts(h6, 0, 0);
            }
            assert(h7 == h6 ^ e_new);
        }

        // Update castling abilities
        self.castling_ability.update(src, dst);
        proof {
            let a = p0.castling_ability.byte;
            let x = rights_mask(src as int);
            let y = rights_mask(dst as int);
            assert(a < 16 ==> a & x & y < 16) by (bit_vector);
        }
        self.apply_castling_zobrist();
        let ghost k_new = castling_key_value(self.castling_ability.byte as int);

        if color.is_black() {
            self.full_moves = self.full_moves + 1;
        }

        // Switch side
        self.active_color = opp_color;
        self.apply_side_zobrist();

        if is_capture || piece == PieceType::Pawn || moove.is_promotion() {
            self.half_moves = 0;
            self.rep_table.clear();
        } else {
            self.half_moves = self.half_moves + 1;
            let h = self.zobrist_hash;
            self.rep_table.push(h);
        }
        proof {
            assert(self.wf()) by {
                assert forall|s: int| 0 <= s < 64 implies #[trigger] self.square_ok(s) by {
                    assert(p6.square_ok(s));
                }
            }
            lemma_board_hash_same(*self, p6);
            assert forall|t: int| 0 <= t < 64 implies #[trigger] self.piece_on(t) == board_after(
                p0,
                moove,
                t,
            ) by {
                assert(p6.piece_on(t) == board_after(p0, moove, t));
                assert(self.piece_on(t) == p6.piece_on(t));
            }
            if h_old == hash_of(p0) {
                let b0 = board_hash(p0);
                let ck0 = castling_key_value(p0.castling_ability.byte as int);
                let cc = color_key(color);
                let e0 = ep_key(p0.enpassant_square.0);
                let h1 = p1.zobrist_hash;
                assert(h1 == (h_old ^ ck0) ^ e0) by {
                    if p0.enpassant_square.0 == 0 {
                        lemma_xor_facts(h_old ^ ck0, 0, 0);
                    }
                }
                assert(x1 == cc) by {
                    lemma_state_keys_removed(h_old, b0, ck0, cc, e0, h1, x1);
                }
                let b6 = board_hash(p6);
                let sd = side_key_value();
                assert(color_key(opp_color) == cc ^ sd) by {
                    lemma_xor_facts(sd, 0, 0);
                    lemma_xor_facts(sd, sd, 0);
                }
                lemma_state_keys_added(x6, h6, b6, e_new, k_new, sd, color_key(opp_color), h7,
                    self.zobrist_hash);
            }
        }
    }
}

impl Move {
    /// The piece kind the move leaves on its destination: the promoted piece of a
    /// promotion, else the piece that moves.
    pub fn piece(&self, pos: &Position) -> (r: PieceType)
        ensures
            r == if is_promo(*self) {
                promotion_of_bits(self.flags() / 4)
            } else {
                moving_piece(*pos, *self)
            },
    {
        if self.is_promotion() {
            self.promotion()
        } else {
            pos.piece_type_at(self.src())
        }
    }
}

impl Position {
    /// Passes the turn: the other side is to move and no en passant capture is
    /// possible; the board, the castling ability and the counters stay.
    pub fn make_null_move(&mut self)
        requires
            old(self).wf(),
        ensures
            final(self).wf(),
            *final(self) == (Position {
                active_color: old(self).active_color.other(),
                enpassant_square: Bitboard(0),
                zobrist_hash: final(self).zobrist_hash,
                ..*old(self)
            }),
            forall|t: int| 0 <= t < 64 ==> #[trigger] final(self).piece_on(t) == old(self).piece_on(t),
            old(self).zobrist_hash == hash_of(*old(self)) ==> final(self).zobrist_hash == hash_of(
                *final(self),
            ),
    {
        let ghost p0 = *self;
        self.active_color = self.active_color.opposite();
        self.apply_side_zobrist();
        let ghost ek: u64 = 0;
        if !self.enpassant_square.is_empty() {
            let e = self.enpassant_square.least_significant();
            proof {
                ek = enpassant_key_value(e as int);
            }
            self.apply_enpassant_zobrist(e);
            self.enpassant_square = Bitboard(0);
        }
        proof {
            assert forall|s: int| 0 <= s < 64 implies #[trigger] self.square_ok(s) by {
                assert(p0.square_ok(s));
            }
            assert forall|t: int| 0 <= t < 64 implies #[trigger] self.piece_on(t) == p0.piece_on(
                t,
            ) by {
                assert(self.piece_squares@[t] == p0.piece_squares@[t]);
            }
            lemma_board_hash_same(*self, p0);
            let b = board_hash(p0);
            let ck = castling_key_value(p0.castling_ability.byte as int);
            let x = color_key(p0.active_color);
            let y = color_key(self.active_color);
            let e = ep_key(p0.enpassant_square.0);
            let sk = side_key_value();
            assert(x ^ sk == y) by {
                lemma_xor_facts(sk, sk, 0);
            }
            assert(e ^ ek == 0) by {
                lemma_xor_facts(e, 0, 0);
            }
            lemma_xor_facts(p0.zobrist_hash ^ sk, 0, 0);
            assert(self.zobrist_hash == p0.zobrist_hash ^ sk ^ ek);
            assert((b ^ ((ck ^ x) ^ e)) ^ sk ^ ek == b ^ ((ck ^ (x ^ sk)) ^ (e ^ ek))) by (bit_vector);
            assert(ep_key(0u64) == 0);
        }
    }
}

/// Playing a move keeps the hash up to date: when the hash of a position is the one
/// computed from scratch, the hash that `make_move` leaves is the one computed from
/// scratch for the position the move leads to.
pub proof fn lemma_make_move_hash(pos: Position, m: Move, next: Position)
    requires
        made(pos, m, next),
        pos.zobrist_hash == hash_of(pos),
    ensures
        next.zobrist_hash == hash_of(next),
{
}

/// Two well-formed positions with the same pieces on every square have the same
/// bitboards, occupancies and piece kinds.
pub proof fn lemma_same_board(q1: Position, q2: Position)
    requires
        q1.wf(),
        q2.wf(),
        forall|t: int| 0 <= t < 64 ==> #[trigger] q1.piece_on(t) == q2.piece_on(t),
    ensures
        q1.bitboards == q2.bitboards,
        q1.color_occupancies == q2.color_occupancies,
        q1.all_occupancies == q2.all_occupancies,
        q1.piece_squares == q2.piece_squares,
{
    broadcast use vstd::array::group_array_axioms;

    assert forall|s: int| 0 <= s < 64 implies {
        &&& q1.piece_squares@[s] == q2.piece_squares@[s]
        &&& bit(q1.all_occupancies.0, s) == bit(q2.all_occupancies.0, s)
        &&& bit(q1.color_occupancies@[0].0, s) == bit(q2.color_occupancies@[0].0, s)
        &&& bit(q1.color_occupancies@[1].0, s) == bit(q2.color_occupancies@[1].0, s)
        &&& forall|i: int| 0 <= i < 12 ==> #[trigger] bit(q1.bitboards@[i].0, s) == bit(q2.bitboards@[i].0, s)
    } by {
        assert(q1.square_ok(s));
        assert(q2.square_ok(s));
        assert(q1.piece_on(s) == q2.piece_on(s));
    }
    assert forall|s: int| 0 <= s < 64 implies #[trigger] bit(q1.color_occupancies@[0].0, s) == bit(
        q2.color_occupancies@[0].0,
        s,
    ) by {
        assert(q1.square_ok(s));
        assert(q2.square_ok(s));
        assert(q1.piece_on(s) == q2.piece_on(s));
    }
    assert forall|s: int| 0 <= s < 64 implies #[trigger] bit(q1.color_occupancies@[1].0, s) == bit(
        q2.color_occupancies@[1].0,
        s,
    ) by {
        assert(q1.square_ok(s));
        assert(q2.square_ok(s));
        assert(q1.piece_on(s) == q2.piece_on(s));
    }
    crate::bits::lemma_bits_ext(q1.all_occupancies.0, q2.all_occupancies.0);
    crate::bits::lemma_bits_ext(q1.color_occupancies@[0].0, q2.color_occupancies@[0].0);
    crate::bits::lemma_bits_ext(q1.color_occupancies@[1].0, q2.color_occupancies@[1].0);
    assert forall|i: int| 0 <= i < 12 implies q1.bitboards[i] == q2.bitboards[i] by {
        assert forall|s: int| 0 <= s < 64 implies #[trigger] bit(q1.bitboards@[i].0, s) == bit(
            q2.bitboards@[i].0,
            s,
        ) by {
            assert(q1.square_ok(s));
            assert(q2.square_ok(s));
            assert(q1.piece_on(s) == q2.piece_on(s));
        }
        crate::bits::lemma_bits_ext(q1.bitboards@[i].0, q2.bitboards@[i].0);
    }
    assert(q1.bitboards =~= q2.bitboards);
    assert forall|i: int| 0 <= i < 2 implies q1.color_occupancies[i] == q2.color_occupancies[i] by {}
    assert(q1.color_occupancies =~= q2.color_occupancies);
    assert forall|i: int| 0 <= i < 64 implies q1.piece_squares[i] == q2.piece_squares[i] by {}
    assert(q1.piece_squares =~= q2.piece_squares);
}

/// From a position whose hash is the one computed from scratch, a move leads to
/// one position only: `made` leaves nothing open.
pub proof fn lemma_made_unique(pos: Position, m: Move, q1: Position, q2: Position)
    requires
        made(pos, m, q1),
        made(pos, m, q2),
        pos.zobrist_hash == hash_of(pos),
    ensures
        q1 == q2,
{
    lemma_same_board(q1, q2);
    lemma_board_hash_same(q1, q2);
    assert(q1.zobrist_hash == q2.zobrist_hash);
    RepetitionTable::lemma_table_eq(q1.rep_table, q2.rep_table);
    assert(q1.castling_ability == q2.castling_ability);
    assert(q1.enpassant_square == q2.enpassant_square);
}

/// The position that move `m` leads to from `pos` (the only one when the hash of
/// `pos` is the one computed from scratch, see `lemma_child`).
pub open spec fn child(pos: Position, m: Move) -> Position {
    choose|q: Position| made(pos, m, q)
}

/// A position that `make_move` leaves is the child, when the hash was up to date.
pub proof fn lemma_child(pos: Position, m: Move, q: Position)
    requires
        made(pos, m, q),
        pos.zobrist_hash == hash_of(pos),
    ensures
        child(pos, m) == q,
        made(pos, m, child(pos, m)),
{
    lemma_made_unique(pos, m, q, child(pos, m));
}

/// A move keeps a castling right only if it neither starts nor ends on the home
/// square of that side's king or of the rook of that right: white king side (bit
/// 1) e1 and h1, white queen side (bit 2) e1 and a1, black king side (bit 4) e8 and
/// h8, black queen side (bit 8) e8 and a8; every other right is kept as it was.
pub proof fn lemma_castling_rights_after_move(pos: Position, m: Move, next: Position)
    requires
        made(pos, m, next),
    ensures
        ({
            let b = pos.castling_ability.byte;
            let nb = next.castling_ability.byte;
            let s = m.from_sq() as int;
            let d = m.to_sq() as int;
            &&& (nb & 1u8 != 0) == (b & 1u8 != 0 && s != 60 && s != 63 && d != 60 && d != 63)
            &&& (nb & 2u8 != 0) == (b & 2u8 != 0 && s != 60 && s != 56 && d != 60 && d != 56)
            &&& (nb & 4u8 != 0) == (b & 4u8 != 0 && s != 4 && s != 7 && d != 4 && d != 7)
            &&& (nb & 8u8 != 0) == (b & 8u8 != 0 && s != 4 && s != 0 && d != 4 && d != 0)
        }),
{
    crate::castling::lemma_rights_after(pos.castling_ability.byte, m.from_sq() as int, m.to_sq() as int);
}

/// Castling moves the rook with the king: white king side takes the rook from h1
/// (63) to f1 (61), white queen side from a1 (56) to d1 (59), black king side from
/// h8 (7) to f8 (5), black queen side from a8 (0) to d8 (3); the king leaves its
/// square for the move's destination.
pub proof fn lemma_castling_moves_rook(pos: Position, m: Move, next: Position)
    requires
        move_sound(pos, m),
        made(pos, m, next),
    ensures
        next.piece_on(m.from_sq() as int) is None,
        next.piece_on(m.to_sq() as int) == Some((pos.active_color, moving_piece(pos, m))) || is_promo(m),
        (m.flags() == 8 && pos.active_color == Color::White) ==> (next.piece_on(63) is None
            && next.piece_on(61) == Some((Color::White, PieceType::Rook))),
        (m.flags() == 12 && pos.active_color == Color::White) ==> (next.piece_on(56) is None
            && next.piece_on(59) == Some((Color::White, PieceType::Rook))),
        (m.flags() == 8 && pos.active_color == Color::Black) ==> (next.piece_on(7) is None
            && next.piece_on(5) == Some((Color::Black, PieceType::Rook))),
        (m.flags() == 12 && pos.active_color == Color::Black) ==> (next.piece_on(0) is None
            && next.piece_on(3) == Some((Color::Black, PieceType::Rook))),
{
    crate::moves::lemma_decode_encode(m.data);
    assert(next.piece_on(m.from_sq() as int) == board_after(pos, m, m.from_sq() as int));
    assert(next.piece_on(m.to_sq() as int) == board_after(pos, m, m.to_sq() as int));
    assert(next.piece_on(63) == board_after(pos, m, 63));
    assert(next.piece_on(61) == board_after(pos, m, 61));
    assert(next.piece_on(56) == board_after(pos, m, 56));
    assert(next.piece_on(59) == board_after(pos, m, 59));
    assert(next.piece_on(7) == board_after(pos, m, 7));
    assert(next.piece_on(5) == board_after(pos, m, 5));
    assert(next.piece_on(0) == board_after(pos, m, 0));
    assert(next.piece_on(3) == board_after(pos, m, 3));
}

} // verus!
