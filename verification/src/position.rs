use vstd::prelude::*;

verus! {

use crate::bits::{bit, group_bit_lemmas, lemma_bits_ext};
use crate::bitboard::{Bitboard, BitUtils};
use crate::castling::CastlingAbility;
use crate::color::Color;
use crate::piece::{PieceType, index_to_piece, piece_of_index};
use crate::repetition::RepetitionTable;
use vstd::std_specs::bits::u64_trailing_zeros;

broadcast use group_bit_lemmas;

/// A chess position: one bitboard per colored piece kind, the occupancy of each
/// color and of both, the piece kind on each square, and the game state.
#[derive(Clone, Copy)]
pub struct Position {
    pub bitboards: [Bitboard; 12],
    pub color_occupancies: [Bitboard; 2],
    pub all_occupancies: Bitboard,
    pub piece_squares: [PieceType; 64],
    pub active_color: Color,
    pub enpassant_square: Bitboard,
    pub castling_ability: CastlingAbility,
    pub full_moves: u16,
    pub half_moves: u8,
    pub zobrist_hash: u64,
    pub rep_table: RepetitionTable,
}

impl Position {
    /// The color of the piece on `s`, read from the white occupancy.
    pub open spec fn color_at(self, s: int) -> Color {
        if bit(self.color_occupancies@[0].0, s) {
            Color::White
        } else {
            Color::Black
        }
    }

    /// The piece on square `s`, if any.
    pub open spec fn piece_on(self, s: int) -> Option<(Color, PieceType)> {
        if self.piece_squares@[s] == PieceType::Empty {
            None
        } else {
            Some((self.color_at(s), self.piece_squares@[s]))
        }
    }

    /// The bitboards, occupancies and piece kinds agree on square `s`.
    pub open spec fn square_ok(self, s: int) -> bool {
        let p = self.piece_squares@[s];
        let w = bit(self.color_occupancies@[0].0, s);
        let b = bit(self.color_occupancies@[1].0, s);
        let a = bit(self.all_occupancies.0, s);
        &&& (p == PieceType::Empty) == !a
        &&& a == (w || b)
        &&& !(w && b)
        &&& forall|i: int|
            0 <= i < 12 ==> #[trigger] bit(self.bitboards@[i].0, s) == (p != PieceType::Empty && i
                == p.index_of(self.color_at(s)))
    }

    pub open spec fn wf(self) -> bool {
        &&& forall|s: int| 0 <= s < 64 ==> #[trigger] self.square_ok(s)
        &&& self.rep_table.wf()
        &&& self.castling_ability.byte < 16
        &&& self.rep_table.length() <= self.half_moves
    }

    /// The squares holding a given colored piece kind.
    pub open spec fn holds(self, s: int, color: Color, piece: PieceType) -> bool {
        self.piece_on(s) == Some((color, piece))
    }

    /// Everything but the board is as in `other`.
    pub open spec fn same_state(self, other: Position) -> bool {
        &&& self.active_color == other.active_color
        &&& self.enpassant_square == other.enpassant_square
        &&& self.castling_ability == other.castling_ability
        &&& self.full_moves == other.full_moves
        &&& self.half_moves == other.half_moves
        &&& self.zobrist_hash == other.zobrist_hash
        &&& self.rep_table == other.rep_table
    }

    /// The board of `self` is that of `other` except on square `s`.
    pub open spec fn same_board_except(self, other: Position, s: int) -> bool {
        forall|t: int| 0 <= t < 64 && t != s ==> #[trigger] self.piece_on(t) == other.piece_on(t)
    }

    /// In a well-formed position, the bitboards say which piece stands on a square.
    pub proof fn lemma_bitboards(self, s: int, i: int)
        requires
            self.wf(),
            0 <= s < 64,
            0 <= i < 12,
        ensures
            bit(self.bitboards@[i].0, s) == (self.piece_on(s) == Some(piece_of_index(i))),
            bit(self.all_occupancies.0, s) == (self.piece_on(s) is Some),
            bit(self.color_occupancies@[0].0, s) == (self.piece_on(s) is Some && (self.piece_on(s)->0).0 == Color::White),
            bit(self.color_occupancies@[1].0, s) == (self.piece_on(s) is Some && (self.piece_on(s)->0).0 == Color::Black),
    {
        assert(self.square_ok(s));
        assert(bit(self.bitboards@[i].0, s) == (self.piece_squares@[s] != PieceType::Empty && i
            == self.piece_squares@[s].index_of(self.color_at(s))));
    }

    /// Changing only the game state keeps the board and its well-formedness.
    pub proof fn lemma_same_board(self, other: Position)
        requires
            self.bitboards == other.bitboards,
            self.color_occupancies == other.color_occupancies,
            self.all_occupancies == other.all_occupancies,
            self.piece_squares == other.piece_squares,
            self.rep_table == other.rep_table,
            self.half_moves == other.half_moves,
            self.castling_ability == other.castling_ability,
        ensures
            self.wf() == other.wf(),
            forall|t: int| #[trigger] self.piece_on(t) == other.piece_on(t),
    {
        assert forall|s: int|
            #![trigger self.square_ok(s)]
            #![trigger other.square_ok(s)]
            self.square_ok(s) == other.square_ok(s) by {}
    }

    pub fn piece_type_at(&self, square: u8) -> (r: PieceType)
        requires
            square < 64,
        ensures
            r == self.piece_squares@[square as int],
            self.wf() ==> (r == PieceType::Empty <==> self.piece_on(square as int) is None),
            self.wf() && r != PieceType::Empty ==> self.piece_on(square as int) == Some(
                (self.color_at(square as int), r),
            ),
    {
        self.piece_squares[square as usize]
    }

    /// The color and kind of the piece on a square, found in the piece bitboards.
    pub fn piece_at(&self, square: u8) -> (r: Option<(Color, PieceType)>)
        requires
            self.wf(),
            square < 64,
        ensures
            r == self.piece_on(square as int),
    {
        let mut p: usize = 0;
        while p < 12
            invariant
                self.wf(),
                square < 64,
                0 <= p <= 12,
                forall|q: int| 0 <= q < p ==> !#[trigger] bit(self.bitboards@[q].0, square as int),
            decreases 12 - p,
        {
            if self.bitboards[p].get_bit(square) {
                proof {
                    self.lemma_bitboards(square as int, p as int);
                }
                return Some(index_to_piece(p));
            }
            p = p + 1;
        }
        proof {
            assert(self.square_ok(square as int));
            if self.piece_squares@[square as int] != PieceType::Empty {
                let i = self.piece_squares@[square as int].index_of(self.color_at(square as int));
                assert(bit(self.bitboards@[i].0, square as int));
            }
        }
        None
    }

    /// The bitboard of a colored piece kind.
    pub fn bb(&self, color: Color, piece_type: PieceType) -> (r: Bitboard)
        requires
            piece_type != PieceType::Empty,
        ensures
            r == self.bitboards@[piece_type.index_of(color)],
            self.wf() ==> forall|s: int|
                0 <= s < 64 ==> #[trigger] bit(r.0, s) == self.holds(s, color, piece_type),
    {
        let r = self.bitboards[piece_type.index(color)];
        proof {
            if self.wf() {
                assert forall|s: int| 0 <= s < 64 implies #[trigger] bit(r.0, s) == self.holds(
                    s,
                    color,
                    piece_type,
                ) by {
                    self.lemma_bitboards(s, piece_type.index_of(color));
                }
            }
        }
        r
    }

    /// The squares of the pieces of a color.
    pub fn color_bb(&self, color: Color) -> (r: Bitboard)
        ensures
            r == self.color_occupancies@[color.num()],
            self.wf() ==> forall|s: int|
                0 <= s < 64 ==> #[trigger] bit(r.0, s) == (self.piece_on(s) is Some && (self.piece_on(s)->0).0 == color),
    {
        let r = self.color_occupancies[color.index()];
        proof {
            if self.wf() {
                assert forall|s: int| 0 <= s < 64 implies #[trigger] bit(r.0, s) == (self.piece_on(
                    s,
                ) is Some && (self.piece_on(s)->0).0 == color) by {
                    self.lemma_bitboards(s, 0);
                }
            }
        }
        r
    }

    /// Puts a piece on an empty square.
    pub fn place_piece(&mut self, color: Color, piece_type: PieceType, square: u8)
        requires
            old(self).wf(),
            square < 64,
            piece_type != PieceType::Empty,
            old(self).piece_on(square as int) is None,
        ensures
            final(self).wf(),
            final(self).piece_on(square as int) == Some((color, piece_type)),
            final(self).same_board_except(*old(self), square as int),
            final(self).same_state(*old(self)),
    {
        let ghost old_pos = *self;
        let idx = piece_type.index(color);
        let ci = color.index();
        let mut b = self.bitboards[idx];
        b.set_bit(square);
        self.bitboards[idx] = b;
        let mut c = self.color_occupancies[ci];
        c.set_bit(square);
        self.color_occupancies[ci] = c;
        self.all_occupancies.set_bit(square);
        self.piece_squares[square as usize] = piece_type;
        proof {
            let s = square as int;
            assert(old_pos.square_ok(s));
            assert(self.color_at(s) == color);
            assert forall|t: int| 0 <= t < 64 implies #[trigger] self.square_ok(t) by {
                assert(old_pos.square_ok(t));
                if t != s {
                    assert(self.color_at(t) == old_pos.color_at(t));
                    assert forall|i: int| 0 <= i < 12 implies #[trigger] bit(
                        self.bitboards@[i].0,
                        t,
                    ) == bit(old_pos.bitboards@[i].0, t) by {}
                } else {
                    assert forall|i: int| 0 <= i < 12 implies #[trigger] bit(
                        self.bitboards@[i].0,
                        t,
                    ) == (i == piece_type.index_of(color)) by {
                        assert(!bit(old_pos.bitboards@[i].0, t));
                    }
                }
            }
            assert forall|t: int| 0 <= t < 64 && t != s implies #[trigger] self.piece_on(t)
                == old_pos.piece_on(t) by {
                assert(self.color_at(t) == old_pos.color_at(t));
            }
        }
    }

    /// Takes a piece off its square.
    pub fn remove_piece(&mut self, color: Color, piece_type: PieceType, square: u8)
        requires
            old(self).wf(),
            square < 64,
            old(self).piece_on(square as int) == Some((color, piece_type)),
        ensures
            final(self).wf(),
            final(self).piece_on(square as int) is None,
            final(self).same_board_except(*old(self), square as int),
            final(self).same_state(*old(self)),
    {
        let ghost old_pos = *self;
        let idx = piece_type.index(color);
        let ci = color.index();
        let mut b = self.bitboards[idx];
        b.unset_bit(square);
        self.bitboards[idx] = b;
        let mut c = self.color_occupancies[ci];
        c.unset_bit(square);
        self.color_occupancies[ci] = c;
        self.all_occupancies.unset_bit(square);
        self.piece_squares[square as usize] = PieceType::Empty;
        proof {
            let s = square as int;
            assert(old_pos.square_ok(s));
            assert forall|t: int| 0 <= t < 64 implies #[trigger] self.square_ok(t) by {
                assert(old_pos.square_ok(t));
                if t != s {
                    assert(self.color_at(t) == old_pos.color_at(t));
                    assert forall|i: int| 0 <= i < 12 implies #[trigger] bit(
                        self.bitboards@[i].0,
                        t,
                    ) == bit(old_pos.bitboards@[i].0, t) by {}
                } else {
                    assert forall|i: int| 0 <= i < 12 implies !#[trigger] bit(
                        self.bitboards@[i].0,
                        t,
                    ) by {
                        if i != idx {
                            assert(!bit(old_pos.bitboards@[i].0, t));
                        }
                    }
                }
            }
            assert forall|t: int| 0 <= t < 64 && t != s implies #[trigger] self.piece_on(t)
                == old_pos.piece_on(t) by {
                assert(self.color_at(t) == old_pos.color_at(t));
            }
        }
    }

    /// The square of the king of a color (the lowest one if there are several); 64
    /// when there is none.
    pub fn king_position(&self, color: Color) -> (r: u8)
        ensures
            r == u64_trailing_zeros(self.bitboards@[PieceType::King.index_of(color)].0),
            self.wf() && r < 64 ==> self.holds(r as int, color, PieceType::King),
            self.wf() && r < 64 ==> forall|s: int|
                0 <= s < r ==> !#[trigger] self.holds(s, color, PieceType::King),
            self.wf() && r == 64 ==> forall|s: int|
                0 <= s < 64 ==> !#[trigger] self.holds(s, color, PieceType::King),
    {
        let b = self.bb(color, PieceType::King);
        let r = b.least_significant();
        proof {
            if self.wf() && r < 64 {
                assert forall|s: int| 0 <= s < r implies !#[trigger] self.holds(
                    s,
                    color,
                    PieceType::King,
                ) by {
                    assert(!b.has(s));
                }
            }
            if self.wf() && r == 64 {
                assert forall|s: int| 0 <= s < 64 implies !#[trigger] self.holds(
                    s,
                    color,
                    PieceType::King,
                ) by {
                    assert(!b.has(s));
                }
            }
        }
        r
    }
}

} // verus!
