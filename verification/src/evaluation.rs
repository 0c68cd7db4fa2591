use vstd::prelude::*;

verus! {

use crate::attacks::{
    abs, knight_attacks, king_attacks, hv_attacks, d12_attacks, king_target, piece_attack,
};
use crate::bits::{
    bit, row, col, popcount, count_true, lemma_count_true_same, lemma_popcount_count,
    group_bit_lemmas,
};
use crate::bitboard::Bitboard;
use crate::color::Color;
use crate::lines::file_mask;
use crate::piece::PieceType;
use crate::position::Position;

// Piece-square tables, from white's point of view: index 0 is a8, 63 is h1.
const PAWN_SCORES: [i16; 64] = [
    90, 90, 90, 90, 90, 90, 90, 90,
    30, 30, 30, 40, 40, 30, 30, 30,
    20, 20, 20, 30, 30, 30, 20, 20,
    10, 10, 10, 20, 20, 10, 10, 10,
    5, 5, 10, 20, 20, 5, 5, 5,
    0, 0, 0, 5, 5, 0, 0, 0,
    0, 0, 0, -10, -10, 0, 0, 0,
    0, 0, 0, 0, 0, 0, 0, 0,
];

const KNIGHT_SCORES: [i16; 64] = [
    -5, 0, 0, 0, 0, 0, 0, -5,
    -5, 0, 0, 10, 10, 0, 0, -5,
    -5, 5, 20, 20, 20, 20, 5, -5,
    -5, 10, 20, 30, 30, 20, 10, -5,
    -5, 10, 20, 30, 30, 20, 10, -5,
    -5, 5, 20, 10, 10, 20, 5, -5,
    -5, 0, 0, 0, 0, 0, 0, -5,
    -5, -10, 0, 0, 0, 0, -10, -5,
];

const BISHOP_SCORES: [i16; 64] = [
    0, 0, 0, 0, 0, 0, 0, 0,
    0, 0, 0, 0, 0, 0, 0, 0,
    0, 0, 0, 10, 10, 0, 0, 0,
    0, 0, 10, 20, 20, 10, 0, 0,
    0, 0, 10, 20, 20, 10, 0, 0,
    0, 10, 0, 0, 0, 0, 10, 0,
    0, 30, 0, 0, 0, 0, 30, 0,
    0, 0, -10, 0, 0, -10, 0, 0,
];

const ROOK_SCORES: [i16; 64] = [
    0, 0, 0, 0, 0, 0, 0, 0,
    5, 10, 10, 10, 10, 10, 10, 5,
    -5, 0, 0, 0, 0, 0, 0, -5,
    -5, 0, 0, 0, 0, 0, 0, -5,
    -5, 0, 0, 0, 0, 0, 0, -5,
    -5, 0, 0, 0, 0, 0, 0, -5,
    -5, 0, 0, 0, 0, 0, 0, -5,
    0, 0, 5, 10, 10, 5, 0, 0,
];

const QUEEN_SCORES: [i16; 64] = [
    -20, -10, -10, -5, -5, -10, -10, -20,
    -10, 0, 0, 0, 0, 0, 0, -10,
    -10, 0, 5, 5, 5, 5, 0, -10,
    -5, 0, 5, 5, 5, 5, 0, -5,
    0, 0, 5, 5, 5, 5, 0, -5,
    -10, 5, 5, 5, 5, 5, 0, -10,
    -10, 0, 5, 0, 0, 0, 0, -10,
    -20, -10, -10, -5, -5, -10, -10, -20,
];

const KING_SCORES: [i16; 64] = [
    0, 0, 0, 0, 0, 0, 0, 0,
    0, 0, 5, 5, 5, 5, 0, 0,
    0, 5, 5, 10, 10, 5, 5, 0,
    0, 5, 10, 20, 20, 10, 5, 0,
    0, 5, 10, 20, 20, 10, 5, 0,
    0, 0, 5, 10, 10, 5, 0, 0,
    0, 5, 5, -5, -5, 0, 5, 0,
    0, 0, 5, 0, -15, 0, 10, 0,
];

/// The bonus of a passed pawn by how far it has advanced.
const PASSED_PAWN_BONUS: [i16; 8] = [0, 10, 30, 50, 75, 100, 150, 200];

const STACKED_PAWN_PENALTY: i32 = 10;

const ISOLATED_PAWN_PENALTY: i32 = 10;

const SEMI_OPEN_FILE_BONUS: i32 = 10;

const OPEN_FILE_BONUS: i32 = 15;

const PROTECTED_KING_BONUS: i32 = 5;

/// The material worth of a piece kind, in centipawns.
pub open spec fn material(p: PieceType) -> int {
    match p {
        PieceType::Pawn => 100,
        PieceType::Knight => 320,
        PieceType::Bishop => 360,
        PieceType::Rook => 520,
        PieceType::Queen => 1000,
        PieceType::King => 0,
        PieceType::Empty => 0,
    }
}

/// The piece-square bonus of a piece kind at table index `i`.
pub closed spec fn pst(p: PieceType, i: int) -> int {
    match p {
        PieceType::Pawn => PAWN_SCORES[i] as int,
        PieceType::Knight => KNIGHT_SCORES[i] as int,
        PieceType::Bishop => BISHOP_SCORES[i] as int,
        PieceType::Rook => ROOK_SCORES[i] as int,
        PieceType::Queen => QUEEN_SCORES[i] as int,
        PieceType::King => KING_SCORES[i] as int,
        PieceType::Empty => 0,
    }
}

/// The bonus of a passed pawn that has advanced `adv` ranks.
pub closed spec fn passed_bonus(adv: int) -> int {
    PASSED_PAWN_BONUS[adv] as int
}

/// The square that `s` is for the other side: the same file, the rank mirrored.
pub open spec fn mirror(s: int) -> int {
    (7 - row(s)) * 8 + col(s)
}

/// The table index of square `s` for a piece of `c`.
pub open spec fn table_index(c: Color, s: int) -> int {
    match c {
        Color::White => s,
        Color::Black => mirror(s),
    }
}

/// A piece of kind `p` and color `c` stands on `t`.
pub open spec fn has_piece(pos: Position, t: int, c: Color, p: PieceType) -> bool {
    pos.piece_on(t) == Some((c, p))
}

/// A piece of color `c` stands on `t`.
pub open spec fn own_piece(pos: Position, c: Color, t: int) -> bool {
    pos.piece_on(t) is Some && (pos.piece_on(t)->0).0 == c
}

/// The pawns of `c` on file `f`.
pub open spec fn pawns_on_file(pos: Position, c: Color, f: int) -> nat {
    count_true(|t: int| has_piece(pos, t, c, PieceType::Pawn) && col(t) == f, 64)
}

/// The pawns of `c` on the files next to that of `s`.
pub open spec fn neighbour_pawns(pos: Position, c: Color, s: int) -> nat {
    count_true(
        |t: int| has_piece(pos, t, c, PieceType::Pawn) && abs(col(t) - col(s)) == 1,
        64,
    )
}

/// `t` lies nearer to the far side than `s`, from `c`'s point of view.
pub open spec fn ahead(c: Color, s: int, t: int) -> bool {
    match c {
        Color::White => row(t) < row(s),
        Color::Black => row(t) > row(s),
    }
}

/// The enemy pawns that can stop a pawn of `c` on `s`: on its file or the files
/// next to it, ahead of it.
pub open spec fn stoppers(pos: Position, c: Color, s: int) -> nat {
    count_true(
        |t: int|
            has_piece(pos, t, c.other(), PieceType::Pawn) && abs(col(t) - col(s)) <= 1 && ahead(
                c,
                s,
                t,
            ),
        64,
    )
}

/// How many ranks a pawn of `c` on `s` has advanced.
pub open spec fn advance(c: Color, s: int) -> int {
    match c {
        Color::White => 7 - row(s),
        Color::Black => row(s),
    }
}

/// The squares a piece attacks that hold no piece of its own color.
pub open spec fn mobility(pos: Position, c: Color, p: PieceType, s: int) -> nat {
    count_true(
        |t: int| piece_attack(s, c, p, pos.all_occupancies.0, t) && !own_piece(pos, c, t),
        64,
    )
}

/// The pieces of its own color around a king of `c` on `s`.
pub open spec fn king_cover(pos: Position, c: Color, s: int) -> nat {
    count_true(|t: int| king_target(s, t) && own_piece(pos, c, t), 64)
}

/// The file of `s` holds no pawn of `c`.
pub open spec fn semi_open(pos: Position, c: Color, s: int) -> bool {
    pawns_on_file(pos, c, col(s)) == 0
}

/// The file of `s` holds no pawn at all.
pub open spec fn open_file(pos: Position, s: int) -> bool {
    semi_open(pos, Color::White, s) && semi_open(pos, Color::Black, s)
}

/// The positional score of a piece of kind `p` and color `c` on `s`, from its own
/// side's point of view.
pub open spec fn piece_score(pos: Position, c: Color, p: PieceType, s: int) -> int {
    let i = table_index(c, s);
    match p {
        PieceType::Pawn => pst(p, i) - (pawns_on_file(pos, c, col(s)) - 1) * 10 - (if neighbour_pawns(
            pos,
            c,
            s,
        ) == 0 {
            10int
        } else {
            0int
        }) + (if stoppers(pos, c, s) == 0 {
            passed_bonus(advance(c, s))
        } else {
            0int
        }),
        PieceType::Knight => pst(p, i) + mobility(pos, c, p, s),
        PieceType::Bishop => pst(p, i) + mobility(pos, c, p, s),
        PieceType::Rook => pst(p, i) + (if semi_open(pos, c, s) {
            10int
        } else {
            0int
        }) + (if open_file(pos, s) {
            15int
        } else {
            0int
        }) + mobility(pos, c, p, s),
        PieceType::Queen => pst(p, i) + mobility(pos, c, p, s),
        PieceType::King => pst(p, i) - (if semi_open(pos, c, s) {
            10int
        } else {
            0int
        }) - (if open_file(pos, s) {
            15int
        } else {
            0int
        }) + 5 * king_cover(pos, c, s),
        PieceType::Empty => 0,
    }
}

/// What the piece on `s` adds to the score from white's point of view.
pub open spec fn square_score(pos: Position, s: int) -> int {
    match pos.piece_on(s) {
        None => 0,
        Some((c, p)) => {
            let v = material(p) + piece_score(pos, c, p, s);
            match c {
                Color::White => v,
                Color::Black => -v,
            }
        },
    }
}

/// The score of the pieces on the squares below `n`, from white's point of view.
pub open spec fn board_score(pos: Position, n: int) -> int
    decreases n,
{
    if n <= 0 {
        0
    } else {
        board_score(pos, n - 1) + square_score(pos, n - 1)
    }
}

/// The static evaluation of a position from the point of view of the side to move.
pub open spec fn evaluation(pos: Position) -> int {
    match pos.active_color {
        Color::White => board_score(pos, 64),
        Color::Black => -board_score(pos, 64),
    }
}

/// Counts the squares whose bit is set, given the predicate the bits stand for.
fn count_where(x: u64, Ghost(p): Ghost<spec_fn(int) -> bool>) -> (r: u32)
    requires
        forall|t: int| 0 <= t < 64 ==> #[trigger] bit(x, t) == p(t),
    ensures
        r == count_true(p, 64),
        r <= 64,
{
    proof {
        lemma_popcount_count(x);
        lemma_count_true_same(|t: int| bit(x, t), p, 64);
        crate::bitboard::lemma_popcount_le_64(x);
    }
    Bitboard(x).count()
}

/// The squares on the files next to that of `s`.
fn neighbour_files_mask(s: u8) -> (r: u64)
    requires
        s < 64,
    ensures
        forall|t: int| #[trigger] bit(r, t) == (0 <= t < 64 && abs(col(t) - col(s as int)) == 1),
{
    broadcast use group_bit_lemmas;

    let c = s % 8;
    let left: u64 = if c > 0 {
        file_mask(s - 1)
    } else {
        0
    };
    let right: u64 = if c < 7 {
        file_mask(s + 1)
    } else {
        0
    };
    left | right
}

/// The squares ahead of `s` from `c`'s point of view.
fn ahead_mask(c: Color, s: u8) -> (r: u64)
    requires
        s < 64,
    ensures
        forall|t: int| #[trigger] bit(r, t) == (0 <= t < 64 && ahead(c, s as int, t)),
{
    broadcast use group_bit_lemmas;

    let r = (s / 8) as u64;
    match c {
        Color::White => {
            if r == 0 {
                0
            } else {
                let k: u64 = 8 * r;
                assert((1u64 << k) > 0) by (bit_vector)
                    requires
                        k < 64,
                ;
                let m = (1u64 << k) - 1;
                assert forall|t: int| #[trigger] bit(m, t) == (0 <= t < 64 && ahead(c, s as int, t))
                    by {
                    if 0 <= t < 64 {
                        let tt = t as u64;
                        assert(((((1u64 << k) - 1) as u64 >> tt) & 1u64 == 1u64) <==> tt < k)
                            by (bit_vector)
                            requires
                                0 < k < 64,
                                tt < 64,
                        ;
                    }
                }
                m
            }
        },
        Color::Black => {
            if r == 7 {
                0
            } else {
                let k: u64 = 8 * (r + 1);
                assert((1u64 << k) > 0) by (bit_vector)
                    requires
                        k < 64,
                ;
                let m = !((1u64 << k) - 1);
                assert forall|t: int| #[trigger] bit(m, t) == (0 <= t < 64 && ahead(c, s as int, t))
                    by {
                    if 0 <= t < 64 {
                        let tt = t as u64;
                        assert((((!(((1u64 << k) - 1) as u64)) >> tt) & 1u64 == 1u64) <==> tt >= k)
                            by (bit_vector)
                            requires
                                0 < k < 64,
                                tt < 64,
                        ;
                    }
                }
                m
            }
        },
    }
}

impl Position {
    /// The number of pieces of a kind on the board, of both colors.
    pub fn count_pieces(&self, piece: PieceType) -> (r: i16)
        requires
            piece != PieceType::Empty,
        ensures
            r == popcount(self.bitboards@[piece.index_of(Color::White)].0) + popcount(
                self.bitboards@[piece.index_of(Color::Black)].0,
            ),
    {
        let w = self.bb(Color::White, piece);
        let b = self.bb(Color::Black, piece);
        proof {
            crate::bitboard::lemma_popcount_le_64(w.0);
            crate::bitboard::lemma_popcount_le_64(b.0);
        }
        (w.count() + b.count()) as i16
    }

    /// The bitboard of the pawns of `c`.
    fn pawn_bb(&self, c: Color) -> (r: u64)
        requires
            self.wf(),
        ensures
            forall|t: int| #[trigger] bit(r, t) == (0 <= t < 64 && has_piece(*self, t, c, PieceType::Pawn)),
    {
        let i = PieceType::Pawn.index(c);
        let r = self.bitboards[i].0;
        assert forall|t: int| #[trigger] bit(r, t) == (0 <= t < 64 && has_piece(
            *self,
            t,
            c,
            PieceType::Pawn,
        )) by {
            if 0 <= t < 64 {
                self.lemma_bitboards(t, i as int);
            } else {
                broadcast use group_bit_lemmas;

                assert(!bit(r, t));
            }
        }
        r
    }

    /// The bitboard of the pieces of `c`.
    fn own_bb(&self, c: Color) -> (r: u64)
        requires
            self.wf(),
        ensures
            forall|t: int| #[trigger] bit(r, t) == (0 <= t < 64 && own_piece(*self, c, t)),
    {
        let r = self.color_occupancies[c.index()].0;
        assert forall|t: int| #[trigger] bit(r, t) == (0 <= t < 64 && own_piece(*self, c, t)) by {
            if 0 <= t < 64 {
                self.lemma_bitboards(t, 0);
            } else {
                assert(!bit(r, t));
            }
        }
        r
    }
}

/// The piece-square bonus of a piece kind at a table index.
fn pst_value(p: PieceType, i: usize) -> (r: i32)
    requires
        i < 64,
    ensures
        r == pst(p, i as int),
{
    match p {
        PieceType::Pawn => PAWN_SCORES[i] as i32,
        PieceType::Knight => KNIGHT_SCORES[i] as i32,
        PieceType::Bishop => BISHOP_SCORES[i] as i32,
        PieceType::Rook => ROOK_SCORES[i] as i32,
        PieceType::Queen => QUEEN_SCORES[i] as i32,
        PieceType::King => KING_SCORES[i] as i32,
        PieceType::Empty => 0,
    }
}

/// The piece-square bonus lies within the range of its table entries.
proof fn lemma_pst_bounds(p: PieceType, i: int)
    ensures
        -32768 <= pst(p, i) <= 32767,
{
}

proof fn lemma_passed_bonus_bounds(adv: int)
    ensures
        -32768 <= passed_bonus(adv) <= 32767,
{
}

impl Position {
    /// The pawns of `c` on the file of `s`.
    fn file_pawn_count(&self, c: Color, s: u8) -> (r: u32)
        requires
            self.wf(),
            s < 64,
        ensures
            r == pawns_on_file(*self, c, col(s as int)),
            r <= 64,
    {
        broadcast use group_bit_lemmas;

        let x = self.pawn_bb(c) & file_mask(s);
        count_where(
            x,
            Ghost(|t: int| has_piece(*self, t, c, PieceType::Pawn) && col(t) == col(s as int)),
        )
    }

    /// The pawns of `c` on the files next to that of `s`.
    fn neighbour_pawn_count(&self, c: Color, s: u8) -> (r: u32)
        requires
            self.wf(),
            s < 64,
        ensures
            r == neighbour_pawns(*self, c, s as int),
            r <= 64,
    {
        broadcast use group_bit_lemmas;

        let x = self.pawn_bb(c) & neighbour_files_mask(s);
        count_where(
            x,
            Ghost(
                |t: int|
                    has_piece(*self, t, c, PieceType::Pawn) && abs(col(t) - col(s as int)) == 1,
            ),
        )
    }

    /// The enemy pawns that can stop a pawn of `c` on `s`.
    fn stopper_count(&self, c: Color, s: u8) -> (r: u32)
        requires
            self.wf(),
            s < 64,
        ensures
            r == stoppers(*self, c, s as int),
            r <= 64,
    {
        broadcast use group_bit_lemmas;

        let x = self.pawn_bb(c.opposite()) & (file_mask(s) | neighbour_files_mask(s)) & ahead_mask(
            c,
            s,
        );
        count_where(
            x,
            Ghost(
                |t: int|
                    has_piece(*self, t, c.other(), PieceType::Pawn) && abs(col(t) - col(s as int))
                        <= 1 && ahead(c, s as int, t),
            ),
        )
    }

    /// The squares a knight, bishop, rook or queen of `c` on `s` attacks that hold
    /// no piece of `c`.
    fn mobility_count(&self, c: Color, p: PieceType, s: u8) -> (r: u32)
        requires
            self.wf(),
            s < 64,
            p == PieceType::Knight || p == PieceType::Bishop || p == PieceType::Rook || p
                == PieceType::Queen,
        ensures
            r == mobility(*self, c, p, s as int),
            r <= 64,
    {
        broadcast use group_bit_lemmas;

        let occ = self.all_occupancies;
        let attacks = match p {
            PieceType::Knight => knight_attacks(s),
            PieceType::Bishop => d12_attacks(s, occ),
            PieceType::Rook => hv_attacks(s, occ),
            _ => d12_attacks(s, occ) | hv_attacks(s, occ),
        };
        let x = attacks & !self.own_bb(c);
        count_where(
            x,
            Ghost(|t: int| piece_attack(s as int, c, p, occ.0, t) && !own_piece(*self, c, t)),
        )
    }

    /// The pieces of `c` around a king of `c` on `s`.
    fn cover_count(&self, c: Color, s: u8) -> (r: u32)
        requires
            self.wf(),
            s < 64,
        ensures
            r == king_cover(*self, c, s as int),
            r <= 64,
    {
        broadcast use group_bit_lemmas;

        let x = king_attacks(s) & self.own_bb(c);
        count_where(x, Ghost(|t: int| king_target(s as int, t) && own_piece(*self, c, t)))
    }

    /// The positional score of the piece of kind `p` and color `c` on `s`.
    fn score_piece(&self, c: Color, p: PieceType, s: u8) -> (r: i32)
        requires
            self.wf(),
            s < 64,
            p != PieceType::Empty,
        ensures
            r == piece_score(*self, c, p, s as int),
            -66300 <= r <= 66300,
    {
        let i: usize = match c {
            Color::White => s as usize,
            Color::Black => ((7 - s / 8) * 8 + s % 8) as usize,
        };
        let bonus = pst_value(p, i);
        proof {
            lemma_pst_bounds(p, i as int);
        }
        match p {
            PieceType::Pawn => {
                let stacked = self.file_pawn_count(c, s) as i32;
                let isolated: i32 = if self.neighbour_pawn_count(c, s) == 0 {
                    ISOLATED_PAWN_PENALTY
                } else {
                    0
                };
                let passed: i32 = if self.stopper_count(c, s) == 0 {
                    let adv: usize = match c {
                        Color::White => 7 - (s / 8) as usize,
                        Color::Black => (s / 8) as usize,
                    };
                    proof {
                        lemma_passed_bonus_bounds(adv as int);
                    }
                    PASSED_PAWN_BONUS[adv] as i32
                } else {
                    0
                };
                bonus - (stacked - 1) * STACKED_PAWN_PENALTY - isolated + passed
            },
            PieceType::Rook => {
                let own = self.file_pawn_count(c, s);
                let semi: i32 = if own == 0 {
                    SEMI_OPEN_FILE_BONUS
                } else {
                    0
                };
                let open: i32 = if own == 0 && self.file_pawn_count(c.opposite(), s) == 0 {
                    OPEN_FILE_BONUS
                } else {
                    0
                };
                proof {
                    if c == Color::Black {
                        assert(c.other().other() == c);
                    }
                }
                bonus + semi + open + self.mobility_count(c, p, s) as i32
            },
            PieceType::King => {
                let own = self.file_pawn_count(c, s);
                let semi: i32 = if own == 0 {
                    SEMI_OPEN_FILE_BONUS
                } else {
                    0
                };
                let open: i32 = if own == 0 && self.file_pawn_count(c.opposite(), s) == 0 {
                    OPEN_FILE_BONUS
                } else {
                    0
                };
                bonus - semi - open + self.cover_count(c, s) as i32 * PROTECTED_KING_BONUS
            },
            _ => bonus + self.mobility_count(c, p, s) as i32,
        }
    }

    /// The static evaluation of the position in centipawns, from the point of view
    /// of the side to move: material, piece-square tables, pawn structure, open
    /// files, mobility and king cover. The sum is kept in 16 bits, wrapping as the
    /// arithmetic of that width does.
    pub fn evaluate(&self) -> (r: i16)
        requires
            self.wf(),
        ensures
            r == evaluation(*self) as i16,
            -32768 <= evaluation(*self) <= 32767 ==> r == evaluation(*self),
    {
        let mut score: i32 = 0;
        let mut s: u8 = 0;
        while s < 64
            invariant
                s <= 64,
                self.wf(),
                score == board_score(*self, s as int),
                -67300 * s <= score <= 67300 * s,
            decreases 64 - s,
        {
            let p = self.piece_type_at(s);
            if p != PieceType::Empty {
                let c = if self.color_occupancies[0].0 & (1u64 << s) != 0 {
                    Color::White
                } else {
                    Color::Black
                };
                proof {
                    let x = self.color_occupancies@[0].0;
                    assert((x & (1u64 << s) != 0) == ((x >> (s as u64)) & 1u64 == 1u64))
                        by (bit_vector)
                        requires
                            s < 64,
                    ;
                    assert(c == self.color_at(s as int));
                    assert(self.piece_on(s as int) == Some((c, p)));
                }
                let m: i32 = match p {
                    PieceType::Pawn => 100,
                    PieceType::Knight => 320,
                    PieceType::Bishop => 360,
                    PieceType::Rook => 520,
                    PieceType::Queen => 1000,
                    _ => 0,
                };
                let v = m + self.score_piece(c, p, s);
                match c {
                    Color::White => {
                        score = score + v;
                    },
                    Color::Black => {
                        score = score - v;
                    },
                }
            }
            s = s + 1;
        }
        let total = match self.active_color {
            Color::White => score,
            Color::Black => -score,
        };
        total as i16
    }
}


/// The same board counts the same, square by square, whatever the rest of the
/// position holds.
proof fn lemma_square_score_same(p: Position, q: Position, s: int)
    requires
        p.piece_squares == q.piece_squares,
        p.color_occupancies == q.color_occupancies,
        p.all_occupancies == q.all_occupancies,
    ensures
        square_score(p, s) == square_score(q, s),
{
    assert forall|t: int| #[trigger] p.piece_on(t) == q.piece_on(t) by {}
    assert forall|c: Color, f: int| #[trigger] pawns_on_file(p, c, f) == pawns_on_file(q, c, f) by {
        lemma_count_true_same(
            |t: int| has_piece(p, t, c, PieceType::Pawn) && col(t) == f,
            |t: int| has_piece(q, t, c, PieceType::Pawn) && col(t) == f,
            64,
        );
    }
    assert forall|c: Color, x: int| #[trigger] neighbour_pawns(p, c, x) == neighbour_pawns(q, c, x) by {
        lemma_count_true_same(
            |t: int| has_piece(p, t, c, PieceType::Pawn) && abs(col(t) - col(x)) == 1,
            |t: int| has_piece(q, t, c, PieceType::Pawn) && abs(col(t) - col(x)) == 1,
            64,
        );
    }
    assert forall|c: Color, x: int| #[trigger] stoppers(p, c, x) == stoppers(q, c, x) by {
        lemma_count_true_same(
            |t: int| has_piece(p, t, c.other(), PieceType::Pawn) && abs(col(t) - col(x)) <= 1 && ahead(c, x, t),
            |t: int| has_piece(q, t, c.other(), PieceType::Pawn) && abs(col(t) - col(x)) <= 1 && ahead(c, x, t),
            64,
        );
    }
    assert forall|c: Color, k: PieceType, x: int| #[trigger] mobility(p, c, k, x) == mobility(q, c, k, x) by {
        lemma_count_true_same(
            |t: int| piece_attack(x, c, k, p.all_occupancies.0, t) && !own_piece(p, c, t),
            |t: int| piece_attack(x, c, k, q.all_occupancies.0, t) && !own_piece(q, c, t),
            64,
        );
    }
    assert forall|c: Color, x: int| #[trigger] king_cover(p, c, x) == king_cover(q, c, x) by {
        lemma_count_true_same(
            |t: int| king_target(x, t) && own_piece(p, c, t),
            |t: int| king_target(x, t) && own_piece(q, c, t),
            64,
        );
    }
}

proof fn lemma_board_score_same(p: Position, q: Position, n: int)
    requires
        p.piece_squares == q.piece_squares,
        p.color_occupancies == q.color_occupancies,
        p.all_occupancies == q.all_occupancies,
    ensures
        board_score(p, n) == board_score(q, n),
    decreases n,
{
    if n > 0 {
        lemma_board_score_same(p, q, n - 1);
        lemma_square_score_same(p, q, n - 1);
    }
}

/// The evaluation speaks for the side to move: the same board with the other side
/// to move evaluates to the opposite score.
pub proof fn lemma_evaluation_side_to_move(p: Position, q: Position)
    requires
        p.piece_squares == q.piece_squares,
        p.color_occupancies == q.color_occupancies,
        p.all_occupancies == q.all_occupancies,
        p.active_color != q.active_color,
    ensures
        evaluation(p) == -evaluation(q),
{
    lemma_board_score_same(p, q, 64);
}


/// A square and its mirror share the file and take mirrored ranks; mirroring
/// twice gives the square back.
proof fn lemma_mirror_square(x: int)
    requires
        0 <= x < 64,
    ensures
        0 <= mirror(x) < 64,
        row(mirror(x)) == 7 - row(x),
        col(mirror(x)) == col(x),
        mirror(mirror(x)) == x,
{
}

/// One when `b` holds, else zero.
spec fn one_if(b: bool) -> nat {
    if b {
        1
    } else {
        0
    }
}

/// How often `f` holds on row `r`.
spec fn row_count(f: spec_fn(int) -> bool, r: int) -> nat {
    one_if(f(8 * r)) + one_if(f(8 * r + 1)) + one_if(f(8 * r + 2)) + one_if(f(8 * r + 3)) + one_if(
        f(8 * r + 4),
    ) + one_if(f(8 * r + 5)) + one_if(f(8 * r + 6)) + one_if(f(8 * r + 7))
}

/// How often `f` holds on the rows below `k`, row by row.
spec fn rows_count(f: spec_fn(int) -> bool, k: int) -> nat
    decreases k,
{
    if k <= 0 {
        0
    } else {
        rows_count(f, k - 1) + row_count(f, k - 1)
    }
}

proof fn lemma_count_rows(f: spec_fn(int) -> bool, k: int)
    requires
        k >= 0,
    ensures
        count_true(f, 8 * k) == rows_count(f, k),
    decreases k,
{
    if k > 0 {
        lemma_count_rows(f, k - 1);
        reveal_with_fuel(count_true, 9);
        assert(8 * k - 8 == 8 * (k - 1));
    }
}

/// Counting a predicate over the mirrored squares counts it over the board.
proof fn lemma_count_mirror(f: spec_fn(int) -> bool, g: spec_fn(int) -> bool)
    requires
        forall|t: int| 0 <= t < 64 ==> #[trigger] g(t) == f(mirror(t)),
    ensures
        count_true(g, 64) == count_true(f, 64),
{
    lemma_count_rows(f, 8);
    lemma_count_rows(g, 8);
    assert forall|r: int, c: int| 0 <= r < 8 && 0 <= c < 8 implies #[trigger] g(8 * r + c) == f(
        8 * (7 - r) + c,
    ) by {
        assert(g(8 * r + c) == f(mirror(8 * r + c)));
        assert(mirror(8 * r + c) == 8 * (7 - r) + c);
    }
    assert forall|r: int| 0 <= r < 8 implies #[trigger] row_count(g, r) == row_count(f, 7 - r) by {
        assert(g(8 * r) == f(8 * (7 - r) + 0));
        assert(g(8 * r + 1) == f(8 * (7 - r) + 1));
        assert(g(8 * r + 2) == f(8 * (7 - r) + 2));
        assert(g(8 * r + 3) == f(8 * (7 - r) + 3));
        assert(g(8 * r + 4) == f(8 * (7 - r) + 4));
        assert(g(8 * r + 5) == f(8 * (7 - r) + 5));
        assert(g(8 * r + 6) == f(8 * (7 - r) + 6));
        assert(g(8 * r + 7) == f(8 * (7 - r) + 7));
    }
    reveal_with_fuel(rows_count, 9);
    assert(row_count(g, 0) == row_count(f, 7));
    assert(row_count(g, 1) == row_count(f, 6));
    assert(row_count(g, 2) == row_count(f, 5));
    assert(row_count(g, 3) == row_count(f, 4));
    assert(row_count(g, 4) == row_count(f, 3));
    assert(row_count(g, 5) == row_count(f, 2));
    assert(row_count(g, 6) == row_count(f, 1));
    assert(row_count(g, 7) == row_count(f, 0));
}

/// A step along a ray and the same step along the mirrored ray land on mirrored
/// squares.
proof fn lemma_ray_sq_mirror(s: int, dr: int, dc: int, j: int)
    requires
        0 <= s < 64,
        crate::attacks::ray_on(s, dr, dc, j),
    ensures
        crate::attacks::ray_on(mirror(s), -dr, dc, j),
        0 <= crate::attacks::ray_sq(s, dr, dc, j) < 64,
        crate::attacks::ray_sq(mirror(s), -dr, dc, j) == mirror(crate::attacks::ray_sq(s, dr, dc, j)),
{
    lemma_mirror_square(s);
    let r = row(s) + crate::attacks::step(j, dr);
    let c = col(s) + crate::attacks::step(j, dc);
    assert(crate::attacks::step(j, -dr) == -crate::attacks::step(j, dr));
    let x = crate::attacks::ray_sq(s, dr, dc, j);
    assert(x == r * 8 + c);
    assert(0 <= x < 64);
    lemma_mirror_square(x);
    assert(row(x) == r && col(x) == c);
    assert(crate::attacks::ray_sq(mirror(s), -dr, dc, j) == (7 - r) * 8 + c);
}

/// What a slider reaches along a ray on one board, it reaches along the mirrored
/// ray on the mirrored board.
proof fn lemma_ray_attack_mirror(s: int, t: int, occ_p: u64, occ_q: u64, dr: int, dc: int)
    requires
        0 <= s < 64,
        0 <= t < 64,
        crate::attacks::is_dir(dr, dc),
        forall|x: int| 0 <= x < 64 ==> #[trigger] bit(occ_q, x) == bit(occ_p, mirror(x)),
        crate::attacks::ray_attack(s, occ_q, dr, dc, t),
    ensures
        crate::attacks::ray_attack(mirror(s), occ_p, -dr, dc, mirror(t)),
{
    lemma_mirror_square(s);
    lemma_mirror_square(t);
    let k = crate::attacks::ray_dist(s, t, dr, dc);
    lemma_ray_sq_mirror(s, dr, dc, k);
    assert(crate::attacks::ray_dist(mirror(s), mirror(t), -dr, dc) == k);
    assert forall|j: int| 1 <= j < k implies !#[trigger] bit(
        occ_p,
        crate::attacks::ray_sq(mirror(s), -dr, dc, j),
    ) by {
        assert(crate::attacks::ray_on(s, dr, dc, j));
        lemma_ray_sq_mirror(s, dr, dc, j);
        assert(!bit(occ_q, crate::attacks::ray_sq(s, dr, dc, j)));
    }
}

/// A piece of one color attacks from a square what a piece of the other color
/// attacks from the mirrored square on the mirrored board.
/// A ray reaches the same on a board as the mirrored ray on the mirrored board.
proof fn lemma_ray_attack_iff(s: int, t: int, occ_p: u64, occ_q: u64, dr: int, dc: int)
    requires
        0 <= s < 64,
        0 <= t < 64,
        crate::attacks::is_dir(dr, dc),
        forall|x: int| 0 <= x < 64 ==> #[trigger] bit(occ_q, x) == bit(occ_p, mirror(x)),
        forall|x: int| 0 <= x < 64 ==> #[trigger] bit(occ_p, x) == bit(occ_q, mirror(x)),
    ensures
        crate::attacks::ray_attack(s, occ_q, dr, dc, t) == crate::attacks::ray_attack(
            mirror(s),
            occ_p,
            -dr,
            dc,
            mirror(t),
        ),
{
    lemma_mirror_square(s);
    lemma_mirror_square(t);
    if crate::attacks::ray_attack(s, occ_q, dr, dc, t) {
        lemma_ray_attack_mirror(s, t, occ_p, occ_q, dr, dc);
    }
    if crate::attacks::ray_attack(mirror(s), occ_p, -dr, dc, mirror(t)) {
        lemma_ray_attack_mirror(mirror(s), mirror(t), occ_q, occ_p, -dr, dc);
    }
}

/// A piece of one color attacks from a square what a piece of the other color
/// attacks from the mirrored square on the mirrored board.
proof fn lemma_attack_mirror(s: int, t: int, c: Color, k: PieceType, occ_p: u64, occ_q: u64)
    requires
        0 <= s < 64,
        0 <= t < 64,
        forall|x: int| 0 <= x < 64 ==> #[trigger] bit(occ_q, x) == bit(occ_p, mirror(x)),
    ensures
        piece_attack(s, c.other(), k, occ_q, t) == piece_attack(mirror(s), c, k, occ_p, mirror(t)),
{
    lemma_mirror_square(s);
    lemma_mirror_square(t);
    assert forall|x: int| 0 <= x < 64 implies #[trigger] bit(occ_p, x) == bit(occ_q, mirror(x)) by {
        lemma_mirror_square(x);
        assert(bit(occ_q, mirror(x)) == bit(occ_p, mirror(mirror(x))));
    }
    lemma_ray_attack_iff(s, t, occ_p, occ_q, -1, 0);
    lemma_ray_attack_iff(s, t, occ_p, occ_q, 1, 0);
    lemma_ray_attack_iff(s, t, occ_p, occ_q, 0, -1);
    lemma_ray_attack_iff(s, t, occ_p, occ_q, 0, 1);
    lemma_ray_attack_iff(s, t, occ_p, occ_q, -1, -1);
    lemma_ray_attack_iff(s, t, occ_p, occ_q, -1, 1);
    lemma_ray_attack_iff(s, t, occ_p, occ_q, 1, -1);
    lemma_ray_attack_iff(s, t, occ_p, occ_q, 1, 1);
}

/// The piece with the other color, or no piece.
pub open spec fn flip_piece(x: Option<(Color, PieceType)>) -> Option<(Color, PieceType)> {
    match x {
        None => None,
        Some((c, k)) => Some((c.other(), k)),
    }
}

/// `q` is `p` with the board turned over and the colors swapped: each square of
/// `q` holds the piece of the mirrored square of `p` in the other color, and the
/// other side is to move.
pub open spec fn mirrored(p: Position, q: Position) -> bool {
    &&& forall|s: int| 0 <= s < 64 ==> #[trigger] q.piece_on(s) == flip_piece(p.piece_on(mirror(s)))
    &&& forall|x: int|
        0 <= x < 64 ==> #[trigger] bit(q.all_occupancies.0, x) == bit(p.all_occupancies.0, mirror(x))
    &&& q.active_color == p.active_color.other()
}

/// Each square of a mirrored position counts against the mirrored square.
proof fn lemma_square_score_mirror(p: Position, q: Position, s: int)
    requires
        mirrored(p, q),
        0 <= s < 64,
    ensures
        square_score(q, s) == -square_score(p, mirror(s)),
{
    let m = mirror(s);
    lemma_mirror_square(s);
    assert forall|t: int| 0 <= t < 64 implies #[trigger] q.piece_on(t) == flip_piece(p.piece_on(mirror(t)))
        && col(mirror(t)) == col(t) && row(mirror(t)) == 7 - row(t) && 0 <= mirror(t) < 64 by {
        lemma_mirror_square(t);
    }
    assert forall|c: Color, f: int| #[trigger] pawns_on_file(q, c.other(), f) == pawns_on_file(p, c, f) by {
        lemma_count_mirror(
            |t: int| has_piece(p, t, c, PieceType::Pawn) && col(t) == f,
            |t: int| has_piece(q, t, c.other(), PieceType::Pawn) && col(t) == f,
        );
    }
    assert forall|c: Color| #[trigger] neighbour_pawns(q, c.other(), s) == neighbour_pawns(p, c, m) by {
        lemma_count_mirror(
            |t: int| has_piece(p, t, c, PieceType::Pawn) && abs(col(t) - col(m)) == 1,
            |t: int| has_piece(q, t, c.other(), PieceType::Pawn) && abs(col(t) - col(s)) == 1,
        );
    }
    assert forall|c: Color| #[trigger] stoppers(q, c.other(), s) == stoppers(p, c, m) by {
        lemma_count_mirror(
            |t: int| has_piece(p, t, c.other(), PieceType::Pawn) && abs(col(t) - col(m)) <= 1 && ahead(c, m, t),
            |t: int|
                has_piece(q, t, c.other().other(), PieceType::Pawn) && abs(col(t) - col(s)) <= 1 && ahead(
                    c.other(),
                    s,
                    t,
                ),
        );
    }
    assert forall|c: Color, k: PieceType| #[trigger] mobility(q, c.other(), k, s) == mobility(p, c, k, m) by {
        assert forall|t: int| 0 <= t < 64 implies #[trigger] piece_attack(
            s,
            c.other(),
            k,
            q.all_occupancies.0,
            t,
        ) == piece_attack(m, c, k, p.all_occupancies.0, mirror(t)) by {
            lemma_attack_mirror(s, t, c, k, p.all_occupancies.0, q.all_occupancies.0);
        }
        lemma_count_mirror(
            |t: int| piece_attack(m, c, k, p.all_occupancies.0, t) && !own_piece(p, c, t),
            |t: int| piece_attack(s, c.other(), k, q.all_occupancies.0, t) && !own_piece(q, c.other(), t),
        );
    }
    assert forall|c: Color| #[trigger] king_cover(q, c.other(), s) == king_cover(p, c, m) by {
        lemma_count_mirror(
            |t: int| king_target(m, t) && own_piece(p, c, t),
            |t: int| king_target(s, t) && own_piece(q, c.other(), t),
        );
    }
    assert(pawns_on_file(q, Color::Black.other(), col(s)) == pawns_on_file(p, Color::Black, col(s)));
    assert(pawns_on_file(q, Color::White.other(), col(s)) == pawns_on_file(p, Color::White, col(s)));
    if p.piece_on(m) is Some {
        let c = (p.piece_on(m)->0).0;
        let k = (p.piece_on(m)->0).1;
        assert(table_index(c.other(), s) == table_index(c, m));
        assert(advance(c.other(), s) == advance(c, m));
        assert(piece_score(q, c.other(), k, s) == piece_score(p, c, k, m));
    }
}

/// The score of the squares of one row.
spec fn row_score(pos: Position, r: int) -> int {
    square_score(pos, 8 * r) + square_score(pos, 8 * r + 1) + square_score(pos, 8 * r + 2)
        + square_score(pos, 8 * r + 3) + square_score(pos, 8 * r + 4) + square_score(pos, 8 * r + 5)
        + square_score(pos, 8 * r + 6) + square_score(pos, 8 * r + 7)
}

/// The score of the rows below `k`, row by row.
spec fn rows_score(pos: Position, k: int) -> int
    decreases k,
{
    if k <= 0 {
        0
    } else {
        rows_score(pos, k - 1) + row_score(pos, k - 1)
    }
}

proof fn lemma_board_rows(pos: Position, k: int)
    requires
        k >= 0,
    ensures
        board_score(pos, 8 * k) == rows_score(pos, k),
    decreases k,
{
    if k > 0 {
        lemma_board_rows(pos, k - 1);
        reveal_with_fuel(board_score, 9);
        assert(8 * k - 8 == 8 * (k - 1));
    }
}

proof fn lemma_row_score_mirror(p: Position, q: Position, r: int)
    requires
        mirrored(p, q),
        0 <= r < 8,
    ensures
        row_score(q, r) == -row_score(p, 7 - r),
{
    let a = 8 * r;
    let b = 8 * (7 - r);
    assert forall|c: int| 0 <= c < 8 implies #[trigger] square_score(q, a + c) == -square_score(p, b + c) by {
        lemma_square_score_mirror(p, q, a + c);
        assert(mirror(a + c) == b + c);
    }
    assert(square_score(q, a + 0) == -square_score(p, b + 0));
    assert(square_score(q, a + 1) == -square_score(p, b + 1));
    assert(square_score(q, a + 2) == -square_score(p, b + 2));
    assert(square_score(q, a + 3) == -square_score(p, b + 3));
    assert(square_score(q, a + 4) == -square_score(p, b + 4));
    assert(square_score(q, a + 5) == -square_score(p, b + 5));
    assert(square_score(q, a + 6) == -square_score(p, b + 6));
    assert(square_score(q, a + 7) == -square_score(p, b + 7));
}

/// The evaluation does not favor a color: turning the board over and swapping the
/// colors of the pieces and of the side to move leaves the evaluation as it was.
#[verifier::rlimit(40)]
pub proof fn lemma_evaluation_mirror(p: Position, q: Position)
    requires
        mirrored(p, q),
    ensures
        evaluation(q) == evaluation(p),
        (evaluation(q) as i16) == (evaluation(p) as i16),
{
    assert forall|r: int| 0 <= r < 8 implies #[trigger] row_score(q, r) == -row_score(p, 7 - r) by {
        lemma_row_score_mirror(p, q, r);
    }
    lemma_board_rows(p, 8);
    lemma_board_rows(q, 8);
    reveal_with_fuel(rows_score, 9);
    assert(row_score(q, 0) == -row_score(p, 7));
    assert(row_score(q, 1) == -row_score(p, 6));
    assert(row_score(q, 2) == -row_score(p, 5));
    assert(row_score(q, 3) == -row_score(p, 4));
    assert(row_score(q, 4) == -row_score(p, 3));
    assert(row_score(q, 5) == -row_score(p, 2));
    assert(row_score(q, 6) == -row_score(p, 1));
    assert(row_score(q, 7) == -row_score(p, 0));
}

/// What one square adds to the score is small.
proof fn lemma_square_score_bound(pos: Position, s: int)
    ensures
        -100000 <= square_score(pos, s) <= 100000,
{
    assert forall|c: Color, f: int| #[trigger] pawns_on_file(pos, c, f) <= 64 by {
        crate::bits::lemma_count_true_at_most(|t: int| has_piece(pos, t, c, PieceType::Pawn) && col(t) == f, 64);
    }
    assert forall|c: Color, k: PieceType| #[trigger] mobility(pos, c, k, s) <= 64 by {
        crate::bits::lemma_count_true_at_most(
            |t: int| piece_attack(s, c, k, pos.all_occupancies.0, t) && !own_piece(pos, c, t),
            64,
        );
    }
    assert forall|c: Color| #[trigger] king_cover(pos, c, s) <= 64 by {
        crate::bits::lemma_count_true_at_most(|t: int| king_target(s, t) && own_piece(pos, c, t), 64);
    }
}

proof fn lemma_board_score_bound(pos: Position, n: int)
    requires
        0 <= n,
    ensures
        -100000 * n <= board_score(pos, n) <= 100000 * n,
    decreases n,
{
    if n > 0 {
        lemma_board_score_bound(pos, n - 1);
        lemma_square_score_bound(pos, n - 1);
    }
}

/// Negating a score and cutting it to 16 bits is the 16 bit negation of the cut
/// score, for scores far inside 64 bits.
proof fn lemma_neg_cut(v: int)
    requires
        -0x10000000 <= v <= 0x10000000,
    ensures
        ((-v) as i16) == (0i16).wrapping_sub(v as i16),
{
    let w = v as i64;
    let nw = (-v) as i64;
    assert(w == v && nw == -v);
    let a = w as i16;
    let b = nw as i16;
    assert(b == (0i16).wrapping_sub(a)) by (bit_vector)
        requires
            nw == -w,
            -0x10000000 <= w <= 0x10000000,
            a == w as i16,
            b == nw as i16,
    ;
}

/// `evaluate` keeps the side-to-move law in 16 bits: the same board with the
/// other side to move evaluates to the 16 bit negation.
pub proof fn lemma_evaluate_side_to_move(p: Position, q: Position)
    requires
        p.piece_squares == q.piece_squares,
        p.color_occupancies == q.color_occupancies,
        p.all_occupancies == q.all_occupancies,
        p.active_color != q.active_color,
    ensures
        (evaluation(p) as i16) == (0i16).wrapping_sub(evaluation(q) as i16),
{
    lemma_evaluation_side_to_move(p, q);
    lemma_board_score_bound(q, 64);
    lemma_neg_cut(evaluation(q));
}

/// What a piece adds to the score, from white's point of view: its material (a
/// pawn 100 centipawns, a knight 320, a bishop 360, a rook 520, a queen 1000, the
/// king nothing) and its positional terms, counted for white and against black; an
/// empty square adds nothing.
pub proof fn lemma_material(pos: Position, s: int)
    ensures
        pos.piece_on(s) is None ==> square_score(pos, s) == 0,
        pos.piece_on(s) == Some((Color::White, PieceType::Pawn)) ==> square_score(pos, s) == 100 + piece_score(
            pos,
            Color::White,
            PieceType::Pawn,
            s,
        ),
        pos.piece_on(s) == Some((Color::Black, PieceType::Pawn)) ==> square_score(pos, s) == -(100 + piece_score(
            pos,
            Color::Black,
            PieceType::Pawn,
            s,
        )),
        pos.piece_on(s) == Some((Color::White, PieceType::Knight)) ==> square_score(pos, s) == 320 + piece_score(
            pos,
            Color::White,
            PieceType::Knight,
            s,
        ),
        pos.piece_on(s) == Some((Color::Black, PieceType::Knight)) ==> square_score(pos, s) == -(320 + piece_score(
            pos,
            Color::Black,
            PieceType::Knight,
            s,
        )),
        pos.piece_on(s) == Some((Color::White, PieceType::Bishop)) ==> square_score(pos, s) == 360 + piece_score(
            pos,
            Color::White,
            PieceType::Bishop,
            s,
        ),
        pos.piece_on(s) == Some((Color::Black, PieceType::Bishop)) ==> square_score(pos, s) == -(360 + piece_score(
            pos,
            Color::Black,
            PieceType::Bishop,
            s,
        )),
        pos.piece_on(s) == Some((Color::White, PieceType::Rook)) ==> square_score(pos, s) == 520 + piece_score(
            pos,
            Color::White,
            PieceType::Rook,
            s,
        ),
        pos.piece_on(s) == Some((Color::Black, PieceType::Rook)) ==> square_score(pos, s) == -(520 + piece_score(
            pos,
            Color::Black,
            PieceType::Rook,
            s,
        )),
        pos.piece_on(s) == Some((Color::White, PieceType::Queen)) ==> square_score(pos, s) == 1000 + piece_score(
            pos,
            Color::White,
            PieceType::Queen,
            s,
        ),
        pos.piece_on(s) == Some((Color::Black, PieceType::Queen)) ==> square_score(pos, s) == -(1000 + piece_score(
            pos,
            Color::Black,
            PieceType::Queen,
            s,
        )),
        pos.piece_on(s) == Some((Color::White, PieceType::King)) ==> square_score(pos, s) == 0 + piece_score(
            pos,
            Color::White,
            PieceType::King,
            s,
        ),
        pos.piece_on(s) == Some((Color::Black, PieceType::King)) ==> square_score(pos, s) == -(0 + piece_score(
            pos,
            Color::Black,
            PieceType::King,
            s,
        )),
{
}

/// The positional terms of each piece kind, from its own side's point of view: a
/// pawn loses 10 for each other pawn of its side on its file and 10 when no pawn
/// of its side stands on a neighbouring file, and gains its passed pawn bonus when
/// no enemy pawn can stop it; a knight, bishop or queen gains one for each square
/// it attacks that holds no piece of its own; a rook gains 10 on a file without
/// pawns of its side, 15 more on a file without any pawn, and its mobility; a king
/// loses the same 10 and 15 and gains 5 for each piece of its side around it.
pub proof fn lemma_positional_terms(pos: Position, c: Color, s: int)
    ensures
        ({
            let i = table_index(c, s);
            &&& piece_score(pos, c, PieceType::Pawn, s) == pst(PieceType::Pawn, i) - 10 * (
            pawns_on_file(pos, c, col(s)) - 1) - (if neighbour_pawns(pos, c, s) == 0 {
                10int
            } else {
                0int
            }) + (if stoppers(pos, c, s) == 0 {
                passed_bonus(advance(c, s))
            } else {
                0int
            })
            &&& piece_score(pos, c, PieceType::Knight, s) == pst(PieceType::Knight, i) + mobility(
                pos,
                c,
                PieceType::Knight,
                s,
            )
            &&& piece_score(pos, c, PieceType::Bishop, s) == pst(PieceType::Bishop, i) + mobility(
                pos,
                c,
                PieceType::Bishop,
                s,
            )
            &&& piece_score(pos, c, PieceType::Queen, s) == pst(PieceType::Queen, i) + mobility(
                pos,
                c,
                PieceType::Queen,
                s,
            )
            &&& piece_score(pos, c, PieceType::Rook, s) == pst(PieceType::Rook, i) + (if pawns_on_file(
                pos,
                c,
                col(s),
            ) == 0 {
                10int
            } else {
                0int
            }) + (if pawns_on_file(pos, Color::White, col(s)) == 0 && pawns_on_file(
                pos,
                Color::Black,
                col(s),
            ) == 0 {
                15int
            } else {
                0int
            }) + mobility(pos, c, PieceType::Rook, s)
            &&& piece_score(pos, c, PieceType::King, s) == pst(PieceType::King, i) - (if pawns_on_file(
                pos,
                c,
                col(s),
            ) == 0 {
                10int
            } else {
                0int
            }) - (if pawns_on_file(pos, Color::White, col(s)) == 0 && pawns_on_file(
                pos,
                Color::Black,
                col(s),
            ) == 0 {
                15int
            } else {
                0int
            }) + 5 * king_cover(pos, c, s)
        }),
{
}

} // verus!
