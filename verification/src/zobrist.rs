use vstd::prelude::*;

verus! {

use crate::keys::{
    piece_key, enpassant_key, castling_key, side_key, piece_key_value, enpassant_key_value,
    castling_key_value, side_key_value,
};
use crate::piece::PieceType;
use crate::color::Color;
use crate::position::Position;
use vstd::std_specs::bits::u64_trailing_zeros;

/// One round of the xorshift generator.
pub open spec fn xorshift_round(x: u64) -> u64 {
    let a = x ^ (x << 13u64);
    let b = a ^ (a >> 17u64);
    b ^ (b << 5u64)
}

/// `n` rounds of the xorshift generator.
pub open spec fn xorshift(x: u64, n: nat) -> u64
    decreases n,
{
    if n == 0 {
        x
    } else {
        xorshift_round(xorshift(x, (n - 1) as nat))
    }
}

/// A pseudo random 32 bit number: 27 xorshift rounds on the state, truncated.
pub open spec fn rand_u32_spec(state: u32) -> u32 {
    xorshift(state as u64, 27) as u32
}

/// A pseudo random 64 bit number from three chained 32 bit numbers, and the next state.
pub open spec fn rand_u64_spec(state: u32) -> (u64, u32) {
    let n1 = rand_u32_spec(state);
    let n2 = rand_u32_spec(n1);
    let n3 = rand_u32_spec(n2);
    ((n1 as u64) | ((n2 as u64) << 32u64), n3)
}

pub fn rand_u32(state: u32) -> (r: u32)
    ensures
        r == rand_u32_spec(state),
{
    let mut num: u64 = state as u64;
    let mut i: u32 = 0;
    while i < 27
        invariant
            0 <= i <= 27,
            num == xorshift(state as u64, i as nat),
        decreases 27 - i,
    {
        num = num ^ (num << 13u64);
        num = num ^ (num >> 17u64);
        num = num ^ (num << 5u64);
        i = i + 1;
    }
    num as u32
}

/// Generates a 64 bit pseudo random number and the next state.
pub fn rand_u64(state: u32) -> (r: (u64, u32))
    ensures
        r == rand_u64_spec(state),
{
    let n1 = rand_u32(state);
    let n2 = rand_u32(n1);
    let n3 = rand_u32(n2);
    ((n1 as u64) | ((n2 as u64) << 32u64), n3)
}

/// The keys generated from a seed: each key is the number of `rand_u64` on the
/// state the previous call left.
pub open spec fn key_stream(seed: u32, n: nat) -> (Seq<u64>, u32)
    decreases n,
{
    if n == 0 {
        (Seq::empty(), seed)
    } else {
        let (prev, state) = key_stream(seed, (n - 1) as nat);
        let (k, next) = rand_u64_spec(state);
        (prev.push(k), next)
    }
}

/// The first `count` keys generated from `seed`.
pub fn generate_keys(count: usize, seed: u32) -> (r: Vec<u64>)
    ensures
        r@ == key_stream(seed, count as nat).0,
{
    let mut keys: Vec<u64> = Vec::new();
    let mut state = seed;
    let mut i: usize = 0;
    while i < count
        invariant
            0 <= i <= count,
            (keys@, state) == key_stream(seed, i as nat),
        decreases count - i,
    {
        let (k, next) = rand_u64(state);
        keys.push(k);
        state = next;
        i = i + 1;
    }
    keys
}

/// The XOR of `f(0)` up to `f(n - 1)`.
pub open spec fn xor_fold(f: spec_fn(int) -> u64, n: int) -> u64
    decreases n,
{
    if n <= 0 {
        0
    } else {
        xor_fold(f, n - 1) ^ f(n - 1)
    }
}

pub proof fn lemma_xor_facts(a: u64, b: u64, c: u64)
    ensures
        (a ^ b) ^ c == a ^ (b ^ c),
        a ^ b == b ^ a,
        a ^ a == 0,
        a ^ 0 == a,
        0 ^ a == a,
{
    assert((a ^ b) ^ c == a ^ (b ^ c)) by (bit_vector);
    assert(a ^ b == b ^ a) by (bit_vector);
    assert(a ^ a == 0) by (bit_vector);
    assert(a ^ 0 == a) by (bit_vector);
    assert(0 ^ a == a) by (bit_vector);
}

proof fn lemma_xor_fold_same(f: spec_fn(int) -> u64, g: spec_fn(int) -> u64, n: int)
    requires
        forall|t: int| 0 <= t < n ==> #[trigger] f(t) == g(t),
    ensures
        xor_fold(f, n) == xor_fold(g, n),
    decreases n,
{
    if n > 0 {
        lemma_xor_fold_same(f, g, n - 1);
    }
}

/// Changing one term of a XOR fold changes the fold by the XOR of the old and new term.
pub proof fn lemma_xor_fold_update(f: spec_fn(int) -> u64, g: spec_fn(int) -> u64, s: int, n: int)
    requires
        0 <= s < n,
        forall|t: int| 0 <= t < n && t != s ==> #[trigger] f(t) == g(t),
    ensures
        xor_fold(g, n) == xor_fold(f, n) ^ f(s) ^ g(s),
    decreases n,
{
    let ff = xor_fold(f, n - 1);
    let gg = xor_fold(g, n - 1);
    if n - 1 == s {
        lemma_xor_fold_same(f, g, n - 1);
        lemma_xor_facts(ff, f(s), f(s));
        lemma_xor_facts(ff, f(s) ^ f(s), g(s));
        lemma_xor_facts(ff ^ f(s), f(s), g(s));
        lemma_xor_facts(f(s), f(s), 0);
        lemma_xor_facts(ff, 0, 0);
    } else {
        lemma_xor_fold_update(f, g, s, n - 1);
        let x = f(s) ^ g(s);
        assert((ff ^ f(s)) ^ g(s) == ff ^ x) by {
            lemma_xor_facts(ff, f(s), g(s));
        }
        assert((ff ^ x) ^ f(n - 1) == (ff ^ f(n - 1)) ^ x) by {
            lemma_xor_facts(ff, x, f(n - 1));
            lemma_xor_facts(x, f(n - 1), 0);
            lemma_xor_facts(ff, f(n - 1), x);
        }
        assert(((ff ^ f(n - 1)) ^ f(s)) ^ g(s) == (ff ^ f(n - 1)) ^ x) by {
            lemma_xor_facts(ff ^ f(n - 1), f(s), g(s));
        }
    }
}

/// The key a square contributes: that of its piece, or nothing when empty.
/// Piece keys are looked up at `12 * index + square`.
pub open spec fn square_key(pos: Position, s: int) -> u64 {
    match pos.piece_on(s) {
        Some((c, p)) => piece_key_value(p.index_of(c) * 12 + s),
        None => 0,
    }
}

/// The XOR of the keys of the pieces on the board.
pub open spec fn board_hash(pos: Position) -> u64 {
    xor_fold(|t: int| square_key(pos, t), 64)
}

/// The key of the en passant square; nothing without one.
pub open spec fn ep_key(ep: u64) -> u64 {
    if ep == 0 {
        0
    } else {
        enpassant_key_value(u64_trailing_zeros(ep) as int)
    }
}

/// The key of the side to move: the side key for black, nothing for white.
pub open spec fn color_key(c: Color) -> u64 {
    match c {
        Color::White => 0,
        Color::Black => side_key_value(),
    }
}

/// The keys of everything but the board.
pub open spec fn state_hash(castling: u8, side: Color, ep: u64) -> u64 {
    castling_key_value(castling as int) ^ color_key(side) ^ ep_key(ep)
}

/// The zobrist hash of a position.
pub open spec fn hash_of(pos: Position) -> u64 {
    board_hash(pos) ^ state_hash(
        pos.castling_ability.byte,
        pos.active_color,
        pos.enpassant_square.0,
    )
}

/// Changing the piece on one square changes the board hash by both square keys.
pub proof fn lemma_board_hash_update(p1: Position, p2: Position, s: int)
    requires
        0 <= s < 64,
        p2.same_board_except(p1, s),
    ensures
        board_hash(p2) == board_hash(p1) ^ square_key(p1, s) ^ square_key(p2, s),
{
    let f = |t: int| square_key(p1, t);
    let g = |t: int| square_key(p2, t);
    assert forall|t: int| 0 <= t < 64 && t != s implies #[trigger] f(t) == g(t) by {
        assert(p2.piece_on(t) == p1.piece_on(t));
    }
    lemma_xor_fold_update(f, g, s, 64);
}

/// Boards with the same pieces have the same hash.
pub proof fn lemma_board_hash_same(p1: Position, p2: Position)
    requires
        forall|t: int| 0 <= t < 64 ==> #[trigger] p1.piece_on(t) == p2.piece_on(t),
    ensures
        board_hash(p1) == board_hash(p2),
{
    let f = |t: int| square_key(p1, t);
    let g = |t: int| square_key(p2, t);
    assert forall|t: int| 0 <= t < 64 implies #[trigger] f(t) == g(t) by {
        assert(p1.piece_on(t) == p2.piece_on(t));
    }
    lemma_xor_fold_same(f, g, 64);
}

impl Position {
    /// Toggles the side-to-move key.
    pub fn apply_side_zobrist(&mut self)
        ensures
            final(self).zobrist_hash == old(self).zobrist_hash ^ side_key_value(),
            final(self).same_state_but_hash(*old(self)),
            *final(self) == (Position { zobrist_hash: final(self).zobrist_hash, ..*old(self) }),
    {
        self.zobrist_hash = self.zobrist_hash ^ side_key();
    }

    /// Toggles the key of a piece on a square.
    pub fn apply_piece_zobrist(&mut self, color: Color, piece_type: PieceType, square: u8)
        requires
            piece_type != PieceType::Empty,
            square < 64,
        ensures
            final(self).zobrist_hash == old(self).zobrist_hash ^ piece_key_value(
                piece_type.index_of(color) * 12 + square,
            ),
            *final(self) == (Position { zobrist_hash: final(self).zobrist_hash, ..*old(self) }),
    {
        let i = piece_type.index(color) * 12 + square as usize;
        self.zobrist_hash = self.zobrist_hash ^ piece_key(i);
    }

    /// Toggles the key of an en passant square.
    pub fn apply_enpassant_zobrist(&mut self, square: u8)
        requires
            square < 64,
        ensures
            final(self).zobrist_hash == old(self).zobrist_hash ^ enpassant_key_value(square as int),
            *final(self) == (Position { zobrist_hash: final(self).zobrist_hash, ..*old(self) }),
    {
        self.zobrist_hash = self.zobrist_hash ^ enpassant_key(square as usize);
    }

    /// Toggles the key of the current castling ability.
    pub fn apply_castling_zobrist(&mut self)
        requires
            old(self).castling_ability.byte < 16,
        ensures
            final(self).zobrist_hash == old(self).zobrist_hash ^ castling_key_value(
                old(self).castling_ability.byte as int,
            ),
            *final(self) == (Position { zobrist_hash: final(self).zobrist_hash, ..*old(self) }),
    {
        self.zobrist_hash = self.zobrist_hash ^ castling_key(self.castling_ability.byte as usize);
    }

    /// Everything but the hash is as in `other`.
    pub open spec fn same_state_but_hash(self, other: Position) -> bool {
        self == (Position { zobrist_hash: self.zobrist_hash, ..other })
    }

    /// Creates the zobrist hash from scratch for the current position.
    pub fn generate_zobrist_hash(&mut self)
        requires
            old(self).wf(),
            old(self).castling_ability.byte < 16,
        ensures
            final(self).zobrist_hash == hash_of(*final(self)),
            *final(self) == (Position { zobrist_hash: final(self).zobrist_hash, ..*old(self) }),
            final(self).wf(),
            forall|s: int| 0 <= s < 64 ==> #[trigger] final(self).piece_on(s) == old(self).piece_on(s),
    {
        let ghost old_pos = *self;
        self.zobrist_hash = 0;
        let mut sq: u8 = 0;
        while sq < 64
            invariant
                0 <= sq <= 64,
                old_pos.wf(),
                *self == (Position { zobrist_hash: self.zobrist_hash, ..old_pos }),
                self.zobrist_hash == xor_fold(|t: int| square_key(old_pos, t), sq as int),
            decreases 64 - sq,
        {
            let p = self.piece_type_at(sq);
            if p != PieceType::Empty {
                let c = if self.color_occupancies[0].0 & (1u64 << sq) != 0 {
                    Color::White
                } else {
                    Color::Black
                };
                proof {
                    let x = self.color_occupancies@[0].0;
                    assert((x & (1u64 << sq) != 0) == ((x >> (sq as u64)) & 1u64 == 1u64))
                        by (bit_vector)
                        requires
                            sq < 64,
                    ;
                    assert(c == old_pos.color_at(sq as int));
                }
                self.apply_piece_zobrist(c, p, sq);
            } else {
                proof {
                    lemma_xor_facts(self.zobrist_hash, 0, 0);
                }
            }
            sq = sq + 1;
        }
        proof {
            assert(self.zobrist_hash == board_hash(old_pos));
        }
        self.apply_castling_zobrist();
        if self.active_color.is_black() {
            self.apply_side_zobrist();
        } else {
            proof {
                lemma_xor_facts(self.zobrist_hash, 0, 0);
            }
        }
        if !self.enpassant_square.is_empty() {
            let e = self.enpassant_square.least_significant();
            self.apply_enpassant_zobrist(e);
        } else {
            proof {
                lemma_xor_facts(self.zobrist_hash, 0, 0);
            }
        }
        proof {
            let b = board_hash(old_pos);
            let ck = castling_key_value(old_pos.castling_ability.byte as int);
            let sk = color_key(old_pos.active_color);
            let ek = ep_key(old_pos.enpassant_square.0);
            lemma_xor_facts(b, ck, sk);
            lemma_xor_facts(b, ck ^ sk, ek);
            lemma_xor_facts(ck, sk, ek);
            lemma_board_hash_same(*self, old_pos);
            assert forall|s: int| 0 <= s < 64 implies #[trigger] self.square_ok(s) by {
                assert(old_pos.square_ok(s));
            }
            assert forall|s: int| 0 <= s < 64 implies #[trigger] self.piece_on(s) == old_pos.piece_on(s) by {
                assert(self.piece_squares@[s] == old_pos.piece_squares@[s]);
            }
        }
    }
}

} // verus!
