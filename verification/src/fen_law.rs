use vstd::prelude::*;

verus! {

use crate::color::Color;
use crate::fen::{
    step_place, place_pieces, empty_board, board_of, rank_text, board_text, gap, fen_text,
    fen_fields, fields_ok, fen_ok, state_matches, board_matches, fen_describes, split_spaces,
    trim, trim_start, trim_end, is_space, color_letter, ep_text, fen_ep, fen_number,
};
use crate::piece::{PieceType, piece_letter, letter_piece, lemma_piece_letter_roundtrip};
use crate::position::Position;
use crate::castling::{castling_field, parse_castling, lemma_castling_field_roundtrip};
use crate::color::parse_color;
use crate::square::{square_name, parse_square, lemma_square_name_roundtrip};
use crate::text::{
    decimal, digits_value, all_digits, unsigned_digits, parses_unsigned, lemma_decimal_ascii,
    lemma_decimal_value,
};
use crate::zobrist::{hash_of, board_hash, lemma_board_hash_same};
use crate::make_move::lemma_trailing_zeros_single;
use vstd::std_specs::bits::u64_trailing_zeros;

/// A board as it stands once the squares below `n` are read from `p`.
pub open spec fn board_below(p: Position, n: int) -> Seq<Option<(Color, PieceType)>> {
    Seq::new(64, |t: int| if t < n { p.piece_on(t) } else { None })
}

/// Reading bytes of a board field from a given state.
pub open spec fn run(
    st: Option<(int, Seq<Option<(Color, PieceType)>>)>,
    b: Seq<u8>,
) -> Option<(int, Seq<Option<(Color, PieceType)>>)>
    decreases b.len(),
{
    if b.len() == 0 {
        st
    } else {
        step_place(run(st, b.drop_last()), b.last())
    }
}

proof fn lemma_place_run(b: Seq<u8>, n: int)
    requires
        0 <= n <= b.len(),
    ensures
        place_pieces(b, n) == run(Some((0, empty_board())), b.subrange(0, n)),
    decreases n,
{
    if n > 0 {
        lemma_place_run(b, n - 1);
        assert(b.subrange(0, n).drop_last() =~= b.subrange(0, n - 1));
    } else {
        assert(b.subrange(0, 0).len() == 0);
    }
}

proof fn lemma_run_concat(st: Option<(int, Seq<Option<(Color, PieceType)>>)>, x: Seq<u8>, y: Seq<u8>)
    ensures
        run(st, x + y) == run(run(st, x), y),
    decreases y.len(),
{
    if y.len() == 0 {
        assert(x + y =~= x);
    } else {
        lemma_run_concat(st, x, y.drop_last());
        assert((x + y).drop_last() =~= x + y.drop_last());
        assert((x + y).last() == y.last());
    }
}

proof fn lemma_run_one(st: Option<(int, Seq<Option<(Color, PieceType)>>)>, c: u8)
    ensures
        run(st, seq![c]) == step_place(st, c),
{
    assert(seq![c].drop_last() =~= Seq::<u8>::empty());
    assert(run(st, Seq::<u8>::empty()) == st);
    assert(seq![c].last() == c);
}

/// Reading the rest of a rank from file `f` on, after `since` empty squares, places
/// the pieces of the rank and reaches the next rank.
proof fn lemma_run_rank(p: Position, r: int, f: int, since: nat)
    requires
        p.wf(),
        0 <= r < 8,
        0 <= f <= 8,
        since <= f,
        forall|t: int| r * 8 + f - since <= t < r * 8 + f ==> #[trigger] p.piece_on(t) is None,
    ensures
        run(Some((r * 8 + f - since, board_below(p, r * 8 + f - since))), rank_text(p, r, f, since))
            == Some((r * 8 + 8, board_below(p, r * 8 + 8))),
    decreases 8 - f,
{
    let sq0 = r * 8 + f - since;
    let st = Some((sq0, board_below(p, sq0)));
    if f >= 8 {
        if since > 0 {
            assert(gap(since) == seq![(48 + since) as u8]);
            lemma_run_one(st, (48 + since) as u8);
            assert(board_below(p, sq0) =~= board_below(p, r * 8 + 8)) by {
                assert forall|t: int| 0 <= t < 64 implies #[trigger] board_below(p, sq0)[t]
                    == board_below(p, r * 8 + 8)[t] by {
                    if sq0 <= t < r * 8 + 8 {
                        assert(p.piece_on(t) is None);
                    }
                }
            }
        } else {
            assert(gap(since) =~= Seq::<u8>::empty());
        }
    } else {
        let s = r * 8 + f;
        match p.piece_on(s) {
            Some(pc) => {
                let letter = piece_letter(pc.0, pc.1) as u8;
                assert(pc.1 != PieceType::Empty);
                lemma_piece_letter_roundtrip(pc.0, pc.1);
                assert(letter as char == piece_letter(pc.0, pc.1));
                let st1 = Some((s, board_below(p, sq0)));
                assert(run(st, gap(since)) == st1) by {
                    if since > 0 {
                        assert(gap(since) == seq![(48 + since) as u8]);
                        lemma_run_one(st, (48 + since) as u8);
                    } else {
                        assert(gap(since) =~= Seq::<u8>::empty());
                    }
                }
                lemma_run_one(st1, letter);
                assert(board_below(p, sq0).update(s, Some(pc)) =~= board_below(p, s + 1)) by {
                    assert forall|t: int| 0 <= t < 64 implies #[trigger] board_below(p, sq0).update(
                        s,
                        Some(pc),
                    )[t] == board_below(p, s + 1)[t] by {
                        if sq0 <= t < s {
                            assert(p.piece_on(t) is None);
                        }
                    }
                }
                lemma_run_rank(p, r, f + 1, 0);
                lemma_run_concat(st, gap(since), seq![letter]);
                lemma_run_concat(st, gap(since) + seq![letter], rank_text(p, r, f + 1, 0));
            },
            None => {
                lemma_run_rank(p, r, f + 1, since + 1);
            },
        }
    }
}

/// Reading the board field from rank `r` on places the pieces of those ranks.
proof fn lemma_run_board(p: Position, r: int)
    requires
        p.wf(),
        0 <= r <= 8,
    ensures
        run(Some((r * 8, board_below(p, r * 8))), board_text(p, r)) == Some((64int, board_below(p, 64))),
    decreases 8 - r,
{
    if r < 8 {
        let st = Some((r * 8, board_below(p, r * 8)));
        lemma_run_rank(p, r, 0, 0);
        let mid = Some((r * 8 + 8, board_below(p, r * 8 + 8)));
        let sep: Seq<u8> = if r < 7 {
            seq![47u8]
        } else {
            Seq::empty()
        };
        assert(run(mid, sep) == mid) by {
            if r < 7 {
                lemma_run_one(mid, 47u8);
            }
        }
        lemma_run_board(p, r + 1);
        lemma_run_concat(st, rank_text(p, r, 0, 0), sep);
        lemma_run_concat(st, rank_text(p, r, 0, 0) + sep, board_text(p, r + 1));
    }
}

/// The board field of a position's FEN text places exactly the pieces of the position.
pub proof fn lemma_board_text_roundtrip(p: Position)
    requires
        p.wf(),
    ensures
        board_of(board_text(p, 0)) == Some(Seq::new(64, |t: int| p.piece_on(t))),
{
    let b = board_text(p, 0);
    lemma_place_run(b, b.len() as int);
    assert(b.subrange(0, b.len() as int) =~= b);
    assert(board_below(p, 0) =~= empty_board());
    lemma_run_board(p, 0);
    assert(board_below(p, 64) =~= Seq::new(64, |t: int| p.piece_on(t)));
}

/// Bytes that are printable ASCII other than the space.
pub open spec fn printable(b: Seq<u8>) -> bool {
    forall|i: int| 0 <= i < b.len() ==> 33 <= #[trigger] b[i] <= 126
}

proof fn lemma_printable_concat(a: Seq<u8>, b: Seq<u8>)
    requires
        printable(a),
        printable(b),
    ensures
        printable(a + b),
{
    assert forall|i: int| 0 <= i < (a + b).len() implies 33 <= #[trigger] (a + b)[i] <= 126 by {
        if i < a.len() {
            assert((a + b)[i] == a[i]);
        } else {
            assert((a + b)[i] == b[i - a.len()]);
        }
    }
}

proof fn lemma_decimal_printable(n: nat)
    ensures
        printable(decimal(n)),
        decimal(n).len() > 0,
        48 <= decimal(n)[0] <= 57,
        48 <= decimal(n).last() <= 57,
    decreases n,
{
    lemma_decimal_ascii(n);
    assert forall|i: int| 0 <= i < decimal(n).len() implies 33 <= #[trigger] decimal(n)[i] <= 126 by {
        assert(48 <= decimal(n)[i] <= 57);
    }
}

proof fn lemma_rank_text_printable(p: Position, r: int, f: int, since: nat)
    requires
        p.wf(),
        0 <= r < 8,
        0 <= f <= 8,
        since <= f,
    ensures
        printable(rank_text(p, r, f, since)),
        (f < 8 || since > 0) ==> rank_text(p, r, f, since).len() > 0,
    decreases 8 - f,
{
    if since > 0 {
        lemma_decimal_printable(since);
    } else {
        assert(gap(since) =~= Seq::<u8>::empty());
    }
    if f < 8 {
        match p.piece_on(r * 8 + f) {
            Some(pc) => {
                lemma_rank_text_printable(p, r, f + 1, 0);
                let l = seq![piece_letter(pc.0, pc.1) as u8];
                assert(pc.1 != PieceType::Empty);
                assert(printable(l));
                lemma_printable_concat(gap(since), l);
                lemma_printable_concat(gap(since) + l, rank_text(p, r, f + 1, 0));
            },
            None => {
                lemma_rank_text_printable(p, r, f + 1, since + 1);
            },
        }
    }
}

proof fn lemma_board_text_printable(p: Position, r: int)
    requires
        p.wf(),
        0 <= r <= 8,
    ensures
        printable(board_text(p, r)),
        r < 8 ==> board_text(p, r).len() > 0,
    decreases 8 - r,
{
    if r < 8 {
        lemma_rank_text_printable(p, r, 0, 0);
        lemma_board_text_printable(p, r + 1);
        let sep: Seq<u8> = if r < 7 {
            seq![47u8]
        } else {
            Seq::empty()
        };
        assert(printable(sep));
        lemma_printable_concat(rank_text(p, r, 0, 0), sep);
        lemma_printable_concat(rank_text(p, r, 0, 0) + sep, board_text(p, r + 1));
    }
}

/// Bytes without a space are one field.
proof fn lemma_split_one(a: Seq<u8>)
    requires
        printable(a),
    ensures
        split_spaces(a) == seq![a],
    decreases a.len(),
{
    if a.len() == 0 {
        assert(a =~= Seq::<u8>::empty());
    } else {
        assert(printable(a.drop_last()));
        lemma_split_one(a.drop_last());
        assert(a.last() != 32);
        assert(a.drop_last().push(a.last()) =~= a);
        assert(seq![a.drop_last()].update(0, a.drop_last().push(a.last())) =~= seq![a]);
    }
}

/// A space splits the fields before it from those after it.
proof fn lemma_split_concat(x: Seq<u8>, y: Seq<u8>)
    ensures
        split_spaces(x + seq![32u8] + y) == split_spaces(x) + split_spaces(y),
    decreases y.len(),
{
    let xs = x + seq![32u8];
    if y.len() == 0 {
        assert(xs + y =~= xs);
        assert(xs.drop_last() =~= x);
        assert(split_spaces(xs) == split_spaces(x).push(Seq::<u8>::empty()));
        assert(split_spaces(x).push(Seq::<u8>::empty()) =~= split_spaces(x) + seq![
            Seq::<u8>::empty(),
        ]);
    } else {
        lemma_split_concat(x, y.drop_last());
        assert((xs + y).drop_last() =~= xs + y.drop_last());
        assert((xs + y).last() == y.last());
        let a = split_spaces(x);
        let b = split_spaces(y.drop_last());
        crate::fen::lemma_split_nonempty(y.drop_last());
        if y.last() == 32 {
            assert((a + b).push(Seq::<u8>::empty()) =~= a + b.push(Seq::<u8>::empty()));
        } else {
            assert((a + b).update((a + b).len() - 1, (a + b).last().push(y.last())) =~= a + b.update(
                b.len() - 1,
                b.last().push(y.last()),
            ));
        }
    }
}

/// Reading a position's FEN text gives back its board and its state, for an en
/// passant bitboard that is empty or holds one square.
pub proof fn lemma_fen_roundtrip(p: Position)
    requires
        p.wf(),
        p.enpassant_square.0 == 0 || exists|s: u64| s < 64 && p.enpassant_square.0 == 1u64 << s,
    ensures
        fen_ok(fen_text(p)),
        board_of(fen_fields(fen_text(p))[0]) == Some(Seq::new(64, |t: int| p.piece_on(t))),
        state_matches(fen_fields(fen_text(p)), p),
{
    let bt = board_text(p, 0);
    let c = seq![color_letter(p.active_color)];
    let cf = castling_field(p.castling_ability.byte);
    let ep = ep_text(p.enpassant_square.0);
    let hm = decimal(p.half_moves as nat);
    let fm = decimal(p.full_moves as nat);
    lemma_board_text_printable(p, 0);
    lemma_decimal_printable(p.half_moves as nat);
    lemma_decimal_printable(p.full_moves as nat);
    assert(printable(c));
    assert(printable(cf));
    let e = p.enpassant_square.0;
    let ghost s: u64 = if e == 0 {
        0
    } else {
        choose|s: u64| s < 64 && e == 1u64 << s
    };
    if e != 0 {
        lemma_trailing_zeros_single(s);
        lemma_square_name_roundtrip(s as int);
    }
    assert(printable(ep));
    let text = fen_text(p);
    // The fields, joined by single spaces
    let j1 = bt + seq![32u8] + c;
    let j2 = j1 + seq![32u8] + cf;
    let j3 = j2 + seq![32u8] + ep;
    let j4 = j3 + seq![32u8] + hm;
    let j5 = j4 + seq![32u8] + fm;
    assert(text =~= j5);
    lemma_split_one(bt);
    lemma_split_one(c);
    lemma_split_one(cf);
    lemma_split_one(ep);
    lemma_split_one(hm);
    lemma_split_one(fm);
    lemma_split_concat(bt, c);
    lemma_split_concat(j1, cf);
    lemma_split_concat(j2, ep);
    lemma_split_concat(j3, hm);
    lemma_split_concat(j4, fm);
    let fields = seq![bt, c, cf, ep, hm, fm];
    assert(split_spaces(text) =~= fields);
    // The text has no white space at either end
    assert(text[0] == bt[0]);
    assert(text.last() == fm.last());
    assert(trim_start(text) == text);
    assert(trim_end(text) == text);
    assert(trim(text) == text);
    assert(fen_fields(text) == fields);
    // Each field reads back
    lemma_board_text_roundtrip(p);
    lemma_castling_field_roundtrip(p.castling_ability.byte);
    assert(parse_color(c) == Some(p.active_color));
    assert(fen_ep(fields) == Some(e)) by {
        if e != 0 {
            assert(square_name(s as int) != seq![45u8]);
        }
    }
    lemma_decimal_value(p.half_moves as nat);
    lemma_decimal_value(p.full_moves as nat);
    lemma_decimal_ascii(p.half_moves as nat);
    lemma_decimal_ascii(p.full_moves as nat);
    assert(unsigned_digits(hm) == hm);
    assert(unsigned_digits(fm) == fm);
    assert(fen_number(fields, 4, 255) == Some(p.half_moves as nat));
    assert(fen_number(fields, 5, 65535) == Some(p.full_moves as nat));
}

/// A position read back from the FEN text of another has the same pieces and the
/// same state, and the same hash when the hash of the first is up to date.
pub proof fn lemma_fen_position_roundtrip(p: Position, q: Position)
    requires
        p.wf(),
        p.enpassant_square.0 == 0 || exists|s: u64| s < 64 && p.enpassant_square.0 == 1u64 << s,
        fen_describes(fen_text(p), q),
    ensures
        forall|t: int| 0 <= t < 64 ==> #[trigger] q.piece_on(t) == p.piece_on(t),
        q.active_color == p.active_color,
        q.castling_ability == p.castling_ability,
        q.enpassant_square == p.enpassant_square,
        q.half_moves == p.half_moves,
        q.full_moves == p.full_moves,
        p.zobrist_hash == hash_of(p) ==> q.zobrist_hash == p.zobrist_hash,
{
    lemma_fen_roundtrip(p);
    let f = fen_fields(fen_text(p));
    assert forall|t: int| 0 <= t < 64 implies #[trigger] q.piece_on(t) == p.piece_on(t) by {
        assert(q.piece_on(t) == board_of(f[0])->0[t]);
    }
    lemma_board_hash_same(q, p);
}

/// The text of a rank depends only on the pieces on the board.
proof fn lemma_rank_text_same(p: Position, q: Position, r: int, f: int, since: nat)
    requires
        0 <= r < 8,
        0 <= f,
        forall|t: int| 0 <= t < 64 ==> #[trigger] q.piece_on(t) == p.piece_on(t),
    ensures
        rank_text(q, r, f, since) == rank_text(p, r, f, since),
    decreases 8 - f,
{
    if f < 8 {
        assert(0 <= r * 8 + f < 64);
        assert(q.piece_on(r * 8 + f) == p.piece_on(r * 8 + f));
        lemma_rank_text_same(p, q, r, f + 1, 0);
        lemma_rank_text_same(p, q, r, f + 1, since + 1);
    }
}

/// The text of the board depends only on the pieces on it.
proof fn lemma_board_text_same(p: Position, q: Position, r: int)
    requires
        0 <= r,
        forall|t: int| 0 <= t < 64 ==> #[trigger] q.piece_on(t) == p.piece_on(t),
    ensures
        board_text(q, r) == board_text(p, r),
    decreases 8 - r,
{
    if r < 8 {
        lemma_rank_text_same(p, q, r, 0, 0);
        lemma_board_text_same(p, q, r + 1);
    }
}

/// A FEN text that some position writes is written again, letter for letter, by
/// the position read from it.
pub proof fn lemma_fen_text_roundtrip(p: Position, q: Position)
    requires
        p.wf(),
        p.enpassant_square.0 == 0 || exists|s: u64| s < 64 && p.enpassant_square.0 == 1u64 << s,
        fen_describes(fen_text(p), q),
    ensures
        fen_text(q) == fen_text(p),
{
    lemma_fen_position_roundtrip(p, q);
    lemma_board_text_same(p, q, 0);
}

/// A canonical FEN text: one that a position writes (a single en passant square at
/// most).
pub open spec fn canonical_fen(s: Seq<u8>) -> bool {
    exists|p: Position|
        #![trigger fen_text(p)]
        p.wf() && (p.enpassant_square.0 == 0 || exists|e: u64| e < 64 && p.enpassant_square.0 == 1u64 << e)
            && fen_text(p) == s
}

/// A canonical FEN text reads back to itself: the position it describes writes it.
pub proof fn lemma_canonical_fen_roundtrip(s: Seq<u8>, q: Position)
    requires
        canonical_fen(s),
        fen_describes(s, q),
    ensures
        fen_text(q) == s,
{
    let p = choose|p: Position|
        #![trigger fen_text(p)]
        p.wf() && (p.enpassant_square.0 == 0 || exists|e: u64| e < 64 && p.enpassant_square.0 == 1u64 << e)
            && fen_text(p) == s;
    lemma_fen_text_roundtrip(p, q);
}

} // verus!
