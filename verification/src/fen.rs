use vstd::prelude::*;

verus! {

use vstd::string::StringSliceAdditionalSpecFns;
use crate::bits::{bit, group_bit_lemmas};
use crate::bitboard::{Bitboard, BitUtils};
use crate::castling::{CastlingAbility, parse_castling, lemma_parse_castling_small};
use crate::color::{Color, parse_color};
use crate::piece::{PieceType, letter_piece, char_to_piece};
use crate::position::Position;
use crate::repetition::RepetitionTable;
use crate::square::{Square, parse_square};
use crate::text::{
    parse_unsigned, parses_unsigned, unsigned_digits, digits_value, decimal, decimal_bytes,
    push_all, all_ascii, ascii_chars, ascii_string, lemma_ascii_concat, lemma_decimal_ascii,
};
use crate::castling::{castling_field, castling_first_bad, castling_error_text};
use crate::castling::letter_side;
use crate::text::text_of;
use crate::piece::{piece_letter, piece_char};
use crate::square::{square_name, square_name_bytes};
use vstd::std_specs::bits::u64_trailing_zeros;
use crate::zobrist::hash_of;

/// White space at the ends of a FEN string, as `str::trim` removes it for ASCII text.
pub open spec fn is_space(c: u8) -> bool {
    c == 32 || (9 <= c && c <= 13)
}

pub open spec fn trim_start(b: Seq<u8>) -> Seq<u8>
    decreases b.len(),
{
    if b.len() > 0 && is_space(b[0]) {
        trim_start(b.drop_first())
    } else {
        b
    }
}

pub open spec fn trim_end(b: Seq<u8>) -> Seq<u8>
    decreases b.len(),
{
    if b.len() > 0 && is_space(b.last()) {
        trim_end(b.drop_last())
    } else {
        b
    }
}

/// The bytes without white space at either end.
pub open spec fn trim(b: Seq<u8>) -> Seq<u8> {
    trim_end(trim_start(b))
}

/// The fields of `b` between single spaces, as `str::split(' ')` yields them:
/// there is always at least one, and two spaces in a row give an empty field.
pub open spec fn split_spaces(b: Seq<u8>) -> Seq<Seq<u8>>
    decreases b.len(),
{
    if b.len() == 0 {
        seq![Seq::<u8>::empty()]
    } else {
        let f = split_spaces(b.drop_last());
        if b.last() == 32 {
            f.push(Seq::<u8>::empty())
        } else {
            f.update(f.len() - 1, f.last().push(b.last()))
        }
    }
}

/// There is always at least one field.
pub proof fn lemma_split_nonempty(b: Seq<u8>)
    ensures
        split_spaces(b).len() >= 1,
    decreases b.len(),
{
    if b.len() > 0 {
        lemma_split_nonempty(b.drop_last());
    }
}

/// The bounds of `b` without white space at either end.
fn trim_bounds(b: &[u8]) -> (r: (usize, usize))
    ensures
        r.0 <= r.1 <= b.len(),
        b@.subrange(r.0 as int, r.1 as int) == trim(b@),
{
    let n = b.len();
    let mut i: usize = 0;
    assert(b@.subrange(0, n as int) =~= b@);
    while i < n && (b[i] == 32u8 || (9u8 <= b[i] && b[i] <= 13u8))
        invariant
            i <= n == b.len(),
            trim_start(b@) == trim_start(b@.subrange(i as int, n as int)),
        decreases n - i,
    {
        assert(b@.subrange(i as int, n as int).drop_first() =~= b@.subrange(i as int + 1, n as int));
        i = i + 1;
    }
    let ghost rest = b@.subrange(i as int, n as int);
    assert(trim_start(rest) == rest);
    let mut j: usize = n;
    while j > i && (b[j - 1] == 32u8 || (9u8 <= b[j - 1] && b[j - 1] <= 13u8))
        invariant
            i <= j <= n == b.len(),
            trim_end(rest) == trim_end(b@.subrange(i as int, j as int)),
            rest == b@.subrange(i as int, n as int),
        decreases j - i,
    {
        assert(b@.subrange(i as int, j as int).drop_last() =~= b@.subrange(i as int, j as int - 1));
        j = j - 1;
    }
    (i, j)
}

/// Bounds `p` in `b` hold the bytes `field` and end at or before `lim`.
pub open spec fn bounds_hold(b: Seq<u8>, p: (usize, usize), field: Seq<u8>, lim: int) -> bool {
    p.0 <= p.1 <= lim && b.subrange(p.0 as int, p.1 as int) == field
}

/// The bounds in `r` hold the fields of `b` between single spaces.
pub open spec fn fields_match(b: Seq<u8>, r: Seq<(usize, usize)>) -> bool {
    &&& r.len() == split_spaces(b).len()
    &&& forall|k: int|
        #![trigger r[k]]
        0 <= k < r.len() ==> bounds_hold(b, r[k], split_spaces(b)[k], b.len() as int)
}

/// The bounds of the fields of `b` between single spaces.
fn split_fields(b: &[u8]) -> (r: Vec<(usize, usize)>)
    ensures
        fields_match(b@, r@),
{
    let n = b.len();
    let mut r: Vec<(usize, usize)> = Vec::new();
    let mut cs: usize = 0;
    let mut i: usize = 0;
    assert(b@.subrange(0, 0) =~= Seq::<u8>::empty());
    while i < n
        invariant
            n == b.len(),
            cs <= i <= n,
            r.len() + 1 == split_spaces(b@.subrange(0, i as int)).len(),
            forall|k: int|
                #![trigger r@[k]]
                0 <= k < r.len() ==> bounds_hold(
                    b@,
                    r@[k],
                    split_spaces(b@.subrange(0, i as int))[k],
                    i as int,
                ),
            b@.subrange(cs as int, i as int) == split_spaces(b@.subrange(0, i as int)).last(),
        decreases n - i,
    {
        let ghost pre = b@.subrange(0, i as int);
        let ghost next = b@.subrange(0, i as int + 1);
        let ghost f = split_spaces(pre);
        let ghost old_r = r@;
        assert(next.drop_last() =~= pre);
        assert(next.last() == b@[i as int]);
        if b[i] == 32u8 {
            let ghost nf = f.push(Seq::<u8>::empty());
            assert(split_spaces(next) == nf);
            r.push((cs, i));
            assert forall|k: int| #![trigger r@[k]] 0 <= k < r.len() implies bounds_hold(
                b@,
                r@[k],
                nf[k],
                i + 1,
            ) by {
                if k < old_r.len() {
                    assert(r@[k] == old_r[k]);
                    assert(bounds_hold(b@, old_r[k], f[k], i as int));
                }
            }
            cs = i + 1;
            assert(b@.subrange(cs as int, i as int + 1) =~= Seq::<u8>::empty());
        } else {
            let ghost nf = f.update(f.len() - 1, f.last().push(b@[i as int]));
            assert(split_spaces(next) == nf);
            assert forall|k: int| #![trigger r@[k]] 0 <= k < r.len() implies bounds_hold(
                b@,
                r@[k],
                nf[k],
                i + 1,
            ) by {
                assert(bounds_hold(b@, old_r[k], f[k], i as int));
                assert(nf[k] == f[k]);
            }
            assert(b@.subrange(cs as int, i as int + 1) =~= b@.subrange(cs as int, i as int).push(
                b@[i as int],
            ));
        }
        i = i + 1;
    }
    assert(b@.subrange(0, n as int) =~= b@);
    let ghost old_r = r@;
    r.push((cs, n));
    assert forall|k: int| #![trigger r@[k]] 0 <= k < r.len() implies bounds_hold(
        b@,
        r@[k],
        split_spaces(b@)[k],
        n as int,
    ) by {
        if k < old_r.len() {
            assert(r@[k] == old_r[k]);
            assert(bounds_hold(b@, old_r[k], split_spaces(b@)[k], i as int));
        }
    }
    r
}

/// A board with no piece on it.
pub open spec fn empty_board() -> Seq<Option<(Color, PieceType)>> {
    Seq::new(64, |i: int| None)
}

/// Reading one byte of the board field of a FEN string, from the square reached
/// and the pieces placed so far: a digit skips that many squares, '/' is passed
/// over, and a piece letter places its piece; `None` once the field is malformed,
/// or when a byte is read past the last square.
pub open spec fn step_place(
    st: Option<(int, Seq<Option<(Color, PieceType)>>)>,
    c: u8,
) -> Option<(int, Seq<Option<(Color, PieceType)>>)> {
    match st {
        None => None,
        Some((sq, board)) => {
            if sq > 63 {
                None
            } else if 48 <= c && c <= 57 {
                Some((sq + (c - 48), board))
            } else if c == 47 {
                Some((sq, board))
            } else {
                match letter_piece(c as char) {
                    Some(p) => Some((sq + 1, board.update(sq, Some(p)))),
                    None => None,
                }
            }
        },
    }
}

/// The square reached and the pieces placed after reading the first `n` bytes of
/// the board field of a FEN string.
pub open spec fn place_pieces(b: Seq<u8>, n: int) -> Option<(int, Seq<Option<(Color, PieceType)>>)>
    decreases n,
{
    if n <= 0 {
        Some((0, empty_board()))
    } else {
        step_place(place_pieces(b, n - 1), b[n - 1])
    }
}

/// The square reached after reading the first `n` bytes of a board field.
pub open spec fn reached_square(b: Seq<u8>, n: int) -> int {
    let (sq, _) = place_pieces(b, n)->0;
    sq
}

/// The pieces placed after reading the first `n` bytes of a board field.
pub open spec fn placed(b: Seq<u8>, n: int) -> Seq<Option<(Color, PieceType)>> {
    let (_, board) = place_pieces(b, n)->0;
    board
}

/// The pieces the board field of a FEN string places, if it is well formed.
pub open spec fn board_of(b: Seq<u8>) -> Option<Seq<Option<(Color, PieceType)>>> {
    match place_pieces(b, b.len() as int) {
        Some((_, board)) => Some(board),
        None => None,
    }
}

proof fn lemma_place_none_stays(b: Seq<u8>, n: int, m: int)
    requires
        0 <= n <= m,
        place_pieces(b, n) is None,
    ensures
        place_pieces(b, m) is None,
    decreases m - n,
{
    if n < m {
        lemma_place_none_stays(b, n, m - 1);
    }
}

/// The fields of a FEN string.
pub open spec fn fen_fields(b: Seq<u8>) -> Seq<Seq<u8>> {
    split_spaces(trim(b))
}

/// Field `k`, or `d` where there are fewer fields.
pub open spec fn field_or(f: Seq<Seq<u8>>, k: int, d: Seq<u8>) -> Seq<u8> {
    if k < f.len() {
        f[k]
    } else {
        d
    }
}

/// The en passant bitboard the fourth field stands for; `None` if it is malformed.
pub open spec fn fen_ep(f: Seq<Seq<u8>>) -> Option<u64> {
    if f.len() > 3 && f[3] != seq![45u8] {
        match parse_square(f[3]) {
            Some(s) => Some(1u64 << (s as u64)),
            None => None,
        }
    } else {
        Some(0)
    }
}

/// The counter field `k` stands for, at most `max`; 0 when it is missing and `None`
/// if it is malformed.
pub open spec fn fen_number(f: Seq<Seq<u8>>, k: int, max: nat) -> Option<nat> {
    if f.len() > k {
        if parses_unsigned(f[k], max) {
            Some(digits_value(unsigned_digits(f[k])))
        } else {
            None
        }
    } else {
        Some(0)
    }
}

/// The state fields of a FEN string are well formed. The castling field defaults
/// to "-", and the en passant and counter fields may be left out.
pub open spec fn fields_ok(f: Seq<Seq<u8>>) -> bool {
    &&& f.len() > 1 && parse_color(f[1]) is Some
    &&& parse_castling(field_or(f, 2, seq![45u8])) is Some
    &&& fen_ep(f) is Some
    &&& fen_number(f, 4, 255) is Some
    &&& fen_number(f, 5, 65535) is Some
}

/// A FEN string that `from_fen` accepts.
pub open spec fn fen_ok(b: Seq<u8>) -> bool {
    fields_ok(fen_fields(b)) && board_of(fen_fields(b)[0]) is Some
}

/// The game state of `pos` is the one the state fields `f` stand for.
pub open spec fn state_matches(f: Seq<Seq<u8>>, pos: Position) -> bool {
    &&& pos.active_color == parse_color(f[1])->0
    &&& pos.castling_ability.byte == parse_castling(field_or(f, 2, seq![45u8]))->0
    &&& pos.enpassant_square.0 == fen_ep(f)->0
    &&& pos.half_moves == fen_number(f, 4, 255)->0
    &&& pos.full_moves == fen_number(f, 5, 65535)->0
}

/// The board of `pos` is the one a board field places.
pub open spec fn board_matches(board: Seq<Option<(Color, PieceType)>>, pos: Position) -> bool {
    forall|s: int| 0 <= s < 64 ==> #[trigger] pos.piece_on(s) == board[s]
}

/// `pos` is the position an accepted FEN string describes.
pub open spec fn fen_describes(b: Seq<u8>, pos: Position) -> bool {
    let f = fen_fields(b);
    &&& pos.wf()
    &&& board_matches(board_of(f[0])->0, pos)
    &&& state_matches(f, pos)
    &&& pos.zobrist_hash == hash_of(pos)
    &&& pos.rep_table.length() == 0
}

/// A position with an empty board and the given state.
fn empty_position(
    active_color: Color,
    enpassant_square: Bitboard,
    castling_ability: CastlingAbility,
    full_moves: u16,
    half_moves: u8,
) -> (r: Position)
    requires
        castling_ability.byte < 16,
    ensures
        r.wf(),
        forall|s: int| 0 <= s < 64 ==> #[trigger] r.piece_on(s) is None,
        r.active_color == active_color,
        r.enpassant_square == enpassant_square,
        r.castling_ability == castling_ability,
        r.full_moves == full_moves,
        r.half_moves == half_moves,
        r.rep_table.length() == 0,
{
    let pos = Position {
        bitboards: [Bitboard(0); 12],
        color_occupancies: [Bitboard(0); 2],
        all_occupancies: Bitboard(0),
        piece_squares: [PieceType::Empty; 64],
        active_color,
        enpassant_square,
        castling_ability,
        full_moves,
        half_moves,
        zobrist_hash: 0,
        rep_table: RepetitionTable::new(),
    };
    assert(pos.bitboards@ =~= Seq::new(12, |i: int| Bitboard(0)));
    assert(pos.color_occupancies@ =~= Seq::new(2, |i: int| Bitboard(0)));
    assert(pos.piece_squares@ =~= Seq::new(64, |i: int| PieceType::Empty));
    assert forall|s: int| 0 <= s < 64 implies #[trigger] pos.square_ok(s) by {
        broadcast use group_bit_lemmas;
        assert(!bit(0u64, s));
    }
    pos
}

/// What the error text of the state fields `f` of a FEN string is, for the first
/// field that fails: no side to move, an unknown side (quoted when ASCII), a bad
/// castling field (as `CastlingAbility::from_bytes` words it), or a move counter
/// that is not a number. A bad en passant field is worded by `Square`.
pub open spec fn state_error_ok(f: Seq<Seq<u8>>, e: Seq<char>) -> bool {
    let cf = field_or(f, 2, seq![45u8]);
    if f.len() < 2 {
        e == "Expected a color char"@
    } else if parse_color(f[1]) is None {
        all_ascii(f[1]) ==> e == "Illegal color string: '"@ + ascii_chars(f[1])
            + "'. Expected 'w' or 'b'"@
    } else if parse_castling(cf) is None {
        exists|i: int|
            castling_first_bad(cf, i) && (cf[i] < 128 || letter_side(cf[i]) is Some ==> e
                == castling_error_text(cf, i))
    } else if fen_ep(f) is None {
        true
    } else if fen_number(f, 4, 255) is None {
        e == "Half moves was not a number"@
    } else if fen_number(f, 5, 65535) is None {
        e == "Full moves was not a number"@
    } else {
        true
    }
}

/// Reads the state fields of a FEN string: the side to move, the castling
/// ability, the en passant bitboard and the two move counters.
fn read_state(b: &[u8], fields: &Vec<(usize, usize)>) -> (r: Result<
    (Color, CastlingAbility, Bitboard, u8, u16),
    String,
>)
    requires
        fields_match(b@, fields@),
    ensures
        r is Ok <==> fields_ok(split_spaces(b@)),
        r matches Ok((c, ca, ep, hm, fm)) ==> {
            let f = split_spaces(b@);
            &&& c == parse_color(f[1])->0
            &&& ca.byte == parse_castling(field_or(f, 2, seq![45u8]))->0
            &&& ca.byte < 16
            &&& ep.0 == fen_ep(f)->0
            &&& hm == fen_number(f, 4, 255)->0
            &&& fm == fen_number(f, 5, 65535)->0
        },
        r is Err ==> state_error_ok(split_spaces(b@), r->Err_0@),
{
    let ghost f = split_spaces(b@);
    // Active color
    if fields.len() < 2 {
        return Err("Expected a color char".to_string());
    }
    let (s1, e1) = fields[1];
    assert(bounds_hold(b@, fields@[1], f[1], b.len() as int));
    let active_color = match Color::from_bytes(&b[s1..e1]) {
        Some(c) => c,
        None => {
            let t = text_of(&b[s1..e1]);
            return Err(
                "Illegal color string: '".to_string().concat(t.as_str()).concat(
                    "'. Expected 'w' or 'b'",
                ),
            );
        },
    };
    // Castling ability
    let castling_ability = if fields.len() > 2 {
        let (s2, e2) = fields[2];
        assert(bounds_hold(b@, fields@[2], f[2], b.len() as int));
        match CastlingAbility::from_bytes(&b[s2..e2]) {
            Ok(c) => c,
            Err(e) => {
                return Err(e);
            },
        }
    } else {
        CastlingAbility { byte: 0 }
    };
    proof {
        lemma_parse_castling_small(field_or(f, 2, seq![45u8]));
    }
    // En passant square
    let mut enpassant_square = Bitboard(0);
    if fields.len() > 3 {
        let (s3, e3) = fields[3];
        assert(bounds_hold(b@, fields@[3], f[3], b.len() as int));
        let ep = &b[s3..e3];
        if !(ep.len() == 1 && ep[0] == 45u8) {
            assert(ep@ != seq![45u8]);
            match Square::from_bytes(ep) {
                Ok(sq) => {
                    enpassant_square = Bitboard(1u64 << (sq.index() as u64));
                },
                Err(e) => {
                    return Err(e);
                },
            }
        } else {
            assert(ep@ =~= seq![45u8]);
        }
    }
    // Half move clock
    let half_moves: u8 = if fields.len() > 4 {
        let (s4, e4) = fields[4];
        assert(bounds_hold(b@, fields@[4], f[4], b.len() as int));
        match parse_unsigned(&b[s4..e4], 255) {
            Some(v) => v as u8,
            None => {
                return Err("Half moves was not a number".to_string());
            },
        }
    } else {
        0
    };
    // Full move number
    let full_moves: u16 = if fields.len() > 5 {
        let (s5, e5) = fields[5];
        assert(bounds_hold(b@, fields@[5], f[5], b.len() as int));
        match parse_unsigned(&b[s5..e5], 65535) {
            Some(v) => v as u16,
            None => {
                return Err("Full moves was not a number".to_string());
            },
        }
    } else {
        0
    };
    Ok((active_color, castling_ability, enpassant_square, half_moves, full_moves))
}

/// The refusal of a FEN board field names what stops it at the first character
/// where it stops: a character that is no digit, '/' or piece letter, or a board
/// that runs past its last square.
pub open spec fn board_error_ok(board: Seq<u8>, e: Seq<char>) -> bool {
    exists|k: int|
        0 <= k < board.len() && #[trigger] place_pieces(board, k) is Some && place_pieces(board, k + 1)
            is None && if reached_square(board, k) > 63 {
            e == "Board from fen does not fit on the board"@
        } else {
            e == "Illegal piece char: '"@ + seq![board[k] as char] + "'"@
        }
}

/// Places the pieces of the board field of a FEN string on an empty board.
fn place_board(board: &[u8], pos: &mut Position) -> (r: Result<(), String>)
    requires
        old(pos).wf(),
        forall|s: int| 0 <= s < 64 ==> #[trigger] old(pos).piece_on(s) is None,
    ensures
        r is Ok <==> board_of(board@) is Some,
        r matches Err(e) ==> board_error_ok(board@, e@),
        r is Ok ==> final(pos).wf() && board_matches(board_of(board@)->0, *final(pos)),
        final(pos).same_state(*old(pos)),
{
    let ghost start = *pos;
    let mut square: u8 = 0;
    let mut k: usize = 0;
    assert(placed(board@, 0) =~= empty_board());
    while k < board.len()
        invariant
            k <= board.len(),
            place_pieces(board@, k as int) is Some,
            reached_square(board@, k as int) == square as int,
            square <= 72,
            placed(board@, k as int).len() == 64,
            pos.wf(),
            board_matches(placed(board@, k as int), *pos),
            forall|s: int| square <= s < 64 ==> #[trigger] placed(board@, k as int)[s] is None,
            pos.same_state(start),
            start == *old(pos),
        decreases board.len() - k,
    {
        let c = board[k];
        let ghost prev = placed(board@, k as int);
        if square > 63 {
            proof {
                assert(place_pieces(board@, k as int + 1) is None);
                lemma_place_none_stays(board@, k as int + 1, board@.len() as int);
            }
            let e = "Board from fen does not fit on the board".to_string();
            assert(board_error_ok(board@, e@));
            return Err(e);
        }
        if 48u8 <= c && c <= 57u8 {
            square = square + (c - 48u8);
        } else if c != 47u8 {
            match char_to_piece(c as char) {
                Ok(p) => {
                    let ghost before = *pos;
                    pos.place_piece(p.0, p.1, square);
                    assert forall|s: int| 0 <= s < 64 implies #[trigger] pos.piece_on(s)
                        == prev.update(square as int, Some(p))[s] by {
                        if s != square as int {
                            assert(before.piece_on(s) == prev[s]);
                        }
                    }
                    square = square + 1;
                },
                Err(e) => {
                    proof {
                        assert(place_pieces(board@, k as int + 1) is None);
                        lemma_place_none_stays(board@, k as int + 1, board@.len() as int);
                        assert(board_error_ok(board@, e@));
                    }
                    return Err(e);
                },
            }
        }
        k = k + 1;
    }
    assert(board@.len() == board.len());
    Ok(())
}

/// The count of empty squares in a rank of a FEN board field; nothing for none.
pub open spec fn gap(n: nat) -> Seq<u8> {
    if n > 0 {
        decimal(n)
    } else {
        Seq::empty()
    }
}

/// The FEN text of rank row `r` from file `f` on, after `since` empty squares.
pub open spec fn rank_text(pos: Position, r: int, f: int, since: nat) -> Seq<u8>
    decreases 8 - f,
{
    if f >= 8 {
        gap(since)
    } else {
        match pos.piece_on(r * 8 + f) {
            Some(p) => gap(since) + seq![piece_letter(p.0, p.1) as u8] + rank_text(pos, r, f + 1, 0),
            None => rank_text(pos, r, f + 1, since + 1),
        }
    }
}

/// The FEN board field from rank row `r` on: the ranks separated by '/'.
pub open spec fn board_text(pos: Position, r: int) -> Seq<u8>
    decreases 8 - r,
{
    if r >= 8 {
        Seq::empty()
    } else {
        rank_text(pos, r, 0, 0) + (if r < 7 {
            seq![47u8]
        } else {
            Seq::empty()
        }) + board_text(pos, r + 1)
    }
}

/// The FEN letter of the side to move.
pub open spec fn color_letter(c: Color) -> u8 {
    match c {
        Color::White => 119,
        Color::Black => 98,
    }
}

/// The FEN en passant field: the name of the square, or "-".
pub open spec fn ep_text(ep: u64) -> Seq<u8> {
    if ep == 0 {
        seq![45u8]
    } else {
        square_name(u64_trailing_zeros(ep) as int)
    }
}

/// The Forsyth-Edwards Notation of a position.
pub open spec fn fen_text(pos: Position) -> Seq<u8> {
    board_text(pos, 0) + seq![32u8, color_letter(pos.active_color), 32u8] + castling_field(
        pos.castling_ability.byte,
    ) + seq![32u8] + ep_text(pos.enpassant_square.0) + seq![32u8] + decimal(
        pos.half_moves as nat,
    ) + seq![32u8] + decimal(pos.full_moves as nat)
}

/// Appends the digits of a count of empty squares, if there are any.
fn push_gap(out: &mut Vec<u8>, since: u8)
    requires
        all_ascii(old(out)@),
    ensures
        final(out)@ == old(out)@ + gap(since as nat),
        all_ascii(final(out)@),
{
    if since > 0 {
        let d = decimal_bytes(since as u64);
        proof {
            lemma_decimal_ascii(since as nat);
            lemma_ascii_concat(out@, d@);
        }
        push_all(out, &d);
    } else {
        assert(out@ + gap(since as nat) =~= out@);
    }
}

/// Appends the bytes of `b` to ASCII bytes.
fn push_ascii(out: &mut Vec<u8>, b: &Vec<u8>)
    requires
        all_ascii(old(out)@),
        all_ascii(b@),
    ensures
        final(out)@ == old(out)@ + b@,
        all_ascii(final(out)@),
{
    proof {
        lemma_ascii_concat(out@, b@);
    }
    push_all(out, b);
}

/// The piece that starts on file `c` of a back rank.
pub open spec fn back_rank(c: int) -> PieceType {
    if c == 0 || c == 7 {
        PieceType::Rook
    } else if c == 1 || c == 6 {
        PieceType::Knight
    } else if c == 2 || c == 5 {
        PieceType::Bishop
    } else if c == 3 {
        PieceType::Queen
    } else {
        PieceType::King
    }
}

/// The piece on square `s` in the starting position.
pub open spec fn start_piece(s: int) -> Option<(Color, PieceType)> {
    let r = s / 8;
    let c = s % 8;
    if r == 0 {
        Some((Color::Black, back_rank(c)))
    } else if r == 1 {
        Some((Color::Black, PieceType::Pawn))
    } else if r == 6 {
        Some((Color::White, PieceType::Pawn))
    } else if r == 7 {
        Some((Color::White, back_rank(c)))
    } else {
        None
    }
}

/// `p` is the starting position of a game of chess.
pub open spec fn start_position(p: Position) -> bool {
    &&& p.wf()
    &&& board_matches(Seq::new(64, |s: int| start_piece(s)), p)
    &&& p.active_color == Color::White
    &&& p.castling_ability.byte == 15
    &&& p.enpassant_square.0 == 0
    &&& p.half_moves == 0
    &&& p.full_moves == 1
    &&& p.zobrist_hash == hash_of(p)
    &&& p.rep_table.length() == 0
}

fn back_rank_piece(c: u8) -> (r: PieceType)
    requires
        c < 8,
    ensures
        r == back_rank(c as int),
{
    if c == 0 || c == 7 {
        PieceType::Rook
    } else if c == 1 || c == 6 {
        PieceType::Knight
    } else if c == 2 || c == 5 {
        PieceType::Bishop
    } else if c == 3 {
        PieceType::Queen
    } else {
        PieceType::King
    }
}

impl Position {
    /// The starting position of a game of chess: the position of the FEN string
    /// "rnbqkbnr/pppppppp/8/8/8/8/PPPPPPPP/RNBQKBNR w KQkq - 0 1".
    pub fn start_pos() -> (r: Position)
        ensures
            start_position(r),
    {
        let mut pos = empty_position(Color::White, Bitboard(0), CastlingAbility { byte: 15 }, 1, 0);
        let ghost start = pos;
        let mut c: u8 = 0;
        while c < 8
            invariant
                c <= 8,
                pos.wf(),
                pos.same_state(start),
                forall|s: int|
                    0 <= s < 64 ==> #[trigger] pos.piece_on(s) == if s % 8 < c {
                        start_piece(s)
                    } else {
                        None
                    },
            decreases 8 - c,
        {
            let ghost p0 = pos;
            let back = back_rank_piece(c);
            pos.place_piece(Color::Black, back, c);
            pos.place_piece(Color::Black, PieceType::Pawn, 8 + c);
            pos.place_piece(Color::White, PieceType::Pawn, 48 + c);
            pos.place_piece(Color::White, back, 56 + c);
            assert forall|s: int| 0 <= s < 64 implies #[trigger] pos.piece_on(s) == if s % 8 < c
                + 1 {
                start_piece(s)
            } else {
                None
            } by {
                if s != c as int && s != 8 + c && s != 48 + c && s != 56 + c {
                    assert(pos.piece_on(s) == p0.piece_on(s));
                }
            }
            c = c + 1;
        }
        let ghost p1 = pos;
        pos.generate_zobrist_hash();
        assert forall|s: int| 0 <= s < 64 implies #[trigger] pos.piece_on(s) == Seq::new(
            64,
            |s: int| start_piece(s),
        )[s] by {
            assert(p1.piece_on(s) == start_piece(s));
        }
        pos
    }

    /// The Forsyth-Edwards Notation of the position, as bytes.
    pub fn fen_bytes(&self) -> (r: Vec<u8>)
        requires
            self.wf(),
        ensures
            r@ == fen_text(*self),
            all_ascii(r@),
    {
        let mut out: Vec<u8> = Vec::new();
        let mut r: u8 = 0;
        assert(out@ + board_text(*self, 0) =~= board_text(*self, 0));
        while r < 8
            invariant
                r <= 8,
                self.wf(),
                out@ + board_text(*self, r as int) == board_text(*self, 0),
                all_ascii(out@),
            decreases 8 - r,
        {
            let ghost before = out@;
            let mut since: u8 = 0;
            let mut f: u8 = 0;
            assert(out@ + rank_text(*self, r as int, 0, 0) =~= before + rank_text(*self, r as int, 0, 0));
            while f < 8
                invariant
                    r < 8,
                    f <= 8,
                    since <= f,
                    self.wf(),
                    out@ + rank_text(*self, r as int, f as int, since as nat) == before + rank_text(
                        *self,
                        r as int,
                        0,
                        0,
                    ),
                    all_ascii(out@),
                decreases 8 - f,
            {
                let ghost o = out@;
                let ghost s0 = since;
                match self.piece_at(r * 8 + f) {
                    Some(p) => {
                        push_gap(&mut out, since);
                        since = 0;
                        let ghost o2 = out@;
                        let c = piece_char(p.0, p.1);
                        out.push(c as u8);
                        assert(c as u8 == piece_letter(p.0, p.1) as u8);
                        assert((c as u8) < 128);
                        assert(all_ascii(out@)) by {
                            assert forall|i: int| 0 <= i < out@.len() implies #[trigger] out@[i]
                                < 128 by {
                                if i < o2.len() {
                                    assert(out@[i] == o2[i]);
                                }
                            }
                        }
                        assert(self.piece_on(r * 8 + f) == Some(p));
                        assert(out@ + rank_text(*self, r as int, f as int + 1, 0) =~= o
                            + rank_text(*self, r as int, f as int, s0 as nat));
                    },
                    None => {
                        since = since + 1;
                    },
                }
                f = f + 1;
            }
            push_gap(&mut out, since);
            assert(out@ =~= before + rank_text(*self, r as int, 0, 0));
            if r < 7 {
                out.push(47u8);
            }
            assert(all_ascii(out@));
            assert(out@ + board_text(*self, r as int + 1) =~= before + board_text(*self, r as int));
            r = r + 1;
        }
        assert(out@ =~= board_text(*self, 0));
        out.push(32u8);
        out.push(if self.active_color.is_white() { 119u8 } else { 98u8 });
        out.push(32u8);
        let cf = self.castling_ability.to_fen_bytes();
        assert(all_ascii(cf@));
        push_ascii(&mut out, &cf);
        out.push(32u8);
        if self.enpassant_square.is_empty() {
            out.push(45u8);
        } else {
            let sq = square_name_bytes(self.enpassant_square.least_significant());
            push_ascii(&mut out, &sq);
        }
        out.push(32u8);
        let hm = decimal_bytes(self.half_moves as u64);
        proof {
            lemma_decimal_ascii(self.half_moves as nat);
        }
        push_ascii(&mut out, &hm);
        out.push(32u8);
        let fm = decimal_bytes(self.full_moves as u64);
        proof {
            lemma_decimal_ascii(self.full_moves as nat);
        }
        push_ascii(&mut out, &fm);
        assert(out@ =~= fen_text(*self));
        out
    }

    /// The Forsyth-Edwards Notation of the position.
    pub fn fen_string(&self) -> (r: String)
        requires
            self.wf(),
        ensures
            r@ == ascii_chars(fen_text(*self)),
    {
        ascii_string(self.fen_bytes())
    }

    /// Reads a position from Forsyth-Edwards Notation. A refusal names the first
    /// state field that fails (`state_error_ok`); with sound state fields, what stops
    /// the board field (`board_error_ok`).
    pub fn from_fen(input: &str) -> (r: Result<Position, String>)
        ensures
            r is Ok <==> fen_ok(input.spec_bytes()),
            r is Ok ==> fen_describes(input.spec_bytes(), r->Ok_0),
            r is Err && !fields_ok(fen_fields(input.spec_bytes())) ==> state_error_ok(
                fen_fields(input.spec_bytes()),
                r->Err_0@,
            ),
            r is Err && fields_ok(fen_fields(input.spec_bytes())) ==> board_error_ok(
                fen_fields(input.spec_bytes())[0],
                r->Err_0@,
            ),
    {
        let all = input.as_bytes();
        let (ts, te) = trim_bounds(all);
        let b = &all[ts..te];
        assert(b@ == trim(input.spec_bytes()));
        let fields = split_fields(b);
        let ghost f = split_spaces(b@);
        proof {
            lemma_split_nonempty(b@);
        }
        let (s0, e0) = fields[0];
        assert(bounds_hold(b@, fields@[0], f[0], b.len() as int));
        let board = &b[s0..e0];
        let (active_color, castling_ability, enpassant_square, half_moves, full_moves) =
            match read_state(b, &fields) {
            Ok(st) => st,
            Err(e) => {
                return Err(e);
            },
        };
        let mut pos = empty_position(
            active_color,
            enpassant_square,
            castling_ability,
            full_moves,
            half_moves,
        );
        match place_board(board, &mut pos) {
            Ok(()) => {},
            Err(e) => {
                assert(board@ == f[0]);
                return Err(e);
            },
        }
        assert(board@ == f[0]);
        let ghost placed_pos = pos;
        assert(placed_pos.wf() && board_matches(board_of(f[0])->0, placed_pos));
        pos.generate_zobrist_hash();
        assert forall|s: int| 0 <= s < 64 implies #[trigger] pos.piece_on(s) == board_of(
            f[0],
        )->0[s] by {
            assert(placed_pos.piece_on(s) == board_of(f[0])->0[s]);
        }
        Ok(pos)
    }
}

} // verus!
