use vstd::prelude::*;

verus! {

use crate::color::Color;

/// The kind of a chess piece; `Empty` marks a square without a piece.
#[derive(Clone, Copy, PartialEq, Eq, Structural, Debug)]
pub enum PieceType {
    Pawn,
    Knight,
    Bishop,
    Rook,
    Queen,
    King,
    Empty,
}

impl Default for PieceType {
    fn default() -> (r: PieceType)
        ensures
            r == PieceType::Pawn,
    {
        PieceType::Pawn
    }
}

impl PieceType {
    /// The number of the piece kind: pawn 0 up to king 5, empty 6.
    pub open spec fn num(self) -> int {
        match self {
            PieceType::Pawn => 0,
            PieceType::Knight => 1,
            PieceType::Bishop => 2,
            PieceType::Rook => 3,
            PieceType::Queen => 4,
            PieceType::King => 5,
            PieceType::Empty => 6,
        }
    }

    /// The piece kind with a given number below 6.
    pub open spec fn of_num(n: int) -> PieceType {
        if n == 0 {
            PieceType::Pawn
        } else if n == 1 {
            PieceType::Knight
        } else if n == 2 {
            PieceType::Bishop
        } else if n == 3 {
            PieceType::Rook
        } else if n == 4 {
            PieceType::Queen
        } else if n == 5 {
            PieceType::King
        } else {
            PieceType::Empty
        }
    }

    /// The bitboard index of a colored piece.
    pub open spec fn index_of(self, color: Color) -> int {
        self.num() + 6 * color.num()
    }

    pub fn number(&self) -> (r: usize)
        ensures
            r == self.num(),
    {
        match self {
            PieceType::Pawn => 0,
            PieceType::Knight => 1,
            PieceType::Bishop => 2,
            PieceType::Rook => 3,
            PieceType::Queen => 4,
            PieceType::King => 5,
            PieceType::Empty => 6,
        }
    }

    /// Calculates the bitboard index of the piece, given its color.
    pub fn index(&self, color: Color) -> (r: usize)
        requires
            *self != PieceType::Empty,
        ensures
            r == self.index_of(color),
            r < 12,
    {
        self.number() + color.piece_offset()
    }
}

/// The color and the piece kind of a bitboard index.
pub open spec fn piece_of_index(index: int) -> (Color, PieceType) {
    (if index < 6 {
        Color::White
    } else {
        Color::Black
    }, PieceType::of_num(index % 6))
}

/// The color and the piece kind kept in one of the twelve piece bitboards.
pub fn index_to_piece(index: usize) -> (r: (Color, PieceType))
    requires
        index < 12,
    ensures
        r == piece_of_index(index as int),
        r.1 != PieceType::Empty,
        r.1.index_of(r.0) == index,
{
    let color = if index < 6 {
        Color::White
    } else {
        Color::Black
    };
    let piece = match index % 6 {
        0 => PieceType::Pawn,
        1 => PieceType::Knight,
        2 => PieceType::Bishop,
        3 => PieceType::Rook,
        4 => PieceType::Queen,
        _ => PieceType::King,
    };
    (color, piece)
}

/// The letter of a piece in FEN: upper case for white, lower case for black.
pub open spec fn piece_letter(color: Color, piece: PieceType) -> char {
    let upper = match piece {
        PieceType::Pawn => 'P',
        PieceType::Knight => 'N',
        PieceType::Bishop => 'B',
        PieceType::Rook => 'R',
        PieceType::Queen => 'Q',
        PieceType::King => 'K',
        PieceType::Empty => ' ',
    };
    match color {
        Color::White => upper,
        Color::Black => match piece {
            PieceType::Pawn => 'p',
            PieceType::Knight => 'n',
            PieceType::Bishop => 'b',
            PieceType::Rook => 'r',
            PieceType::Queen => 'q',
            PieceType::King => 'k',
            PieceType::Empty => ' ',
        },
    }
}

/// The piece a FEN letter stands for, if it stands for one.
pub open spec fn letter_piece(c: char) -> Option<(Color, PieceType)> {
    if c == 'P' {
        Some((Color::White, PieceType::Pawn))
    } else if c == 'N' {
        Some((Color::White, PieceType::Knight))
    } else if c == 'B' {
        Some((Color::White, PieceType::Bishop))
    } else if c == 'R' {
        Some((Color::White, PieceType::Rook))
    } else if c == 'Q' {
        Some((Color::White, PieceType::Queen))
    } else if c == 'K' {
        Some((Color::White, PieceType::King))
    } else if c == 'p' {
        Some((Color::Black, PieceType::Pawn))
    } else if c == 'n' {
        Some((Color::Black, PieceType::Knight))
    } else if c == 'b' {
        Some((Color::Black, PieceType::Bishop))
    } else if c == 'r' {
        Some((Color::Black, PieceType::Rook))
    } else if c == 'q' {
        Some((Color::Black, PieceType::Queen))
    } else if c == 'k' {
        Some((Color::Black, PieceType::King))
    } else {
        None
    }
}

/// Reads a FEN piece letter.
pub fn char_to_piece(c: char) -> (r: Result<(Color, PieceType), String>)
    ensures
        r is Ok <==> letter_piece(c) is Some,
        r is Ok ==> r->Ok_0 == letter_piece(c)->0,
        r is Err ==> r->Err_0@ == "Illegal piece char: '"@ + seq![c] + "'"@,
{
    let color = if c == 'P' || c == 'N' || c == 'B' || c == 'R' || c == 'Q' || c == 'K' {
        Color::White
    } else {
        Color::Black
    };
    let piece = if c == 'P' || c == 'p' {
        PieceType::Pawn
    } else if c == 'R' || c == 'r' {
        PieceType::Rook
    } else if c == 'N' || c == 'n' {
        PieceType::Knight
    } else if c == 'B' || c == 'b' {
        PieceType::Bishop
    } else if c == 'Q' || c == 'q' {
        PieceType::Queen
    } else if c == 'K' || c == 'k' {
        PieceType::King
    } else {
        let cs = crate::text::char_string(c);
        return Err("Illegal piece char: '".to_string().concat(cs.as_str()).concat("'"));
    };
    Ok((color, piece))
}

/// The FEN letter of a piece; a space for `Empty`.
pub fn piece_char(color: Color, piece_type: PieceType) -> (r: char)
    ensures
        r == piece_letter(color, piece_type),
        piece_type != PieceType::Empty ==> letter_piece(r) == Some((color, piece_type)),
{
    let black = color.is_black();
    match piece_type {
        PieceType::Pawn => if black { 'p' } else { 'P' },
        PieceType::Knight => if black { 'n' } else { 'N' },
        PieceType::Bishop => if black { 'b' } else { 'B' },
        PieceType::Rook => if black { 'r' } else { 'R' },
        PieceType::Queen => if black { 'q' } else { 'Q' },
        PieceType::King => if black { 'k' } else { 'K' },
        PieceType::Empty => ' ',
    }
}

/// The FEN letter of a piece.
pub fn piece_to_char(color: Color, piece_type: PieceType) -> (r: char)
    requires
        piece_type != PieceType::Empty,
    ensures
        r == piece_letter(color, piece_type),
        letter_piece(r) == Some((color, piece_type)),
{
    piece_char(color, piece_type)
}

/// Reading the letter of a piece gives the piece back.
pub proof fn lemma_piece_letter_roundtrip(color: Color, piece: PieceType)
    requires
        piece != PieceType::Empty,
    ensures
        letter_piece(piece_letter(color, piece)) == Some((color, piece)),
{
}

} // verus!
