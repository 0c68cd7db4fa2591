use vstd::prelude::*;

verus! {

use crate::color::Color;
use crate::piece::{PieceType, piece_char, piece_letter};
use crate::square::{square_name, square_name_bytes};
use crate::text::{ascii_string, ascii_chars, all_ascii, push_all};

/// The kind of a move, kept in the low four bits of a `Move`.
#[derive(Clone, Copy, PartialEq, Eq, Structural, Debug)]
pub enum MoveType {
    Quiet,
    Capture,
    Promotion,
    DoublePush,
    CastleKingSide,
    CastleQueenSide,
    Enpassant,
}

impl MoveType {
    /// The four flag bits of the move kind: bit 0 capture, bit 1 promotion.
    pub open spec fn code(self) -> u16 {
        match self {
            MoveType::Quiet => 0,
            MoveType::Capture => 1,
            MoveType::Promotion => 2,
            MoveType::DoublePush => 4,
            MoveType::CastleKingSide => 8,
            MoveType::CastleQueenSide => 12,
            MoveType::Enpassant => 5,
        }
    }

    pub fn bits(&self) -> (r: u16)
        ensures
            r == self.code(),
    {
        match self {
            MoveType::Quiet => 0,
            MoveType::Capture => 1,
            MoveType::Promotion => 2,
            MoveType::DoublePush => 4,
            MoveType::CastleKingSide => 8,
            MoveType::CastleQueenSide => 12,
            MoveType::Enpassant => 5,
        }
    }

    /// Whether the kind is a plain capture; an en passant capture is a kind of its
    /// own and does not count here.
    pub fn is_capture(&self) -> (r: bool)
        ensures
            r == (*self == MoveType::Capture),
    {
        match self {
            MoveType::Capture => true,
            _ => false,
        }
    }

    pub fn is_promotion(&self) -> (r: bool)
        ensures
            r == (*self == MoveType::Promotion),
    {
        match self {
            MoveType::Promotion => true,
            _ => false,
        }
    }

    pub fn is_castling(&self) -> (r: bool)
        ensures
            r == (*self == MoveType::CastleKingSide || *self == MoveType::CastleQueenSide),
    {
        match self {
            MoveType::CastleKingSide | MoveType::CastleQueenSide => true,
            _ => false,
        }
    }
}

/// The move kind that four flag bits stand for; every combination with the
/// promotion bit, and the unused ones, read as a promotion.
pub open spec fn type_of_flags(f: u16) -> MoveType {
    if f == 0 {
        MoveType::Quiet
    } else if f == 1 {
        MoveType::Capture
    } else if f == 4 {
        MoveType::DoublePush
    } else if f == 8 {
        MoveType::CastleKingSide
    } else if f == 12 {
        MoveType::CastleQueenSide
    } else if f == 5 {
        MoveType::Enpassant
    } else {
        MoveType::Promotion
    }
}

/// The number kept in the two promotion bits for a piece kind.
pub open spec fn promotion_code(p: PieceType) -> u16 {
    match p {
        PieceType::Bishop => 1,
        PieceType::Rook => 2,
        PieceType::Queen => 3,
        _ => 0,
    }
}

pub open spec fn is_promotion_piece(p: PieceType) -> bool {
    p == PieceType::Knight || p == PieceType::Bishop || p == PieceType::Rook || p
        == PieceType::Queen
}

/// The piece kind that the two promotion bits (bits 2-3 of the flags) stand for.
pub open spec fn promotion_of_bits(b: u16) -> PieceType {
    if b == 0 {
        PieceType::Knight
    } else if b == 1 {
        PieceType::Bishop
    } else if b == 2 {
        PieceType::Rook
    } else {
        PieceType::Queen
    }
}

/// The 16 bit word of a move: flags in bits 0-3, source in bits 4-9,
/// destination in bits 10-15.
pub open spec fn encode(src: u16, dst: u16, flags: u16) -> u16 {
    flags | (src << 4u16) | (dst << 10u16)
}

/// A move in 16 bits: 6 bits destination, 6 bits source and 4 bits of flags.
/// Promotions keep the promoted piece in bits 2-3 of the flags.
#[derive(Clone, Copy, PartialEq, Eq, Structural, Debug)]
pub struct Move {
    pub data: u16,
}

/// Decoding an encoded move gives back its parts.
pub proof fn lemma_encode_decode(src: u16, dst: u16, flags: u16)
    by (bit_vector)
    requires
        src < 64,
        dst < 64,
        flags < 16,
    ensures
        (encode(src, dst, flags) >> 4u16) & 63u16 == src,
        encode(src, dst, flags) >> 10u16 == dst,
        encode(src, dst, flags) & 15u16 == flags,
{
}

/// Every word is the encoding of its own parts.
pub proof fn lemma_decode_encode(data: u16)
    by (bit_vector)
    ensures
        encode((data >> 4u16) & 63u16, data >> 10u16, data & 15u16) == data,
        (data >> 4u16) & 63u16 < 64,
        data >> 10u16 < 64,
        data & 15u16 < 16,
{
}

/// The flag bits of a move word: the capture bit, the promotion bit and the two
/// bits above them.
proof fn lemma_flag_bits(d: u16)
    by (bit_vector)
    ensures
        (d & 1u16 != 0) == ((d & 15u16) % 2 == 1),
        (d & 2u16 != 0) == ((d & 15u16) / 2 % 2 == 1),
        ((d & 12u16) == 0 <==> (d & 15u16) / 4 == 0),
        ((d & 12u16) == 4 <==> (d & 15u16) / 4 == 1),
        ((d & 12u16) == 8 <==> (d & 15u16) / 4 == 2),
{
}

/// The UCI text of a move: the two square names, then the promoted piece in lower case.
pub open spec fn uci_bytes(m: Move) -> Seq<u8> {
    square_name(m.from_sq() as int) + square_name(m.to_sq() as int) + if m.flags() / 2 % 2 == 1 {
        seq![piece_letter(Color::Black, promotion_of_bits(m.flags() / 4)) as u8]
    } else {
        Seq::empty()
    }
}

impl From<u16> for Move {
    /// The move with the given word.
    fn from(data: u16) -> (r: Move) {
        Move { data }
    }
}

impl vstd::std_specs::convert::FromSpecImpl<u16> for Move {
    open spec fn obeys_from_spec() -> bool {
        true
    }

    open spec fn from_spec(v: u16) -> Move {
        Move { data: v }
    }
}

impl Move {
    pub open spec fn from_sq(self) -> u16 {
        (self.data >> 4u16) & 63u16
    }

    pub open spec fn to_sq(self) -> u16 {
        self.data >> 10u16
    }

    pub open spec fn flags(self) -> u16 {
        self.data & 15u16
    }

    pub open spec fn kind(self) -> MoveType {
        type_of_flags(self.flags())
    }

    /// The move with no source, no destination and no flags.
    pub fn null() -> (r: Move)
        ensures
            r.data == 0,
    {
        Move { data: 0 }
    }

    pub fn from_data(data: u16) -> (r: Move)
        ensures
            r.data == data,
    {
        Move { data }
    }

    fn new_internal(src: u8, dst: u8, move_type: u16) -> (r: Move)
        requires
            src < 64,
            dst < 64,
            move_type < 16,
        ensures
            r.data == encode(src as u16, dst as u16, move_type),
            r.from_sq() == src,
            r.to_sq() == dst,
            r.flags() == move_type,
    {
        proof {
            lemma_encode_decode(src as u16, dst as u16, move_type);
        }
        Move { data: move_type | ((src as u16) << 4u16) | ((dst as u16) << 10u16) }
    }

    pub fn new(src: u8, dst: u8, move_type: MoveType) -> (r: Move)
        requires
            src < 64,
            dst < 64,
        ensures
            r.data == encode(src as u16, dst as u16, move_type.code()),
            r.from_sq() == src,
            r.to_sq() == dst,
            r.flags() == move_type.code(),
            r.kind() == move_type,
    {
        Self::new_internal(src, dst, move_type.bits())
    }

    pub fn new_normal(src: u8, dst: u8, is_capture: bool) -> (r: Move)
        requires
            src < 64,
            dst < 64,
        ensures
            r.from_sq() == src,
            r.to_sq() == dst,
            r.flags() == (if is_capture { 1u16 } else { 0u16 }),
            r.kind() == (if is_capture { MoveType::Capture } else { MoveType::Quiet }),
    {
        Self::new_internal(src, dst, if is_capture { 1 } else { 0 })
    }

    pub fn new_promotion(src: u8, dst: u8, promotion: PieceType, is_capture: bool) -> (r: Move)
        requires
            src < 64,
            dst < 64,
            is_promotion_piece(promotion),
        ensures
            r.from_sq() == src,
            r.to_sq() == dst,
            r.flags() == 4 * promotion_code(promotion) + 2 + (if is_capture { 1u16 } else { 0u16 }),
            r.flags() / 2 % 2 == 1,
            (r.flags() % 2 == 1) == is_capture,
            promotion_of_bits(r.flags() / 4) == promotion,
            r.kind() == MoveType::Promotion,
    {
        let code: u16 = match promotion {
            PieceType::Bishop => 1,
            PieceType::Rook => 2,
            PieceType::Queen => 3,
            _ => 0,
        };
        let cap: u16 = if is_capture {
            1
        } else {
            0
        };
        let flags = 4 * code + 2 + cap;
        Self::new_internal(src, dst, flags)
    }

    pub fn src(&self) -> (r: u8)
        ensures
            r == self.from_sq(),
            r < 64,
    {
        proof {
            lemma_decode_encode(self.data);
        }
        ((self.data >> 4u16) & 63u16) as u8
    }

    pub fn dst(&self) -> (r: u8)
        ensures
            r == self.to_sq(),
            r < 64,
    {
        proof {
            lemma_decode_encode(self.data);
        }
        (self.data >> 10u16) as u8
    }

    /// Whether the capture bit is set; en passant captures have it.
    pub fn is_capture(&self) -> (r: bool)
        ensures
            r == (self.flags() % 2 == 1),
    {
        let d = self.data;
        proof {
            lemma_flag_bits(d);
        }
        self.data & 1u16 != 0
    }

    pub fn move_type(&self) -> (r: MoveType)
        ensures
            r == self.kind(),
    {
        match self.data & 15u16 {
            0 => MoveType::Quiet,
            1 => MoveType::Capture,
            4 => MoveType::DoublePush,
            8 => MoveType::CastleKingSide,
            12 => MoveType::CastleQueenSide,
            5 => MoveType::Enpassant,
            _ => MoveType::Promotion,
        }
    }

    pub fn is_promotion(&self) -> (r: bool)
        ensures
            r == (self.flags() / 2 % 2 == 1),
    {
        let d = self.data;
        proof {
            lemma_flag_bits(d);
        }
        self.data & 2u16 != 0
    }

    pub fn is_double_push(&self) -> (r: bool)
        ensures
            r == (self.flags() == 4),
    {
        self.data & 15u16 == 4
    }

    pub fn is_enpassant(&self) -> (r: bool)
        ensures
            r == (self.flags() == 5),
    {
        self.data & 15u16 == 5
    }

    pub fn is_castle_ks(&self) -> (r: bool)
        ensures
            r == (self.flags() == 8),
    {
        self.data & 15u16 == 8
    }

    pub fn is_castle_qs(&self) -> (r: bool)
        ensures
            r == (self.flags() == 12),
    {
        self.data & 15u16 == 12
    }

    pub fn is_castling(&self) -> (r: bool)
        ensures
            r == (self.flags() == 8 || self.flags() == 12),
    {
        self.is_castle_ks() || self.is_castle_qs()
    }

    /// The promoted piece kind, read from bits 2-3.
    pub fn promotion(&self) -> (r: PieceType)
        ensures
            r == promotion_of_bits(self.flags() / 4),
            is_promotion_piece(r),
    {
        let d = self.data;
        let b = d & 12u16;
        proof {
            lemma_flag_bits(d);
        }
        if b == 0 {
            PieceType::Knight
        } else if b == 4 {
            PieceType::Bishop
        } else if b == 8 {
            PieceType::Rook
        } else {
            PieceType::Queen
        }
    }

    pub fn is_null(&self) -> (r: bool)
        ensures
            r == (self.data == 0),
    {
        self.data == 0
    }

    /// The UCI text of the move as bytes, such as "e2e4" or "b7b8q".
    pub fn uci_bytes(&self) -> (r: Vec<u8>)
        ensures
            r@ == uci_bytes(*self),
            all_ascii(r@),
    {
        let mut v = square_name_bytes(self.src());
        let d = square_name_bytes(self.dst());
        push_all(&mut v, &d);
        if self.is_promotion() {
            let c = piece_char(Color::Black, self.promotion());
            v.push(c as u8);
        }
        assert(v@ =~= uci_bytes(*self));
        v
    }

    /// The UCI text of the move, such as "e2e4" or "b7b8q".
    pub fn to_uci_string(&self) -> (r: String)
        ensures
            r@ == ascii_chars(uci_bytes(*self)),
    {
        ascii_string(self.uci_bytes())
    }
}

} // verus!
