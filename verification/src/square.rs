use vstd::prelude::*;

verus! {

use vstd::string::StringSliceAdditionalSpecFns;
use crate::bits::{row, col};
use crate::text::{all_ascii, ascii_chars, ascii_string, decimal, decimal_bytes, lemma_decimal_ascii};

/// A square of the board. The squares are numbered from a8 (0) to h1 (63),
/// rank by rank from the eighth to the first, and file by file from a to h.
#[allow(non_camel_case_types)]
#[derive(Clone, Copy, PartialEq, Eq, Structural, Debug)]
pub enum Square {
    a8, b8, c8, d8, e8, f8, g8, h8,
    a7, b7, c7, d7, e7, f7, g7, h7,
    a6, b6, c6, d6, e6, f6, g6, h6,
    a5, b5, c5, d5, e5, f5, g5, h5,
    a4, b4, c4, d4, e4, f4, g4, h4,
    a3, b3, c3, d3, e3, f3, g3, h3,
    a2, b2, c2, d2, e2, f2, g2, h2,
    a1, b1, c1, d1, e1, f1, g1, h1,
}

/// The two bytes of the algebraic name of a square, such as "e4".
pub open spec fn square_name(s: int) -> Seq<u8> {
    seq![(97 + col(s)) as u8, (56 - row(s)) as u8]
}

/// The square an algebraic name stands for, if it stands for one.
pub open spec fn parse_square(b: Seq<u8>) -> Option<int> {
    if b.len() == 2 && 97 <= b[0] <= 104 && 49 <= b[1] <= 56 {
        Some((56 - b[1]) * 8 + (b[0] - 97))
    } else {
        None
    }
}

/// Reading the name of a square gives the square back.
pub proof fn lemma_square_name_roundtrip(s: int)
    requires
        0 <= s < 64,
    ensures
        parse_square(square_name(s)) == Some(s),
{
}

impl Square {
    /// The index of the square, from 0 (a8) to 63 (h1).
    pub open spec fn num(self) -> int {
        match self {
            Square::a8 => 0,
            Square::b8 => 1,
            Square::c8 => 2,
            Square::d8 => 3,
            Square::e8 => 4,
            Square::f8 => 5,
            Square::g8 => 6,
            Square::h8 => 7,
            Square::a7 => 8,
            Square::b7 => 9,
            Square::c7 => 10,
            Square::d7 => 11,
            Square::e7 => 12,
            Square::f7 => 13,
            Square::g7 => 14,
            Square::h7 => 15,
            Square::a6 => 16,
            Square::b6 => 17,
            Square::c6 => 18,
            Square::d6 => 19,
            Square::e6 => 20,
            Square::f6 => 21,
            Square::g6 => 22,
            Square::h6 => 23,
            Square::a5 => 24,
            Square::b5 => 25,
            Square::c5 => 26,
            Square::d5 => 27,
            Square::e5 => 28,
            Square::f5 => 29,
            Square::g5 => 30,
            Square::h5 => 31,
            Square::a4 => 32,
            Square::b4 => 33,
            Square::c4 => 34,
            Square::d4 => 35,
            Square::e4 => 36,
            Square::f4 => 37,
            Square::g4 => 38,
            Square::h4 => 39,
            Square::a3 => 40,
            Square::b3 => 41,
            Square::c3 => 42,
            Square::d3 => 43,
            Square::e3 => 44,
            Square::f3 => 45,
            Square::g3 => 46,
            Square::h3 => 47,
            Square::a2 => 48,
            Square::b2 => 49,
            Square::c2 => 50,
            Square::d2 => 51,
            Square::e2 => 52,
            Square::f2 => 53,
            Square::g2 => 54,
            Square::h2 => 55,
            Square::a1 => 56,
            Square::b1 => 57,
            Square::c1 => 58,
            Square::d1 => 59,
            Square::e1 => 60,
            Square::f1 => 61,
            Square::g1 => 62,
            Square::h1 => 63,
        }
    }

    pub fn index(&self) -> (r: u8)
        ensures
            r == self.num(),
            r < 64,
    {
        match self {
            Square::a8 => 0,
            Square::b8 => 1,
            Square::c8 => 2,
            Square::d8 => 3,
            Square::e8 => 4,
            Square::f8 => 5,
            Square::g8 => 6,
            Square::h8 => 7,
            Square::a7 => 8,
            Square::b7 => 9,
            Square::c7 => 10,
            Square::d7 => 11,
            Square::e7 => 12,
            Square::f7 => 13,
            Square::g7 => 14,
            Square::h7 => 15,
            Square::a6 => 16,
            Square::b6 => 17,
            Square::c6 => 18,
            Square::d6 => 19,
            Square::e6 => 20,
            Square::f6 => 21,
            Square::g6 => 22,
            Square::h6 => 23,
            Square::a5 => 24,
            Square::b5 => 25,
            Square::c5 => 26,
            Square::d5 => 27,
            Square::e5 => 28,
            Square::f5 => 29,
            Square::g5 => 30,
            Square::h5 => 31,
            Square::a4 => 32,
            Square::b4 => 33,
            Square::c4 => 34,
            Square::d4 => 35,
            Square::e4 => 36,
            Square::f4 => 37,
            Square::g4 => 38,
            Square::h4 => 39,
            Square::a3 => 40,
            Square::b3 => 41,
            Square::c3 => 42,
            Square::d3 => 43,
            Square::e3 => 44,
            Square::f3 => 45,
            Square::g3 => 46,
            Square::h3 => 47,
            Square::a2 => 48,
            Square::b2 => 49,
            Square::c2 => 50,
            Square::d2 => 51,
            Square::e2 => 52,
            Square::f2 => 53,
            Square::g2 => 54,
            Square::h2 => 55,
            Square::a1 => 56,
            Square::b1 => 57,
            Square::c1 => 58,
            Square::d1 => 59,
            Square::e1 => 60,
            Square::f1 => 61,
            Square::g1 => 62,
            Square::h1 => 63,
        }
    }

    /// The square with a given index.
    pub fn from_index(index: u8) -> (r: Square)
        requires
            index < 64,
        ensures
            r.num() == index,
    {
        match index {
            0 => Square::a8,
            1 => Square::b8,
            2 => Square::c8,
            3 => Square::d8,
            4 => Square::e8,
            5 => Square::f8,
            6 => Square::g8,
            7 => Square::h8,
            8 => Square::a7,
            9 => Square::b7,
            10 => Square::c7,
            11 => Square::d7,
            12 => Square::e7,
            13 => Square::f7,
            14 => Square::g7,
            15 => Square::h7,
            16 => Square::a6,
            17 => Square::b6,
            18 => Square::c6,
            19 => Square::d6,
            20 => Square::e6,
            21 => Square::f6,
            22 => Square::g6,
            23 => Square::h6,
            24 => Square::a5,
            25 => Square::b5,
            26 => Square::c5,
            27 => Square::d5,
            28 => Square::e5,
            29 => Square::f5,
            30 => Square::g5,
            31 => Square::h5,
            32 => Square::a4,
            33 => Square::b4,
            34 => Square::c4,
            35 => Square::d4,
            36 => Square::e4,
            37 => Square::f4,
            38 => Square::g4,
            39 => Square::h4,
            40 => Square::a3,
            41 => Square::b3,
            42 => Square::c3,
            43 => Square::d3,
            44 => Square::e3,
            45 => Square::f3,
            46 => Square::g3,
            47 => Square::h3,
            48 => Square::a2,
            49 => Square::b2,
            50 => Square::c2,
            51 => Square::d2,
            52 => Square::e2,
            53 => Square::f2,
            54 => Square::g2,
            55 => Square::h2,
            56 => Square::a1,
            57 => Square::b1,
            58 => Square::c1,
            59 => Square::d1,
            60 => Square::e1,
            61 => Square::f1,
            62 => Square::g1,
            _ => Square::h1,
        }
    }

    /// Parses the algebraic name of a square, such as "e4".
    pub fn from_str(s: &str) -> (r: Result<Square, String>)
        ensures
            r is Ok <==> parse_square(s.spec_bytes()) is Some,
            r is Ok ==> r->Ok_0.num() == parse_square(s.spec_bytes())->0,
            r matches Err(e) ==> e@ == square_error_text(s.spec_bytes()),
    {
        Self::from_bytes(s.as_bytes())
    }

    /// Parses the bytes of the algebraic name of a square.
    pub fn from_bytes(chars: &[u8]) -> (r: Result<Square, String>)
        ensures
            r is Ok <==> parse_square(chars@) is Some,
            r is Ok ==> r->Ok_0.num() == parse_square(chars@)->0,
            r matches Err(e) ==> e@ == square_error_text(chars@),
    {
        let mut i: usize = 0;
        while i < chars.len()
            invariant
                i <= chars.len(),
                forall|j: int| 0 <= j < i ==> #[trigger] chars@[j] < 128,
            decreases chars.len() - i,
        {
            if chars[i] >= 128 {
                return Err("Square string contained non ASCII characters".to_string());
            }
            i = i + 1;
        }
        if chars.len() != 2 {
            let n = decimal_bytes(chars.len() as u64);
            proof {
                lemma_decimal_ascii(chars.len() as nat);
            }
            let count = ascii_string(n);
            return Err("Square string must be 2 chars but was ".to_string().concat(count.as_str()));
        }
        let f = chars[0];
        let r = chars[1];
        if f < 97 || f > 104 {
            return Err("Illegal file in square string".to_string());
        }
        if r < 49 || r > 56 {
            return Err("Illegal rank in square string".to_string());
        }
        let file = f - 97;
        let rank = 56 - r;
        Ok(Square::from_index(8 * rank + file))
    }

    /// The algebraic name of the square.
    pub fn name(&self) -> (r: Vec<u8>)
        ensures
            r@ == square_name(self.num()),
    {
        square_name_bytes(self.index())
    }
}

/// The algebraic name of a square index.
pub fn square_name_bytes(square: u8) -> (r: Vec<u8>)
    requires
        square < 64,
    ensures
        r@ == square_name(square as int),
{
    let mut v: Vec<u8> = Vec::new();
    v.push(97 + square % 8);
    v.push(56 - square / 8);
    assert(v@ =~= square_name(square as int));
    v
}

/// The refusal `Square::from_bytes` gives for bytes that name no square.
pub open spec fn square_error_text(b: Seq<u8>) -> Seq<char> {
    if !all_ascii(b) {
        "Square string contained non ASCII characters"@
    } else if b.len() != 2 {
        "Square string must be 2 chars but was "@ + ascii_chars(decimal(b.len()))
    } else if !(97 <= b[0] <= 104) {
        "Illegal file in square string"@
    } else {
        "Illegal rank in square string"@
    }
}

} // verus!
