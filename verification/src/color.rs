use vstd::prelude::*;

verus! {

use vstd::string::StringSliceAdditionalSpecFns;

/// The side a piece belongs to, or the side to move.
#[derive(Clone, Copy, PartialEq, Eq, Structural, Debug)]
pub enum Color {
    White,
    Black,
}

/// The color a FEN color field stands for.
pub open spec fn parse_color(b: Seq<u8>) -> Option<Color> {
    if b == seq![119u8] {
        Some(Color::White)
    } else if b == seq![98u8] {
        Some(Color::Black)
    } else {
        None
    }
}

impl From<bool> for Color {
    /// White for `false`, black for `true`.
    fn from(value: bool) -> (r: Color) {
        if value {
            Color::Black
        } else {
            Color::White
        }
    }
}

impl vstd::std_specs::convert::FromSpecImpl<bool> for Color {
    open spec fn obeys_from_spec() -> bool {
        true
    }

    open spec fn from_spec(v: bool) -> Color {
        if v {
            Color::Black
        } else {
            Color::White
        }
    }
}

impl Color {
    /// 0 for white, 1 for black.
    pub open spec fn num(self) -> int {
        match self {
            Color::White => 0,
            Color::Black => 1,
        }
    }

    pub open spec fn other(self) -> Color {
        match self {
            Color::White => Color::Black,
            Color::Black => Color::White,
        }
    }

    /// Reads the active color field of a FEN string: "w" or "b".
    pub fn from_bytes(b: &[u8]) -> (r: Option<Color>)
        ensures
            r == parse_color(b@),
    {
        if b.len() == 1 && b[0] == 119u8 {
            assert(b@ =~= seq![119u8]);
            Some(Color::White)
        } else if b.len() == 1 && b[0] == 98u8 {
            assert(b@ =~= seq![98u8]);
            Some(Color::Black)
        } else {
            None
        }
    }

    /// Parses the active color field of a FEN string: "w" or "b".
    pub fn from_str(s: &str) -> (r: Result<Color, String>)
        ensures
            s.spec_bytes() == seq![119u8] <==> r == Ok::<Color, String>(Color::White),
            s.spec_bytes() == seq![98u8] <==> r == Ok::<Color, String>(Color::Black),
            r is Err <==> (s.spec_bytes() != seq![119u8] && s.spec_bytes() != seq![98u8]),
            r is Err ==> r->Err_0@ == "Illegal color string: '"@ + s@ + "'. Expected 'w' or 'b'"@,
    {
        let b = s.as_bytes();
        if b.len() == 1 && b[0] == 119u8 {
            assert(s.spec_bytes() =~= seq![119u8]);
            Ok(Color::White)
        } else if b.len() == 1 && b[0] == 98u8 {
            assert(s.spec_bytes() =~= seq![98u8]);
            Ok(Color::Black)
        } else {
            Err("Illegal color string: '".to_string().concat(s).concat("'. Expected 'w' or 'b'"))
        }
    }

    pub fn is_white(&self) -> (r: bool)
        ensures
            r == (*self == Color::White),
    {
        match self {
            Color::White => true,
            Color::Black => false,
        }
    }

    pub fn is_black(&self) -> (r: bool)
        ensures
            r == (*self == Color::Black),
    {
        match self {
            Color::White => false,
            Color::Black => true,
        }
    }

    /// The offset of this color's pieces among the twelve piece bitboards.
    pub fn piece_offset(&self) -> (r: usize)
        ensures
            r == 6 * self.num(),
    {
        match self {
            Color::White => 0,
            Color::Black => 6,
        }
    }

    pub fn opposite(&self) -> (r: Color)
        ensures
            r == self.other(),
            r != *self,
    {
        match self {
            Color::White => Color::Black,
            Color::Black => Color::White,
        }
    }

    pub fn index(&self) -> (r: usize)
        ensures
            r == self.num(),
    {
        match self {
            Color::White => 0,
            Color::Black => 1,
        }
    }
}

} // verus!
