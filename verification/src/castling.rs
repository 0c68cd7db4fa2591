use vstd::prelude::*;

verus! {

use vstd::string::StringSliceAdditionalSpecFns;

/// One of the four castling moves.
#[derive(Clone, Copy, PartialEq, Eq, Structural, Debug)]
pub enum CastlingSide {
    WhiteKingSide,
    WhiteQueenSide,
    BlackKingSide,
    BlackQueenSide,
}

/// The castling side a FEN letter stands for.
pub open spec fn letter_side(c: u8) -> Option<CastlingSide> {
    if c == 75 {
        Some(CastlingSide::WhiteKingSide)
    } else if c == 81 {
        Some(CastlingSide::WhiteQueenSide)
    } else if c == 107 {
        Some(CastlingSide::BlackKingSide)
    } else if c == 113 {
        Some(CastlingSide::BlackQueenSide)
    } else {
        None
    }
}

/// Which castling rights survive a move from or to a square: moving the king or a
/// rook, or capturing on a rook's home square, gives up the rights that depend on it.
pub open spec fn rights_mask(sq: int) -> u8 {
    if sq == 0 {
        7
    } else if sq == 4 {
        3
    } else if sq == 7 {
        11
    } else if sq == 56 {
        13
    } else if sq == 60 {
        12
    } else if sq == 63 {
        14
    } else {
        15
    }
}

fn castling_rights(sq: u8) -> (r: u8)
    ensures
        r == rights_mask(sq as int),
{
    match sq {
        0 => 7,
        4 => 3,
        7 => 11,
        56 => 13,
        60 => 12,
        63 => 14,
        _ => 15,
    }
}

impl CastlingSide {
    /// The bit of the side in a castling ability byte.
    pub open spec fn flag(self) -> u8 {
        match self {
            CastlingSide::WhiteKingSide => 1,
            CastlingSide::WhiteQueenSide => 2,
            CastlingSide::BlackKingSide => 4,
            CastlingSide::BlackQueenSide => 8,
        }
    }

    pub fn bit(&self) -> (r: u8)
        ensures
            r == self.flag(),
    {
        match self {
            CastlingSide::WhiteKingSide => 1,
            CastlingSide::WhiteQueenSide => 2,
            CastlingSide::BlackKingSide => 4,
            CastlingSide::BlackQueenSide => 8,
        }
    }

    pub open spec fn attacked_mask_spec(self) -> u64 {
        match self {
            CastlingSide::WhiteKingSide => 0x6000_0000_0000_0000u64,
            CastlingSide::WhiteQueenSide => 0x0c00_0000_0000_0000u64,
            CastlingSide::BlackKingSide => 0x60u64,
            CastlingSide::BlackQueenSide => 0x0cu64,
        }
    }

    pub open spec fn open_mask_spec(self) -> u64 {
        match self {
            CastlingSide::WhiteKingSide => 0x6000_0000_0000_0000u64,
            CastlingSide::WhiteQueenSide => 0x0e00_0000_0000_0000u64,
            CastlingSide::BlackKingSide => 0x60u64,
            CastlingSide::BlackQueenSide => 0x0eu64,
        }
    }

    /// The squares that the king crosses or lands on, which must not be attacked:
    /// f1 g1, d1 c1, f8 g8 and d8 c8.
    pub fn attacked_mask(&self) -> (r: u64)
        ensures
            r == self.attacked_mask_spec(),
    {
        match self {
            CastlingSide::WhiteKingSide => 0x6000_0000_0000_0000u64,
            CastlingSide::WhiteQueenSide => 0x0c00_0000_0000_0000u64,
            CastlingSide::BlackKingSide => 0x60u64,
            CastlingSide::BlackQueenSide => 0x0cu64,
        }
    }

    /// The squares between the king and the rook, which must be empty.
    pub fn open_mask(&self) -> (r: u64)
        ensures
            r == self.open_mask_spec(),
    {
        match self {
            CastlingSide::WhiteKingSide => 0x6000_0000_0000_0000u64,
            CastlingSide::WhiteQueenSide => 0x0e00_0000_0000_0000u64,
            CastlingSide::BlackKingSide => 0x60u64,
            CastlingSide::BlackQueenSide => 0x0eu64,
        }
    }
}

/// The castling rights still held, one bit per `CastlingSide`.
#[derive(Clone, Copy, PartialEq, Eq, Structural, Debug)]
pub struct CastlingAbility {
    pub byte: u8,
}

/// The castling ability that a FEN castling field stands for, if it is well formed:
/// "-", or letters out of "KQkq" with none twice.
pub open spec fn parse_castling(b: Seq<u8>) -> Option<u8> {
    if b == seq![45u8] {
        Some(0u8)
    } else if (forall|i: int| 0 <= i < b.len() ==> #[trigger] letter_side(b[i]) is Some) && (forall|
        i: int,
        j: int,
    | 0 <= i < j < b.len() ==> #[trigger] b[i] != #[trigger] b[j]) {
        Some(castling_bits(b, b.len() as int))
    } else {
        None
    }
}

/// The union of the flags of the first `n` letters.
pub open spec fn castling_bits(b: Seq<u8>, n: int) -> u8
    decreases n,
{
    if n <= 0 {
        0u8
    } else {
        castling_bits(b, n - 1) | match letter_side(b[n - 1]) {
            Some(side) => side.flag(),
            None => 0u8,
        }
    }
}

/// Facts about castling flags in an ability byte, proved by the bit-vector solver.
proof fn lemma_flag_facts(acc: u8, f: u8, g: u8)
    by (bit_vector)
    ensures
        (f == 1u8 || f == 2u8 || f == 4u8 || f == 8u8) ==> (acc | f) & f != 0u8,
        (acc & f != 0u8 && (f == 1u8 || f == 2u8 || f == 4u8 || f == 8u8)) ==> acc | f == acc,
        (acc < 16u8 && (f == 1u8 || f == 2u8 || f == 4u8 || f == 8u8)) ==> acc | f < 16u8,
        acc < 16u8 ==> acc | 0u8 < 16u8,
        0u8 & f == 0u8,
        acc & f != 0u8 ==> (acc | g) & f != 0u8,
        ((acc | g) & f) != 0u8 && (f == 1u8 || f == 2u8 || f == 4u8 || f == 8u8) && (g == 1u8
            || g == 2u8 || g == 4u8 || g == 8u8) && f != g ==> (acc & f) != 0u8,
        acc & (f & g) == acc & f & g,
{
}

/// The bits of the masks of `rights_mask`, and how an ability byte keeps a flag
/// through two masks, proved by the bit-vector solver.
proof fn lemma_mask_bits(b: u8, x: u8, y: u8)
    by (bit_vector)
    ensures
        ((b & x & y) & 1u8 != 0u8) == (b & 1u8 != 0u8 && x & 1u8 != 0u8 && y & 1u8 != 0u8),
        ((b & x & y) & 2u8 != 0u8) == (b & 2u8 != 0u8 && x & 2u8 != 0u8 && y & 2u8 != 0u8),
        ((b & x & y) & 4u8 != 0u8) == (b & 4u8 != 0u8 && x & 4u8 != 0u8 && y & 4u8 != 0u8),
        ((b & x & y) & 8u8 != 0u8) == (b & 8u8 != 0u8 && x & 8u8 != 0u8 && y & 8u8 != 0u8),
        7u8 & 1u8 != 0u8 && 7u8 & 2u8 != 0u8 && 7u8 & 4u8 != 0u8 && 7u8 & 8u8 == 0u8,
        3u8 & 1u8 != 0u8 && 3u8 & 2u8 != 0u8 && 3u8 & 4u8 == 0u8 && 3u8 & 8u8 == 0u8,
        11u8 & 1u8 != 0u8 && 11u8 & 2u8 != 0u8 && 11u8 & 4u8 == 0u8 && 11u8 & 8u8 != 0u8,
        13u8 & 1u8 != 0u8 && 13u8 & 2u8 == 0u8 && 13u8 & 4u8 != 0u8 && 13u8 & 8u8 != 0u8,
        12u8 & 1u8 == 0u8 && 12u8 & 2u8 == 0u8 && 12u8 & 4u8 != 0u8 && 12u8 & 8u8 != 0u8,
        14u8 & 1u8 == 0u8 && 14u8 & 2u8 != 0u8 && 14u8 & 4u8 != 0u8 && 14u8 & 8u8 != 0u8,
        15u8 & 1u8 != 0u8 && 15u8 & 2u8 != 0u8 && 15u8 & 4u8 != 0u8 && 15u8 & 8u8 != 0u8,
{
}

/// Which rights survive a move from `src` to `dst`: white's king-side right (1)
/// only if neither square is e1 (60) or h1 (63), white's queen-side right (2) only
/// if neither is e1 or a1 (56), black's king-side right (4) only if neither is e8
/// (4) or h8 (7), and black's queen-side right (8) only if neither is e8 or a8 (0);
/// a right that survives is kept as it was.
pub proof fn lemma_rights_after(b: u8, src: int, dst: int)
    ensures
        ((b & rights_mask(src) & rights_mask(dst)) & 1u8 != 0) == (b & 1u8 != 0 && src != 60
            && src != 63 && dst != 60 && dst != 63),
        ((b & rights_mask(src) & rights_mask(dst)) & 2u8 != 0) == (b & 2u8 != 0 && src != 60
            && src != 56 && dst != 60 && dst != 56),
        ((b & rights_mask(src) & rights_mask(dst)) & 4u8 != 0) == (b & 4u8 != 0 && src != 4
            && src != 7 && dst != 4 && dst != 7),
        ((b & rights_mask(src) & rights_mask(dst)) & 8u8 != 0) == (b & 8u8 != 0 && src != 4
            && src != 0 && dst != 4 && dst != 0),
{
    lemma_mask_bits(b, rights_mask(src), rights_mask(dst));
}

/// A castling ability read from letters holds no bit beyond the four flags.
pub proof fn lemma_castling_bits_small(b: Seq<u8>, n: int)
    ensures
        castling_bits(b, n) < 16,
    decreases n,
{
    if n > 0 {
        lemma_castling_bits_small(b, n - 1);
        let acc = castling_bits(b, n - 1);
        match letter_side(b[n - 1]) {
            Some(side) => {
                let f = side.flag();
                assert(f == 1 || f == 2 || f == 4 || f == 8);
                lemma_flag_facts(acc, f, f);
            },
            None => {
                lemma_flag_facts(acc, 1, 1);
            },
        }
    }
}

/// A castling field that parses stands for an ability below 16.
pub proof fn lemma_parse_castling_small(b: Seq<u8>)
    ensures
        parse_castling(b) is Some ==> parse_castling(b)->0 < 16,
{
    lemma_castling_bits_small(b, b.len() as int);
}

proof fn lemma_flag_bits(side: CastlingSide, acc: u8)
    ensures
        (acc | side.flag()) & side.flag() != 0,
        acc & side.flag() != 0 ==> acc | side.flag() == acc,
{
    let f = side.flag();
    assert(f == 1 || f == 2 || f == 4 || f == 8);
    lemma_flag_facts(acc, f, f);
}

/// The first byte of a castling field that is not a fresh castling letter: every
/// byte before it is one, and no two of them are equal.
pub open spec fn castling_first_bad(bs: Seq<u8>, i: int) -> bool {
    &&& 0 <= i < bs.len()
    &&& forall|k: int| 0 <= k < i ==> #[trigger] letter_side(bs[k]) is Some
    &&& forall|k: int, l: int| 0 <= k < l < i ==> #[trigger] bs[k] != #[trigger] bs[l]
    &&& (letter_side(bs[i]) is None || exists|l: int| 0 <= l < i && bs[l] == bs[i])
}

/// The error text for the bad byte at `i` of a castling field: an illegal letter
/// (an ASCII one is quoted), or a duplicate, named by its castling bit.
pub open spec fn castling_error_text(bs: Seq<u8>, i: int) -> Seq<char> {
    if letter_side(bs[i]) is None {
        "Illegal char in castling ability string: '"@ + seq![bs[i] as char] + "'"@
    } else {
        "Duplicate char in castling string: "@ + seq![(48 + letter_side(bs[i])->0.flag()) as char]
    }
}

impl CastlingAbility {
    pub open spec fn allows(self, side: CastlingSide) -> bool {
        self.byte & side.flag() != 0
    }

    /// Parses the castling field of a FEN string.
    pub fn from_str(castling_str: &str) -> (r: Result<CastlingAbility, String>)
        ensures
            r is Ok <==> parse_castling(castling_str.spec_bytes()) is Some,
            r is Ok ==> r->Ok_0.byte == parse_castling(castling_str.spec_bytes())->0,
            r is Err ==> exists|i: int|
                castling_first_bad(castling_str.spec_bytes(), i) && (castling_str.spec_bytes()[i] < 128
                    || letter_side(castling_str.spec_bytes()[i]) is Some ==> r->Err_0@
                    == castling_error_text(castling_str.spec_bytes(), i)),
    {
        Self::from_bytes(castling_str.as_bytes())
    }

    /// Parses the bytes of the castling field of a FEN string.
    pub fn from_bytes(b: &[u8]) -> (r: Result<CastlingAbility, String>)
        ensures
            r is Ok <==> parse_castling(b@) is Some,
            r is Ok ==> r->Ok_0.byte == parse_castling(b@)->0,
            r is Err ==> exists|i: int|
                castling_first_bad(b@, i) && (b@[i] < 128 || letter_side(b@[i]) is Some ==> r->Err_0@
                    == castling_error_text(b@, i)),
    {
        let ghost bs = b@;
        if b.len() == 1 && b[0] == 45u8 {
            assert(bs =~= seq![45u8]);
            return Ok(CastlingAbility { byte: 0 });
        }
        assert(bs != seq![45u8]) by {
            if bs == seq![45u8] {
                assert(b@.len() == 1 && b@[0] == 45u8);
            }
        }
        let mut byte: u8 = 0;
        let mut i: usize = 0;
        assert forall|side: CastlingSide| (byte & #[trigger] side.flag()) == 0 by {
            let f = side.flag();
            lemma_flag_facts(0, f, f);
        }
        while i < b.len()
            invariant
                b@ == bs,
                bs != seq![45u8],
                0 <= i <= b.len(),
                byte == castling_bits(bs, i as int),
                forall|k: int| 0 <= k < i ==> #[trigger] letter_side(bs[k]) is Some,
                forall|k: int, l: int| 0 <= k < l < i ==> #[trigger] bs[k] != #[trigger] bs[l],
                forall|k: int|
                    0 <= k < i ==> (byte & (#[trigger] letter_side(bs[k]))->0.flag()) != 0,
                forall|side: CastlingSide|
                    (byte & #[trigger] side.flag()) != 0 ==> exists|k: int|
                        0 <= k < i && letter_side(bs[k]) == Some(side),
            decreases b.len() - i,
        {
            let c = b[i];
            let side = if c == 75u8 {
                CastlingSide::WhiteKingSide
            } else if c == 81u8 {
                CastlingSide::WhiteQueenSide
            } else if c == 107u8 {
                CastlingSide::BlackKingSide
            } else if c == 113u8 {
                CastlingSide::BlackQueenSide
            } else {
                assert(letter_side(bs[i as int]) is None);
                assert(!(forall|k: int| 0 <= k < bs.len() ==> #[trigger] letter_side(bs[k]) is Some));
                assert(parse_castling(bs) is None);
                let t = crate::text::text_of(&b[i..i + 1]);
                proof {
                    assert(b@.subrange(i as int, i + 1) =~= seq![bs[i as int]]);
                    assert(crate::text::ascii_chars(seq![bs[i as int]]) =~= seq![bs[i as int] as char]);
                    assert(castling_first_bad(bs, i as int));
                }
                return Err(
                    "Illegal char in castling ability string: '".to_string().concat(t.as_str()).concat(
                        "'",
                    ),
                );
            };
            let bit = side.bit();
            if byte & bit != 0 {
                proof {
                    let k = choose|k: int| 0 <= k < i && letter_side(bs[k]) == Some(side);
                    assert(bs[k] == bs[i as int]);
                    assert(!(forall|k1: int, l1: int|
                        0 <= k1 < l1 < bs.len() ==> #[trigger] bs[k1] != #[trigger] bs[l1]));
                }
                let mut digit: Vec<u8> = Vec::new();
                digit.push(48u8 + bit);
                let t = crate::text::ascii_string(digit);
                proof {
                    assert(castling_first_bad(bs, i as int));
                    assert(t@ =~= seq![(48 + letter_side(bs[i as int])->0.flag()) as char]);
                }
                return Err("Duplicate char in castling string: ".to_string().concat(t.as_str()));
            }
            proof {
                assert forall|k: int| 0 <= k < i implies bs[k] != bs[i as int] by {
                    if bs[k] == bs[i as int] {
                        assert((byte & (letter_side(bs[k]))->0.flag()) != 0);
                    }
                }
                lemma_flag_bits(side, byte);
                assert forall|k: int| 0 <= k < i + 1 implies (#[trigger] (byte | bit) & (
                letter_side(bs[k]))->0.flag()) != 0 by {
                    let s2 = (letter_side(bs[k]))->0;
                    let f2 = s2.flag();
                    if k < i {
                        assert(byte & f2 != 0);
                        lemma_flag_facts(byte, f2, bit);
                    }
                }
                assert forall|s2: CastlingSide| ((byte | bit) & #[trigger] s2.flag()) != 0 implies exists|
                    k: int,
                | 0 <= k < i + 1 && letter_side(bs[k]) == Some(s2) by {
                    if s2 == side {
                        assert(letter_side(bs[i as int]) == Some(s2));
                    } else {
                        let f2 = s2.flag();
                        assert(f2 != bit);
                        lemma_flag_facts(byte, f2, bit);
                    }
                }
            }
            byte = byte | bit;
            i = i + 1;
        }
        Ok(CastlingAbility { byte })
    }

    pub fn is_side_available(&self, side: CastlingSide) -> (r: bool)
        ensures
            r == self.allows(side),
    {
        self.byte & side.bit() != 0
    }

    /// Drops the rights that a move from `src` to `dst` gives up.
    pub fn update(&mut self, src: u8, dst: u8)
        ensures
            final(self).byte == old(self).byte & rights_mask(src as int) & rights_mask(dst as int),
    {
        self.byte = self.byte & (castling_rights(src) & castling_rights(dst));
        assert(self.byte == old(self).byte & rights_mask(src as int) & rights_mask(dst as int))
            by {
            let a = old(self).byte;
            let x = rights_mask(src as int);
            let y = rights_mask(dst as int);
            lemma_flag_facts(a, x, y);
        }
    }

    /// The castling field of a FEN string: "-" or the letters of the rights held.
    pub fn to_fen_bytes(&self) -> (r: Vec<u8>)
        ensures
            r@ == castling_field(self.byte),
    {
        let mut v: Vec<u8> = Vec::new();
        if self.byte == 0 {
            v.push(45u8);
            assert(v@ =~= castling_field(self.byte));
            return v;
        }
        if self.byte & 1 != 0 {
            v.push(75u8);
        }
        if self.byte & 2 != 0 {
            v.push(81u8);
        }
        if self.byte & 4 != 0 {
            v.push(107u8);
        }
        if self.byte & 8 != 0 {
            v.push(113u8);
        }
        assert(v@ =~= castling_field(self.byte));
        v
    }
}

/// The castling field of a FEN string for an ability byte.
pub open spec fn castling_field(byte: u8) -> Seq<u8> {
    if byte == 0 {
        seq![45u8]
    } else {
        (if byte & 1 != 0 { seq![75u8] } else { Seq::empty() }) + (if byte & 2 != 0 {
            seq![81u8]
        } else {
            Seq::empty()
        }) + (if byte & 4 != 0 { seq![107u8] } else { Seq::empty() }) + (if byte & 8 != 0 {
            seq![113u8]
        } else {
            Seq::empty()
        })
    }
}

/// Building an ability byte from its four flags, the way reading the castling
/// field does, gives the byte back.
proof fn lemma_flags_rebuild(b: u8)
    by (bit_vector)
    requires
        b < 16,
    ensures
        ({
            let x1: u8 = if b & 1u8 != 0u8 {
                0u8 | 1u8
            } else {
                0u8
            };
            let x2: u8 = if b & 2u8 != 0u8 {
                x1 | 2u8
            } else {
                x1
            };
            let x3: u8 = if b & 4u8 != 0u8 {
                x2 | 4u8
            } else {
                x2
            };
            let x4: u8 = if b & 8u8 != 0u8 {
                x3 | 8u8
            } else {
                x3
            };
            x4 == b
        }),
        b != 0 ==> (b & 1u8 != 0u8 || b & 2u8 != 0u8 || b & 4u8 != 0u8 || b & 8u8 != 0u8),
{
}

/// Letters after a prefix do not change what the prefix reads as.
proof fn lemma_castling_bits_prefix(s: Seq<u8>, t: Seq<u8>, k: int)
    requires
        0 <= k <= s.len(),
    ensures
        castling_bits(s + t, k) == castling_bits(s, k),
    decreases k,
{
    if k > 0 {
        lemma_castling_bits_prefix(s, t, k - 1);
        assert((s + t)[k - 1] == s[k - 1]);
    }
}

/// Appending a letter adds its flag.
proof fn lemma_castling_bits_push(s: Seq<u8>, l: u8)
    ensures
        castling_bits(s.push(l), s.len() + 1int) == castling_bits(s, s.len() as int) | match letter_side(
            l,
        ) {
            Some(side) => side.flag(),
            None => 0u8,
        },
{
    lemma_castling_bits_prefix(s, seq![l], s.len() as int);
    assert(s.push(l) =~= s + seq![l]);
    assert(s.push(l)[s.len() as int] == l);
}

/// Reading the castling field of an ability gives the ability back.
pub proof fn lemma_castling_field_roundtrip(byte: u8)
    requires
        byte < 16,
    ensures
        parse_castling(castling_field(byte)) == Some(byte),
{
    lemma_flags_rebuild(byte);
    if byte != 0 {
        let e1: Seq<u8> = if byte & 1 != 0 {
            seq![75u8]
        } else {
            Seq::empty()
        };
        let e2: Seq<u8> = if byte & 2 != 0 {
            seq![81u8]
        } else {
            Seq::empty()
        };
        let e3: Seq<u8> = if byte & 4 != 0 {
            seq![107u8]
        } else {
            Seq::empty()
        };
        let e4: Seq<u8> = if byte & 8 != 0 {
            seq![113u8]
        } else {
            Seq::empty()
        };
        let s1 = e1;
        let s2 = s1 + e2;
        let s3 = s2 + e3;
        let s4 = s3 + e4;
        assert(castling_field(byte) == s4);
        // The castling bits of each prefix
        let x1: u8 = if byte & 1u8 != 0u8 {
            0u8 | 1u8
        } else {
            0u8
        };
        let x2: u8 = if byte & 2u8 != 0u8 {
            x1 | 2u8
        } else {
            x1
        };
        let x3: u8 = if byte & 4u8 != 0u8 {
            x2 | 4u8
        } else {
            x2
        };
        let x4: u8 = if byte & 8u8 != 0u8 {
            x3 | 8u8
        } else {
            x3
        };
        assert(castling_bits(s1, s1.len() as int) == x1) by {
            if byte & 1 != 0 {
                lemma_castling_bits_push(Seq::<u8>::empty(), 75u8);
                assert(Seq::<u8>::empty().push(75u8) =~= s1);
            }
        }
        assert(castling_bits(s2, s2.len() as int) == x2) by {
            if byte & 2 != 0 {
                lemma_castling_bits_push(s1, 81u8);
                assert(s1.push(81u8) =~= s2);
            } else {
                assert(s2 =~= s1);
            }
        }
        assert(castling_bits(s3, s3.len() as int) == x3) by {
            if byte & 4 != 0 {
                lemma_castling_bits_push(s2, 107u8);
                assert(s2.push(107u8) =~= s3);
            } else {
                assert(s3 =~= s2);
            }
        }
        assert(castling_bits(s4, s4.len() as int) == x4) by {
            if byte & 8 != 0 {
                lemma_castling_bits_push(s3, 113u8);
                assert(s3.push(113u8) =~= s4);
            } else {
                assert(s4 =~= s3);
            }
        }
        // Every letter stands for a side, and the letters rise strictly
        assert forall|i: int| 0 <= i < s4.len() implies #[trigger] letter_side(s4[i]) is Some && (
        s4[i] == 75 || s4[i] == 81 || s4[i] == 107 || s4[i] == 113) by {}
        assert forall|i: int, j: int| 0 <= i < j < s4.len() implies #[trigger] s4[i] < #[trigger] s4[j] by {
        }
        assert(s4 != seq![45u8]) by {
            if s4 == seq![45u8] {
                assert(s4[0] == 45);
            }
        }
        assert forall|i: int, j: int| 0 <= i < j < s4.len() implies #[trigger] s4[i] != #[trigger] s4[j] by {
            assert(s4[i] < s4[j]);
        }
    }
}

} // verus!
