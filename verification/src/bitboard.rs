use vstd::prelude::*;

verus! {

use crate::bits::{bit, popcount, group_bit_lemmas, lemma_trailing_zeros_bit, lemma_clear_lowest};
use vstd::std_specs::bits::u64_trailing_zeros;

broadcast use group_bit_lemmas;

/// Reading and writing single bits of a 64 bit board word.
pub trait BitUtils {
    /// The word whose bits are read and written.
    spec fn word(&self) -> u64;

    fn get_bit(&self, square: u8) -> (r: bool)
        requires
            square < 64,
        ensures
            r == bit(self.word(), square as int),
    ;

    fn set_bit(&mut self, square: u8)
        requires
            square < 64,
        ensures
            final(self).word() == old(self).word() | (1u64 << square),
            forall|i: int| #[trigger]
                bit(final(self).word(), i) == (bit(old(self).word(), i) || i == square),
    ;

    fn unset_bit(&mut self, square: u8)
        requires
            square < 64,
        ensures
            final(self).word() == old(self).word() & !(1u64 << square),
            forall|i: int| #[trigger]
                bit(final(self).word(), i) == (bit(old(self).word(), i) && i != square),
    ;
}

impl BitUtils for u64 {
    open spec fn word(&self) -> u64 {
        *self
    }

    fn get_bit(&self, square: u8) -> (r: bool) {
        let s = square as u64;
        let r = *self & (1u64 << s) != 0;
        proof {
            let x = *self;
            assert((x & (1u64 << s) != 0) == ((x >> s) & 1u64 == 1u64)) by (bit_vector)
                requires
                    s < 64,
            ;
        }
        r
    }

    fn set_bit(&mut self, square: u8) {
        *self = *self | (1u64 << square);
    }

    fn unset_bit(&mut self, square: u8) {
        *self = *self & !(1u64 << square);
    }
}

/// A set of squares, one bit per square.
#[derive(Clone, Copy)]
pub struct Bitboard(pub u64);

impl BitUtils for Bitboard {
    open spec fn word(&self) -> u64 {
        self.0
    }

    fn get_bit(&self, square: u8) -> (r: bool) {
        self.0.get_bit(square)
    }

    fn set_bit(&mut self, square: u8) {
        self.0 = self.0 | (1u64 << square);
    }

    fn unset_bit(&mut self, square: u8) {
        self.0 = self.0 & !(1u64 << square);
    }
}

/// `u64::count_ones`: the number of ones in the binary representation.
pub assume_specification[ u64::count_ones ](x: u64) -> (r: u32)
    ensures
        r == popcount(x),
;

/// `bitintr::Popcnt::popcnt` on `u64`: counts the bits that are set.
#[verifier::external_body]
fn popcnt_u64(x: u64) -> (r: u64)
    ensures
        r == popcount(x),
{
    bitintr::Popcnt::popcnt(x)
}

/// `bitintr::Blsr::blsr` on `u64`: resets the lowest set bit, that is `x & (x - 1)`.
/// It is undefined (and panics with debug assertions) on zero.
#[verifier::external_body]
fn blsr_u64(x: u64) -> (r: u64)
    requires
        x != 0,
    ensures
        r == x & ((x - 1) as u64),
{
    bitintr::Blsr::blsr(x)
}

impl Bitboard {
    /// The squares of the board.
    pub open spec fn has(self, s: int) -> bool {
        bit(self.0, s)
    }

    pub fn empty() -> (r: Bitboard)
        ensures
            r.0 == 0,
    {
        Bitboard(0)
    }

    pub fn full() -> (r: Bitboard)
        ensures
            r.0 == 0xffff_ffff_ffff_ffffu64,
    {
        Bitboard(0xffff_ffff_ffff_ffffu64)
    }

    pub fn as_u64(&self) -> (r: u64)
        ensures
            r == self.0,
    {
        self.0
    }

    /// The index of the lowest set bit; 64 on an empty board.
    pub fn least_significant(&self) -> (r: u8)
        ensures
            r == u64_trailing_zeros(self.0),
            self.0 != 0 ==> r < 64 && self.has(r as int) && forall|i: int|
                0 <= i < r ==> !#[trigger] self.has(i),
            self.0 == 0 ==> r == 64,
    {
        proof {
            vstd::std_specs::bits::axiom_u64_trailing_zeros(self.0);
            if self.0 != 0 {
                lemma_trailing_zeros_bit(self.0);
            }
        }
        self.0.trailing_zeros() as u8
    }

    /// The number of set bits, counted with the population count intrinsic.
    pub fn count_bits(&self) -> (r: u64)
        ensures
            r == popcount(self.0),
    {
        popcnt_u64(self.0)
    }

    /// The number of set bits.
    pub fn count(&self) -> (r: u32)
        ensures
            r == popcount(self.0),
    {
        self.0.count_ones()
    }

    pub fn is_empty(&self) -> (r: bool)
        ensures
            r == (self.0 == 0),
    {
        self.0 == 0
    }

    pub fn is_not_empty(&self) -> (r: bool)
        ensures
            r == (self.0 != 0),
    {
        self.0 != 0
    }

    /// Removes the lowest set bit and returns its index; `None` on an empty board.
    pub fn extract_bit(&mut self) -> (r: Option<u8>)
        ensures
            old(self).0 == 0 ==> r is None && final(self).0 == 0,
            old(self).0 != 0 ==> r is Some && r->0 == u64_trailing_zeros(old(self).0) && r->0 < 64
                && old(self).has(r->0 as int) && (forall|i: int|
                0 <= i < r->0 ==> !#[trigger] old(self).has(i)) && (forall|i: int| #[trigger]
                final(self).has(i) == (old(self).has(i) && i != r->0)) && final(self).0 == old(
                self,
            ).0 & ((old(self).0 - 1) as u64),
    {
        if self.is_empty() {
            return None;
        }
        let b = self.least_significant();
        proof {
            lemma_clear_lowest(self.0);
        }
        self.0 = blsr_u64(self.0);
        Some(b)
    }
}

/// Removes the lowest set bit of a non-zero word and returns its index.
pub fn pop_lowest(bb: &mut u64) -> (r: u8)
    requires
        *old(bb) != 0,
    ensures
        r < 64,
        bit(*old(bb), r as int),
        forall|i: int| 0 <= i < r ==> !#[trigger] bit(*old(bb), i),
        forall|i: int| #[trigger] bit(*final(bb), i) == (bit(*old(bb), i) && i != r),
        *final(bb) < *old(bb),
{
    let mut b = Bitboard(*bb);
    let r = b.extract_bit();
    let x = *bb;
    assert(x != 0 ==> x & ((x - 1) as u64) < x) by (bit_vector);
    *bb = b.0;
    assert forall|i: int| #[trigger] bit(*bb, i) == (bit(x, i) && i != r->0) by {
        assert(b.has(i) == bit(b.0, i));
    }
    match r {
        Some(s) => s,
        None => 0,
    }
}

/// A word has at most 64 set bits.
pub proof fn lemma_popcount_le_64(x: u64)
    ensures
        popcount(x) <= 64,
{
    lemma_popcount_bounded(x, 64);
}

proof fn lemma_popcount_bounded(x: u64, k: nat)
    requires
        k <= 64,
        k < 64 ==> (x >> (k as u64)) == 0,
    ensures
        popcount(x) <= k,
    decreases k,
{
    if x == 0 {
    } else if k == 0 {
        assert(x >> 0u64 == x) by (bit_vector);
    } else {
        let y = x / 2;
        let km: u64 = (k - 1) as u64;
        assert(x / 2 == x >> 1u64) by (bit_vector);
        assert(km < 63 ==> (x >> ((km + 1) as u64)) == 0 ==> ((x >> 1u64) >> km) == 0)
            by (bit_vector);
        if k == 64 {
            assert((x >> 1u64) >> 63u64 == 0) by (bit_vector);
        }
        lemma_popcount_bounded(y, (k - 1) as nat);
    }
}

} // verus!
