use vstd::prelude::*;

verus! {

use vstd::std_specs::bits::{u64_trailing_zeros, axiom_u64_trailing_zeros};

/// Bit `i` of `x` is set (bit 0 is the least significant one).
pub open spec fn bit(x: u64, i: int) -> bool {
    0 <= i < 64 && (x >> (i as u64)) & 1u64 == 1u64
}

/// The number of set bits of `x`.
pub open spec fn popcount(x: u64) -> nat
    decreases x,
{
    if x == 0 {
        0
    } else {
        (x % 2) as nat + popcount(x / 2)
    }
}

/// The rank row of a square index: 0 for the eighth rank, 7 for the first.
pub open spec fn row(s: int) -> int {
    s / 8
}

/// The file column of a square index: 0 for the a-file, 7 for the h-file.
pub open spec fn col(s: int) -> int {
    s % 8
}

/// The square index at a row and a column.
pub open spec fn sq_at(r: int, c: int) -> int {
    r * 8 + c
}

pub open spec fn on_board(r: int, c: int) -> bool {
    0 <= r < 8 && 0 <= c < 8
}

/// Facts about single bits of words, proved by the bit-vector solver.
proof fn lemma_word_bits(a: u64, b: u64, j: u64, s: u64)
    by (bit_vector)
    requires
        j < 64,
    ensures
        ((a | b) >> j) & 1u64 == 1u64 <==> ((a >> j) & 1u64 == 1u64 || (b >> j) & 1u64 == 1u64),
        ((a & b) >> j) & 1u64 == 1u64 <==> ((a >> j) & 1u64 == 1u64 && (b >> j) & 1u64 == 1u64),
        ((a ^ b) >> j) & 1u64 == 1u64 <==> (((a >> j) & 1u64 == 1u64) != ((b >> j) & 1u64
            == 1u64)),
        ((!a) >> j) & 1u64 == 1u64 <==> !((a >> j) & 1u64 == 1u64),
        s < 64 ==> (((1u64 << s) >> j) & 1u64 == 1u64 <==> j == s),
        (0u64 >> j) & 1u64 == 0u64,
        (0xffff_ffff_ffff_ffffu64 >> j) & 1u64 == 1u64,
        a ^ b == 0u64 ==> a == b,
        j < 63 ==> ((a / 2) >> j) & 1u64 == (a >> ((j + 1) as u64)) & 1u64,
        ((a / 2) >> 63u64) & 1u64 == 0u64,
        (a % 2 == 1) == ((a >> 0u64) & 1u64 == 1u64),
{
}

pub broadcast proof fn lemma_bit_or(a: u64, b: u64, i: int)
    ensures
        #[trigger] bit(a | b, i) == (bit(a, i) || bit(b, i)),
{
    if 0 <= i < 64 {
        lemma_word_bits(a, b, i as u64, 0);
    }
}

pub broadcast proof fn lemma_bit_and(a: u64, b: u64, i: int)
    ensures
        #[trigger] bit(a & b, i) == (bit(a, i) && bit(b, i)),
{
    if 0 <= i < 64 {
        lemma_word_bits(a, b, i as u64, 0);
    }
}

pub broadcast proof fn lemma_bit_xor(a: u64, b: u64, i: int)
    ensures
        #[trigger] bit(a ^ b, i) == (0 <= i < 64 && bit(a, i) != bit(b, i)),
{
    if 0 <= i < 64 {
        lemma_word_bits(a, b, i as u64, 0);
    }
}

pub broadcast proof fn lemma_bit_not(a: u64, i: int)
    ensures
        #[trigger] bit(!a, i) == (0 <= i < 64 && !bit(a, i)),
{
    if 0 <= i < 64 {
        lemma_word_bits(a, 0, i as u64, 0);
    }
}

pub broadcast proof fn lemma_bit_single(s: u64, i: int)
    requires
        s < 64,
    ensures
        #[trigger] bit(1u64 << s, i) == (i == s),
{
    if 0 <= i < 64 {
        lemma_word_bits(0, 0, i as u64, s);
    }
}

pub broadcast proof fn lemma_bit_zero(i: int)
    ensures
        !#[trigger] bit(0u64, i),
{
    if 0 <= i < 64 {
        lemma_word_bits(0, 0, i as u64, 0);
    }
}

pub broadcast proof fn lemma_bit_full(i: int)
    ensures
        #[trigger] bit(0xffff_ffff_ffff_ffffu64, i) == (0 <= i < 64),
{
    if 0 <= i < 64 {
        lemma_word_bits(0, 0, i as u64, 0);
    }
}

pub broadcast group group_bit_lemmas {
    lemma_bit_or,
    lemma_bit_and,
    lemma_bit_xor,
    lemma_bit_not,
    lemma_bit_single,
    lemma_bit_zero,
    lemma_bit_full,
}

/// Two words with the same bits are equal.
pub proof fn lemma_bits_ext(a: u64, b: u64)
    requires
        forall|i: int| 0 <= i < 64 ==> #[trigger] bit(a, i) == bit(b, i),
    ensures
        a == b,
{
    let d = a ^ b;
    if d != 0 {
        axiom_u64_trailing_zeros(d);
        let t = u64_trailing_zeros(d) as u64;
        assert(t < 64);
        assert((d >> t) & 1u64 == 1u64);
        lemma_bit_xor(a, b, t as int);
        assert(bit(d, t as int));
        assert(bit(a, t as int) == bit(b, t as int));
        assert(false);
    }
    lemma_word_bits(a, b, 0, 0);
}

/// A word is zero exactly when none of its bits is set.
pub proof fn lemma_zero_iff_no_bits(a: u64)
    ensures
        (a == 0) <==> (forall|i: int| 0 <= i < 64 ==> !#[trigger] bit(a, i)),
{
    broadcast use group_bit_lemmas;

    if forall|i: int| 0 <= i < 64 ==> !#[trigger] bit(a, i) {
        assert forall|i: int| 0 <= i < 64 implies #[trigger] bit(a, i) == bit(0u64, i) by {}
        lemma_bits_ext(a, 0u64);
    }
}

/// The lowest set bit of a non-zero word.
pub proof fn lemma_trailing_zeros_bit(a: u64)
    requires
        a != 0,
    ensures
        u64_trailing_zeros(a) < 64,
        bit(a, u64_trailing_zeros(a) as int),
        forall|i: int| 0 <= i < u64_trailing_zeros(a) ==> !#[trigger] bit(a, i),
{
    axiom_u64_trailing_zeros(a);
    let t = u64_trailing_zeros(a);
    assert forall|i: int| 0 <= i < t implies !#[trigger] bit(a, i) by {
        let j = i as u64;
        assert((a >> j) & 1u64 == 0u64);
    }
}

/// The bits of `a & (a - 1)` when bit `t` is the lowest set bit of `a`.
proof fn lemma_clear_bits(a: u64, j: u64, t: u64)
    by (bit_vector)
    requires
        j < 64,
        t < 64,
        (a >> t) & 1u64 == 1u64,
        a << ((64 - t) as u64) == 0,
    ensures
        (a >> j) & 1u64 == 0u64 ==> ((a & ((a - 1) as u64)) >> j) & 1u64 == 0u64,
        j == t ==> ((a & ((a - 1) as u64)) >> j) & 1u64 == 0u64,
        t < j ==> ((a & ((a - 1) as u64)) >> j) & 1u64 == (a >> j) & 1u64,
{
}

/// Clearing the lowest set bit with `a & (a - 1)`.
pub proof fn lemma_clear_lowest(a: u64)
    requires
        a != 0,
    ensures
        forall|i: int| #[trigger]
            bit(a & ((a - 1) as u64), i) == (bit(a, i) && i != u64_trailing_zeros(a) as int),
{
    lemma_trailing_zeros_bit(a);
    let t = u64_trailing_zeros(a) as u64;
    assert((a >> t) & 1u64 == 1u64);
    assert(a << ((64 - t) as u64) == 0);
    assert forall|i: int| #[trigger] bit(a & ((a - 1) as u64), i) == (bit(a, i) && i != t as int) by {
        if 0 <= i < 64 {
            let j = i as u64;
            lemma_clear_bits(a, j, t);
            if j < t {
                assert((a >> j) & 1u64 == 0u64);
            }
        }
    }
}

/// The number of `t` in `0..n` for which `p` holds.
pub open spec fn count_true(p: spec_fn(int) -> bool, n: int) -> nat
    decreases n,
{
    if n <= 0 {
        0
    } else {
        count_true(p, n - 1) + if p(n - 1) {
            1nat
        } else {
            0nat
        }
    }
}

/// Predicates that agree below `n` hold equally often there.
pub proof fn lemma_count_true_same(p: spec_fn(int) -> bool, q: spec_fn(int) -> bool, n: int)
    requires
        forall|t: int| 0 <= t < n ==> #[trigger] p(t) == q(t),
    ensures
        count_true(p, n) == count_true(q, n),
    decreases n,
{
    if n > 0 {
        lemma_count_true_same(p, q, n - 1);
    }
}

/// A predicate holds at most `n` times below `n`.
pub proof fn lemma_count_true_at_most(p: spec_fn(int) -> bool, n: int)
    ensures
        count_true(p, n) <= if n > 0 {
            n
        } else {
            0
        },
    decreases n,
{
    if n > 0 {
        lemma_count_true_at_most(p, n - 1);
    }
}

/// A predicate that holds nowhere below `n` is counted zero times.
pub proof fn lemma_count_true_zero(p: spec_fn(int) -> bool, n: int)
    ensures
        count_true(p, n) == 0 <==> forall|t: int| 0 <= t < n ==> !#[trigger] p(t),
    decreases n,
{
    if n > 0 {
        lemma_count_true_zero(p, n - 1);
    }
}

/// Counting from the second place on: the first is counted, then the rest shifted
/// down by one.
proof fn lemma_count_true_shift(p: spec_fn(int) -> bool, q: spec_fn(int) -> bool, n: int)
    requires
        n >= 1,
        forall|t: int| 0 <= t < n - 1 ==> #[trigger] q(t) == p(t + 1),
    ensures
        count_true(p, n) == (if p(0) {
            1nat
        } else {
            0nat
        }) + count_true(q, n - 1),
    decreases n,
{
    if n > 1 {
        lemma_count_true_shift(p, q, n - 1);
        assert(q(n - 2) == p(n - 1));
    } else {
        assert(count_true(p, 0) == 0);
        assert(count_true(q, 0) == 0);
    }
}

/// A predicate that holds at `a` below `n` is counted at least once there.
proof fn lemma_count_true_one(p: spec_fn(int) -> bool, n: int, a: int)
    requires
        0 <= a < n,
        p(a),
    ensures
        count_true(p, n) >= 1,
    decreases n,
{
    if a < n - 1 {
        lemma_count_true_one(p, n - 1, a);
    }
}

/// A predicate that holds at two places below `n` is counted at least twice there.
proof fn lemma_count_true_two(p: spec_fn(int) -> bool, n: int, a: int, b: int)
    requires
        0 <= a < b < n,
        p(a),
        p(b),
    ensures
        count_true(p, n) >= 2,
    decreases n,
{
    if b < n - 1 {
        lemma_count_true_two(p, n - 1, a, b);
    } else {
        lemma_count_true_one(p, n - 1, a);
    }
}

/// A word with at most one bit set has at most one square whose bit is set.
pub proof fn lemma_popcount_single(x: u64, a: int, b: int)
    requires
        popcount(x) <= 1,
        bit(x, a),
        bit(x, b),
    ensures
        a == b,
{
    lemma_popcount_count(x);
    let p = |t: int| bit(x, t);
    if a < b {
        lemma_count_true_two(p, 64, a, b);
    } else if b < a {
        lemma_count_true_two(p, 64, b, a);
    }
}

/// Only one square can hold among the first `n`: at most one is counted.
proof fn lemma_count_true_le_one(p: spec_fn(int) -> bool, n: int, a: int)
    requires
        forall|t: int| 0 <= t < n && #[trigger] p(t) ==> t == a,
    ensures
        count_true(p, n) <= 1,
    decreases n,
{
    if n > 0 {
        lemma_count_true_le_one(p, n - 1, a);
        if p(n - 1) {
            assert forall|t: int| 0 <= t < n - 1 implies !#[trigger] p(t) by {}
            lemma_count_true_zero(p, n - 1);
        }
    }
}

/// A word whose set bits are all the square `a` has at most one bit set.
pub proof fn lemma_popcount_le_one(x: u64, a: int)
    requires
        forall|t: int| #[trigger] bit(x, t) ==> t == a,
    ensures
        popcount(x) <= 1,
{
    lemma_popcount_count(x);
    let p = |t: int| bit(x, t);
    assert forall|t: int| 0 <= t < 64 && #[trigger] p(t) implies t == a by {}
    lemma_count_true_le_one(p, 64, a);
}

/// The number of set bits of a word is the number of board squares whose bit is set.
pub proof fn lemma_popcount_count(x: u64)
    ensures
        popcount(x) == count_true(|t: int| bit(x, t), 64),
    decreases x,
{
    let p = |t: int| bit(x, t);
    if x == 0 {
        assert forall|t: int| 0 <= t < 64 implies !#[trigger] p(t) by {
            lemma_word_bits(x, 0, t as u64, 0);
        }
        lemma_count_true_zero(p, 64);
    } else {
        let y = x / 2;
        let q = |t: int| bit(y, t);
        lemma_popcount_count(y);
        assert forall|t: int| 0 <= t < 63 implies #[trigger] q(t) == p(t + 1) by {
            lemma_word_bits(x, 0, t as u64, 0);
        }
        lemma_count_true_shift(p, q, 64);
        lemma_word_bits(x, 0, 0, 0);
        assert(!q(63));
        assert(count_true(q, 64) == count_true(q, 63));
    }
}

} // verus!
