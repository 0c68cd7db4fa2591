use vstd::prelude::*;
use vstd::string::StringSliceAdditionalSpecFns;

verus! {

/// Bytes that are all ASCII.
pub open spec fn all_ascii(b: Seq<u8>) -> bool {
    forall|i: int| 0 <= i < b.len() ==> #[trigger] b[i] < 128
}

/// The characters that ASCII bytes stand for.
pub open spec fn ascii_chars(b: Seq<u8>) -> Seq<char> {
    b.map_values(|x: u8| x as char)
}

/// `String::from_utf8`: for ASCII bytes, which are always valid UTF-8, the string
/// whose characters are those bytes.
#[verifier::external_body]
pub(crate) fn ascii_string(bytes: Vec<u8>) -> (r: String)
    requires
        all_ascii(bytes@),
    ensures
        r@ == ascii_chars(bytes@),
{
    match String::from_utf8(bytes) {
        Ok(s) => s,
        Err(_) => String::new(),
    }
}

/// `String::from_utf8_lossy`, made owned: for ASCII bytes, the string whose
/// characters are those bytes. Of other bytes nothing is stated (invalid UTF-8
/// becomes replacement characters).
#[verifier::external_body]
pub(crate) fn text_of(bytes: &[u8]) -> (r: String)
    ensures
        all_ascii(bytes@) ==> r@ == ascii_chars(bytes@),
{
    String::from_utf8_lossy(bytes).into_owned()
}

/// `char::to_string`: the string of the one character `c`.
#[verifier::external_body]
pub(crate) fn char_string(c: char) -> (r: String)
    ensures
        r@ == seq![c],
{
    c.to_string()
}

/// Appends all bytes of `b` to `v`.
pub fn push_all(v: &mut Vec<u8>, b: &Vec<u8>)
    ensures
        final(v)@ == old(v)@ + b@,
{
    let mut i: usize = 0;
    while i < b.len()
        invariant
            0 <= i <= b.len(),
            v@ == old(v)@ + b@.subrange(0, i as int),
        decreases b.len() - i,
    {
        v.push(b[i]);
        i = i + 1;
        assert(v@ =~= old(v)@ + b@.subrange(0, i as int));
    }
    assert(b@.subrange(0, b.len() as int) =~= b@);
}

/// The decimal digits of a number.
pub open spec fn decimal(n: nat) -> Seq<u8>
    decreases n,
{
    if n < 10 {
        seq![(48 + n) as u8]
    } else {
        decimal(n / 10).push((48 + n % 10) as u8)
    }
}

/// The decimal digits of a number, as ASCII bytes.
pub fn decimal_bytes(n: u64) -> (r: Vec<u8>)
    ensures
        r@ == decimal(n as nat),
    decreases n,
{
    if n < 10 {
        let mut v: Vec<u8> = Vec::new();
        v.push(48u8 + n as u8);
        assert(v@ =~= decimal(n as nat));
        v
    } else {
        let mut v = decimal_bytes(n / 10);
        v.push(48u8 + (n % 10) as u8);
        v
    }
}

/// The value of a string of decimal digits.
pub open spec fn digits_value(b: Seq<u8>) -> nat
    decreases b.len(),
{
    if b.len() == 0 {
        0
    } else {
        digits_value(b.drop_last()) * 10 + (b.last() - 48) as nat
    }
}

pub open spec fn all_digits(b: Seq<u8>) -> bool {
    forall|i: int| 0 <= i < b.len() ==> 48 <= #[trigger] b[i] <= 57
}

/// Parses a non-empty string of decimal digits whose value is at most `max`.
pub fn parse_decimal(b: &[u8], max: u128) -> (r: Option<u128>)
    ensures
        r is Some <==> (b@.len() > 0 && all_digits(b@) && digits_value(b@) <= max),
        r is Some ==> r->0 == digits_value(b@),
{
    if b.len() == 0 {
        return None;
    }
    let mut value: u128 = 0;
    let mut i: usize = 0;
    while i < b.len()
        invariant
            0 <= i <= b.len(),
            all_digits(b@.subrange(0, i as int)),
            value == digits_value(b@.subrange(0, i as int)),
            value <= max,
        decreases b.len() - i,
    {
        let c = b[i];
        assert(b@.subrange(0, i as int + 1).drop_last() =~= b@.subrange(0, i as int));
        if c < 48 || c > 57 {
            assert(!all_digits(b@));
            return None;
        }
        let d = (c - 48) as u128;
        if d > max || value > (max - d) / 10 {
            proof {
                if all_digits(b@) {
                    lemma_digits_prefix_mono(b@, i as int + 1);
                    assert(digits_value(b@.subrange(0, i as int + 1)) == value * 10 + d);
                    if d <= max {
                        assert(value * 10 + d > max) by (nonlinear_arith)
                            requires
                                value > (max - d) / 10,
                                d <= max,
                        ;
                    }
                }
            }
            return None;
        }
        assert(value * 10 + d <= max) by (nonlinear_arith)
            requires
                value <= (max - d) / 10,
                d <= max,
        ;
        value = value * 10 + d;
        i = i + 1;
        assert(all_digits(b@.subrange(0, i as int)));
    }
    assert(b@.subrange(0, b.len() as int) =~= b@);
    Some(value)
}

/// The digits of an unsigned number as `str::parse` reads it: an optional
/// leading '+' is dropped.
pub open spec fn unsigned_digits(b: Seq<u8>) -> Seq<u8> {
    if b.len() > 0 && b[0] == 43 {
        b.drop_first()
    } else {
        b
    }
}

/// `b` is an unsigned decimal number of at most `max`, as `str::parse` accepts it.
pub open spec fn parses_unsigned(b: Seq<u8>, max: nat) -> bool {
    let d = unsigned_digits(b);
    d.len() > 0 && all_digits(d) && digits_value(d) <= max
}

/// Parses an unsigned decimal number of at most `max`, with an optional leading '+'.
pub fn parse_unsigned(b: &[u8], max: u128) -> (r: Option<u128>)
    ensures
        r is Some <==> parses_unsigned(b@, max as nat),
        r is Some ==> r->0 == digits_value(unsigned_digits(b@)),
{
    if b.len() > 0 && b[0] == 43u8 {
        let rest = &b[1..b.len()];
        assert(rest@ =~= b@.drop_first());
        parse_decimal(rest, max)
    } else {
        parse_decimal(b, max)
    }
}

/// Whether two byte strings are equal.
pub fn bytes_equal(a: &[u8], b: &[u8]) -> (r: bool)
    ensures
        r == (a@ == b@),
{
    if a.len() != b.len() {
        return false;
    }
    let mut i: usize = 0;
    while i < a.len()
        invariant
            a.len() == b.len(),
            0 <= i <= a.len(),
            forall|k: int| 0 <= k < i ==> a@[k] == b@[k],
        decreases a.len() - i,
    {
        if a[i] != b[i] {
            return false;
        }
        i = i + 1;
    }
    assert(a@ =~= b@);
    true
}

/// Bytes that are all ASCII stay so when joined.
pub proof fn lemma_ascii_concat(a: Seq<u8>, b: Seq<u8>)
    requires
        all_ascii(a),
        all_ascii(b),
    ensures
        all_ascii(a + b),
{
    assert forall|i: int| 0 <= i < (a + b).len() implies #[trigger] (a + b)[i] < 128 by {
        if i < a.len() {
            assert((a + b)[i] == a[i]);
        } else {
            assert((a + b)[i] == b[i - a.len()]);
        }
    }
}

/// Decimal digits are ASCII.
pub proof fn lemma_decimal_ascii(n: nat)
    ensures
        all_ascii(decimal(n)),
        all_digits(decimal(n)),
        decimal(n).len() > 0,
    decreases n,
{
    if n >= 10 {
        lemma_decimal_ascii(n / 10);
    }
}

/// Reading the decimal digits of a number gives the number back.
pub proof fn lemma_decimal_value(n: nat)
    ensures
        digits_value(decimal(n)) == n,
    decreases n,
{
    let d = decimal(n);
    assert(((48 + n % 10) as u8) as int == 48 + n % 10);
    if n >= 10 {
        lemma_decimal_value(n / 10);
        assert(d.drop_last() =~= decimal(n / 10));
        assert(d.last() == (48 + n % 10) as u8);
        assert(digits_value(d) == digits_value(decimal(n / 10)) * 10 + (n % 10));
    } else {
        assert(d.drop_last() =~= Seq::<u8>::empty());
        assert(d.last() == (48 + n) as u8);
        assert(digits_value(d) == digits_value(Seq::<u8>::empty()) * 10 + n);
    }
}

/// A longer prefix of digits has at least the value of a shorter one.
proof fn lemma_digits_prefix_mono(b: Seq<u8>, n: int)
    requires
        0 <= n <= b.len(),
        all_digits(b),
    ensures
        digits_value(b.subrange(0, n)) <= digits_value(b),
    decreases b.len() - n,
{
    if n < b.len() {
        lemma_digits_prefix_mono(b, n + 1);
        assert(b.subrange(0, n + 1).drop_last() =~= b.subrange(0, n));
    } else {
        assert(b.subrange(0, n) =~= b);
    }
}

/// Valid UTF-8 made of ASCII bytes decodes to the characters those bytes stand for.
proof fn lemma_decode_ascii(b: Seq<u8>)
    requires
        vstd::utf8::valid_utf8(b),
        all_ascii(b),
    ensures
        vstd::utf8::decode_utf8(b) == ascii_chars(b),
    decreases b.len(),
{
    if b.len() > 0 {
        let x = b[0];
        assert(x < 128);
        assert(x & 0x7fu8 == x) by (bit_vector)
            requires
                x < 128,
        ;
        let rest = vstd::utf8::pop_first_scalar(b);
        assert(rest =~= b.subrange(1, b.len() as int));
        assert(all_ascii(rest)) by {
            assert forall|i: int| 0 <= i < rest.len() implies #[trigger] rest[i] < 128 by {
                assert(rest[i] == b[i + 1]);
            }
        }
        lemma_decode_ascii(rest);
        assert(vstd::utf8::decode_utf8(b) =~= ascii_chars(b));
    }
}

/// A string whose bytes are all ASCII has the characters those bytes stand for.
pub proof fn lemma_ascii_text(s: &str)
    requires
        all_ascii(s.spec_bytes()),
    ensures
        s@ == ascii_chars(s.spec_bytes()),
{
    vstd::utf8::encode_utf8_valid_utf8(s@);
    vstd::utf8::encode_utf8_decode_utf8(s@);
    lemma_decode_ascii(s.spec_bytes());
}

} // verus!
