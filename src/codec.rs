use vstd::prelude::*;
use vstd::arithmetic::div_mod::lemma_fundamental_div_mod_converse;
use bigdecimal::BigDecimal;

verus! {

#[verifier::external_type_specification]
#[verifier::external_body]
pub struct ExBigDecimal(BigDecimal);

/// Whether `b` is an ASCII decimal digit.
pub open spec fn is_digit(b: u8) -> bool {
    48 <= b && b <= 57
}

/// A non-empty string of ASCII decimal digits.
pub open spec fn is_digit_text(s: Seq<u8>) -> bool {
    s.len() > 0 && forall|i: int| 0 <= i < s.len() ==> is_digit(#[trigger] s[i])
}

/// The number that a string of ASCII decimal digits denotes, most significant digit first.
pub open spec fn digits_value(s: Seq<u8>) -> nat
    decreases s.len(),
{
    if s.len() == 0 {
        0
    } else {
        digits_value(s.drop_last()) * 10 + (s.last() - 48) as nat
    }
}

/// The canonical decimal text of `n`: no leading zero, and "0" for zero.
pub open spec fn decimal_text(n: nat) -> Seq<u8>
    decreases n,
{
    if n < 10 {
        seq![(n + 48) as u8]
    } else {
        decimal_text(n / 10).push((n % 10 + 48) as u8)
    }
}

/// Writing a number in decimal and reading the text back gives the number again;
/// the text is made of digits and has no leading zero.
pub proof fn lemma_decimal_round_trip(n: nat)
    ensures
        is_digit_text(decimal_text(n)),
        digits_value(decimal_text(n)) == n,
        n > 0 ==> decimal_text(n)[0] != 48,
    decreases n,
{
    if n >= 10 {
        lemma_decimal_round_trip(n / 10);
        let s = decimal_text(n);
        assert(s.drop_last() =~= decimal_text(n / 10));
        assert forall|i: int| 0 <= i < s.len() implies is_digit(#[trigger] s[i]) by {
            if i < s.len() - 1 {
                assert(s[i] == decimal_text(n / 10)[i]);
            }
        }
        assert(s[0] == decimal_text(n / 10)[0]);
        assert(s.last() == (n % 10 + 48) as u8);
        assert(digits_value(s) == digits_value(decimal_text(n / 10)) * 10 + n % 10);
    } else {
        let s = decimal_text(n);
        assert(s.drop_last() =~= Seq::<u8>::empty());
        assert(digits_value(s.drop_last()) == 0);
    }
}

/// The value of a prefix of a digit string is at most the value of the whole.
proof fn lemma_prefix_value_le(s: Seq<u8>, i: int)
    requires
        is_digit_text(s),
        0 <= i <= s.len(),
    ensures
        digits_value(s.take(i)) <= digits_value(s),
    decreases s.len(),
{
    assert(s.take(s.len() as int) =~= s);
    if i < s.len() {
        let t = s.drop_last();
        assert(is_digit(s[s.len() - 1]));
        assert(digits_value(s) >= digits_value(t));
        if t.len() > 0 {
            assert(is_digit_text(t)) by {
                assert forall|j: int| 0 <= j < t.len() implies is_digit(#[trigger] t[j]) by {
                    assert(t[j] == s[j]);
                }
            }
            lemma_prefix_value_le(t, i);
            assert(t.take(i) =~= s.take(i));
        } else {
            assert(s.take(i) =~= Seq::<u8>::empty());
            assert(digits_value(s.take(i)) == 0);
        }
    }
}

/// 2^64, the base of the words of a `U256`.
pub open spec fn word_base() -> nat {
    0x1_0000_0000_0000_0000
}

/// A 256-bit unsigned integer, as four 64-bit words, least significant first.
#[derive(Clone, Copy, Debug, PartialEq, Eq)]
pub struct U256 {
    pub words: [u64; 4],
}

impl U256 {
    pub open spec fn value(&self) -> nat {
        self.words@[0] as nat + self.words@[1] as nat * word_base() + self.words@[2] as nat
            * word_base() * word_base() + self.words@[3] as nat * word_base() * word_base()
            * word_base()
    }

    pub fn zero() -> (r: U256)
        ensures
            r.value() == 0,
    {
        U256 { words: [0, 0, 0, 0] }
    }

    pub fn max_value() -> (r: U256)
        ensures
            r.value() == word_base() * word_base() * word_base() * word_base() - 1,
    {
        let r = U256 { words: [u64::MAX, u64::MAX, u64::MAX, u64::MAX] };
        assert(r.value() == word_base() * word_base() * word_base() * word_base() - 1)
            by (nonlinear_arith)
            requires
                r.words@[0] == 0xffff_ffff_ffff_ffff,
                r.words@[1] == 0xffff_ffff_ffff_ffff,
                r.words@[2] == 0xffff_ffff_ffff_ffff,
                r.words@[3] == 0xffff_ffff_ffff_ffff,
                word_base() == 0x1_0000_0000_0000_0000,
                r.value() == r.words@[0] as nat + r.words@[1] as nat * word_base()
                    + r.words@[2] as nat * word_base() * word_base() + r.words@[3] as nat
                    * word_base() * word_base() * word_base(),
        ;
        r
    }

    pub fn from_u128(v: u128) -> (r: U256)
        ensures
            r.value() == v,
    {
        let lo = (v % 0x1_0000_0000_0000_0000) as u64;
        let hi = (v / 0x1_0000_0000_0000_0000) as u64;
        let r = U256 { words: [lo, hi, 0, 0] };
        assert(r.value() == v) by (nonlinear_arith)
            requires
                lo == v % 0x1_0000_0000_0000_0000,
                hi == v / 0x1_0000_0000_0000_0000,
                word_base() == 0x1_0000_0000_0000_0000,
                r.words@[0] == lo,
                r.words@[1] == hi,
                r.words@[2] == 0,
                r.words@[3] == 0,
                r.value() == r.words@[0] as nat + r.words@[1] as nat * word_base()
                    + r.words@[2] as nat * word_base() * word_base() + r.words@[3] as nat
                    * word_base() * word_base() * word_base(),
        ;
        r
    }

    fn is_zero(&self) -> (r: bool)
        ensures
            r == (self.value() == 0),
    {
        let w = self.words;
        proof {
            let b = word_base();
            let (a0, a1, a2, a3) = (w@[0] as nat, w@[1] as nat, w@[2] as nat, w@[3] as nat);
            assert((a0 + a1 * b + a2 * b * b + a3 * b * b * b == 0) == (a0 == 0 && a1 == 0 && a2
                == 0 && a3 == 0)) by (nonlinear_arith)
                requires
                    b > 0,
            ;
        }
        w[0] == 0 && w[1] == 0 && w[2] == 0 && w[3] == 0
    }
}

/// One step of long division: `(hi * 2^64 + lo) / 10` and its remainder, for `hi < 10`.
fn div_step(hi: u128, lo: u64) -> (r: (u128, u128))
    requires
        hi < 10,
    ensures
        r.0 < word_base(),
        r.1 < 10,
        r.0 * 10 + r.1 == hi * word_base() + lo,
{
    assert(hi * 0x1_0000_0000_0000_0000 <= 9 * 0x1_0000_0000_0000_0000) by (nonlinear_arith)
        requires
            hi < 10,
    ;
    let c: u128 = hi * 0x1_0000_0000_0000_0000 + lo as u128;
    let q = c / 10;
    let rem = c % 10;
    assert(q < word_base()) by (nonlinear_arith)
        requires
            q == c / 10,
            c < 10 * 0x1_0000_0000_0000_0000,
            word_base() == 0x1_0000_0000_0000_0000,
    ;
    (q, rem)
}

/// Divides by ten: the quotient and the remainder.
fn div_rem_10(x: U256) -> (r: (U256, u8))
    ensures
        r.0.value() * 10 + r.1 == x.value(),
        r.1 < 10,
{
    let w = x.words;
    let (q3, r3) = div_step(0, w[3]);
    let (q2, r2) = div_step(r3, w[2]);
    let (q1, r1) = div_step(r2, w[1]);
    let (q0, r0) = div_step(r1, w[0]);
    let q = U256 { words: [q0 as u64, q1 as u64, q2 as u64, q3 as u64] };
    proof {
        let b = word_base();
        let (a0, a1, a2, a3) = (w@[0] as int, w@[1] as int, w@[2] as int, w@[3] as int);
        let (d0, d1, d2, d3) = (q0 as int, q1 as int, q2 as int, q3 as int);
        let (s0, s1, s2, s3) = (r0 as int, r1 as int, r2 as int, r3 as int);
        assert(d3 * 10 + s3 == a3);
        assert(d0 * 10 + s0 + 10 * (d1 * b + d2 * b * b + d3 * b * b * b) == a0 + a1 * b + a2 * b
            * b + a3 * b * b * b) by (nonlinear_arith)
            requires
                d3 * 10 + s3 == a3,
                d2 * 10 + s2 == s3 * b + a2,
                d1 * 10 + s1 == s2 * b + a1,
                d0 * 10 + s0 == s1 * b + a0,
        ;
    }
    (q, r0 as u8)
}

/// The canonical decimal digits of a 128-bit value.
fn decimal_digits_u128(n: u128) -> (r: Vec<u8>)
    ensures
        r@ == decimal_text(n as nat),
    decreases n,
{
    if n < 10 {
        let mut v: Vec<u8> = Vec::new();
        v.push((n + 48) as u8);
        assert(v@ =~= decimal_text(n as nat));
        v
    } else {
        let mut v = decimal_digits_u128(n / 10);
        v.push((n % 10 + 48) as u8);
        v
    }
}

/// The canonical decimal digits of a 256-bit value.
fn decimal_digits_u256(x: U256) -> (r: Vec<u8>)
    ensures
        r@ == decimal_text(x.value()),
    decreases x.value(),
{
    let (q, d) = div_rem_10(x);
    proof {
        lemma_fundamental_div_mod_converse(x.value() as int, 10, q.value() as int, d as int);
    }
    if q.is_zero() {
        let mut v: Vec<u8> = Vec::new();
        v.push(d + 48);
        assert(v@ =~= decimal_text(x.value()));
        v
    } else {
        let mut v = decimal_digits_u256(q);
        v.push(d + 48);
        v
    }
}

/// Relies on bigdecimal's `BigDecimal::parse_bytes`: a non-empty run of ASCII decimal
/// digits always parses, in radix ten.
#[verifier::external_body]
fn parse_decimal_bytes(digits: &Vec<u8>) -> (r: Option<BigDecimal>)
    ensures
        is_digit_text(digits@) ==> r is Some,
{
    BigDecimal::parse_bytes(digits.as_slice(), 10)
}

/// A decimal conversion failed: the text was not accepted by the decimal type.
#[derive(Debug, Clone, PartialEq, Eq, Structural)]
pub enum ConversionError {
    NotDecimal,
}

/// An exact arbitrary-precision decimal integer: its canonical digits and the parsed
/// decimal value that is stored.
#[derive(Debug)]
pub struct DecimalValue {
    digits: Vec<u8>,
    decimal: BigDecimal,
}

impl DecimalValue {
    #[verifier::type_invariant]
    spec fn inv(&self) -> bool {
        is_digit_text(self.digits@)
    }

    /// The decimal digits, most significant first.
    pub closed spec fn text(&self) -> Seq<u8> {
        self.digits@
    }

    /// The number that this decimal denotes.
    pub open spec fn value(&self) -> nat {
        digits_value(self.text())
    }

    pub fn digits(&self) -> (r: &Vec<u8>)
        ensures
            r@ == self.text(),
    {
        &self.digits
    }

    pub fn as_big_decimal(&self) -> &BigDecimal {
        &self.decimal
    }

    fn from_digits(digits: Vec<u8>) -> (r: Result<DecimalValue, ConversionError>)
        requires
            is_digit_text(digits@),
        ensures
            r matches Ok(d) && d.text() == digits@,
    {
        match parse_decimal_bytes(&digits) {
            Some(decimal) => Ok(DecimalValue { digits, decimal }),
            None => Err(ConversionError::NotDecimal),
        }
    }

    /// Reads the value back as a 128-bit integer; `None` where it does not fit.
    pub fn to_u128(&self) -> (r: Option<u128>)
        ensures
            self.value() <= u128::MAX ==> r == Some(self.value() as u128),
            self.value() > u128::MAX ==> r is None,
    {
        proof {
            use_type_invariant(self);
        }
        let d = &self.digits;
        let mut acc: u128 = 0;
        let mut i: usize = 0;
        assert(d@.take(0) =~= Seq::<u8>::empty());
        while i < d.len()
            invariant
                is_digit_text(d@),
                d@ == self.text(),
                0 <= i <= d.len(),
                acc == digits_value(d@.take(i as int)),
            decreases d.len() - i,
        {
            assert(is_digit(d@[i as int]));
            let digit = (d[i] - 48) as u128;
            assert(d@.take(i + 1).drop_last() =~= d@.take(i as int));
            proof {
                lemma_prefix_value_le(d@, i + 1);
            }
            match acc.checked_mul(10) {
                None => return None,
                Some(m) => match m.checked_add(digit) {
                    None => return None,
                    Some(next) => {
                        acc = next;
                    },
                },
            }
            i = i + 1;
        }
        assert(d@.take(d.len() as int) =~= d@);
        Some(acc)
    }

    /// Multiplies by ten and adds a digit; `None` where the result exceeds 256 bits.
    fn mul10_add(x: U256, digit: u8) -> (r: Option<U256>)
        requires
            digit < 10,
        ensures
            x.value() * 10 + digit < word_base() * word_base() * word_base() * word_base()
                ==> (r matches Some(y) && y.value() == x.value() * 10 + digit),
            x.value() * 10 + digit >= word_base() * word_base() * word_base() * word_base()
                ==> r is None,
    {
        let w = x.words;
        let (n0, c0) = mul_step(w[0], digit as u128);
        let (n1, c1) = mul_step(w[1], c0);
        let (n2, c2) = mul_step(w[2], c1);
        let (n3, c3) = mul_step(w[3], c2);
        let y = U256 { words: [n0, n1, n2, n3] };
        proof {
            let b = word_base();
            let (a0, a1, a2, a3) = (w@[0] as int, w@[1] as int, w@[2] as int, w@[3] as int);
            let (m0, m1, m2, m3) = (n0 as int, n1 as int, n2 as int, n3 as int);
            let (k0, k1, k2, k3) = (c0 as int, c1 as int, c2 as int, c3 as int);
            assert(m0 + m1 * b + m2 * b * b + m3 * b * b * b + k3 * b * b * b * b == (a0 + a1 * b
                + a2 * b * b + a3 * b * b * b) * 10 + digit) by (nonlinear_arith)
                requires
                    m0 + k0 * b == a0 * 10 + digit,
                    m1 + k1 * b == a1 * 10 + k0,
                    m2 + k2 * b == a2 * 10 + k1,
                    m3 + k3 * b == a3 * 10 + k2,
            ;
            assert(m0 + m1 * b + m2 * b * b + m3 * b * b * b < b * b * b * b) by (nonlinear_arith)
                requires
                    0 <= m0 < b,
                    0 <= m1 < b,
                    0 <= m2 < b,
                    0 <= m3 < b,
            ;
            assert(k3 > 0 ==> k3 * b * b * b * b >= b * b * b * b) by (nonlinear_arith)
                requires
                    b > 0,
            ;
            assert(m0 + m1 * b + m2 * b * b + m3 * b * b * b >= 0) by (nonlinear_arith)
                requires
                    m0 >= 0,
                    m1 >= 0,
                    m2 >= 0,
                    m3 >= 0,
                    b > 0,
            ;
        }
        if c3 == 0 {
            Some(y)
        } else {
            None
        }
    }

    /// Reads the value back as a 256-bit integer; `None` where it does not fit.
    pub fn to_u256(&self) -> (r: Option<U256>)
        ensures
            self.value() < word_base() * word_base() * word_base() * word_base() ==> (r matches Some(
                y,
            ) && y.value() == self.value()),
            self.value() >= word_base() * word_base() * word_base() * word_base() ==> r is None,
    {
        proof {
            use_type_invariant(self);
        }
        let d = &self.digits;
        let mut acc = U256::zero();
        let mut i: usize = 0;
        assert(d@.take(0) =~= Seq::<u8>::empty());
        while i < d.len()
            invariant
                is_digit_text(d@),
                d@ == self.text(),
                0 <= i <= d.len(),
                acc.value() == digits_value(d@.take(i as int)),
            decreases d.len() - i,
        {
            assert(is_digit(d@[i as int]));
            let digit = d[i] - 48;
            assert(d@.take(i + 1).drop_last() =~= d@.take(i as int));
            proof {
                lemma_prefix_value_le(d@, i + 1);
            }
            match DecimalValue::mul10_add(acc, digit) {
                None => return None,
                Some(next) => {
                    acc = next;
                },
            }
            i = i + 1;
        }
        assert(d@.take(d.len() as int) =~= d@);
        Some(acc)
    }
}

/// One step of multiplying a word by ten with an incoming carry: the low word and the carry out.
fn mul_step(a: u64, carry: u128) -> (r: (u64, u128))
    requires
        carry < 10,
    ensures
        r.1 < 10,
        r.0 + r.1 * word_base() == a * 10 + carry,
{
    let t: u128 = a as u128 * 10 + carry;
    let lo = (t % 0x1_0000_0000_0000_0000) as u64;
    let hi = t / 0x1_0000_0000_0000_0000;
    assert(hi < 10) by (nonlinear_arith)
        requires
            hi == t / 0x1_0000_0000_0000_0000,
            t < 10 * 0x1_0000_0000_0000_0000,
    ;
    (lo, hi)
}

/// Converts a 128-bit value to an exact decimal.
pub fn u128_to_big_decimal(value: &u128) -> (r: Result<DecimalValue, ConversionError>)
    ensures
        r matches Ok(d) && d.text() == decimal_text(*value as nat) && d.value() == *value,
{
    let digits = decimal_digits_u128(*value);
    proof {
        lemma_decimal_round_trip(*value as nat);
    }
    DecimalValue::from_digits(digits)
}

/// Converts a 256-bit value to an exact decimal.
pub fn u256_to_big_decimal(value: &U256) -> (r: Result<DecimalValue, ConversionError>)
    ensures
        r matches Ok(d) && d.text() == decimal_text(value.value()) && d.value() == value.value(),
{
    let digits = decimal_digits_u256(*value);
    proof {
        lemma_decimal_round_trip(value.value());
    }
    DecimalValue::from_digits(digits)
}

/// Every 256-bit value, zero and the largest included, is below 2^256, and its decimal text
/// reads back as the same value: decoding the encoding gives the value back.
pub proof fn lemma_u256_round_trip(x: U256)
    ensures
        x.value() < word_base() * word_base() * word_base() * word_base(),
        is_digit_text(decimal_text(x.value())),
        digits_value(decimal_text(x.value())) == x.value(),
{
    lemma_decimal_round_trip(x.value());
    let b = word_base();
    let (a0, a1, a2, a3) = (x.words@[0] as int, x.words@[1] as int, x.words@[2] as int,
        x.words@[3] as int);
    assert(a0 + a1 * b + a2 * b * b + a3 * b * b * b < b * b * b * b) by (nonlinear_arith)
        requires
            0 <= a0 < b,
            0 <= a1 < b,
            0 <= a2 < b,
            0 <= a3 < b,
    ;
}

/// Every 128-bit value's decimal text reads back as the same value.
pub proof fn lemma_u128_round_trip(v: u128)
    ensures
        is_digit_text(decimal_text(v as nat)),
        digits_value(decimal_text(v as nat)) == v,
        digits_value(decimal_text(v as nat)) <= u128::MAX,
{
    lemma_decimal_round_trip(v as nat);
}

} // verus!
