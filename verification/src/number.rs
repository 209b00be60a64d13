//! Double-precision numbers, held by their bit patterns.
//!
//! A [`Number`] is a value of the binary64 interchange format: one sign bit,
//! eleven exponent bits and fifty-two fraction bits. What can be read off the
//! bits (the sign, whether the value is zero, its integer part) is computed
//! and proved here. Rounded arithmetic and the reading of decimal text are
//! done by `rustc_apfloat`; their results are named, not described.

use rustc_apfloat::ieee::Double;
use rustc_apfloat::Float;
use std::str::FromStr;
use vstd::arithmetic::power2::{lemma2_to64, lemma_pow2_strictly_increases, pow2};
use vstd::bits::{lemma_u64_shl_is_mul, lemma_u64_shr_is_div};
use vstd::prelude::*;

verus! {

/// The bit that holds the sign.
pub const SIGN_BIT: u64 = 0x8000_0000_0000_0000;

/// The bits of positive infinity. Every larger magnitude is a NaN.
pub const INFINITY_BITS: u64 = 0x7ff0_0000_0000_0000;

/// Two to the power fifty-two: the number of values the fraction field takes.
pub const FRACTION_SPAN: u64 = 0x0010_0000_0000_0000;

/// The exponent field of one.
pub const EXPONENT_BIAS: u64 = 1023;

/// The greatest number of characters in a decimal text that is read: two
/// to the power twenty-four.
pub const MAX_DECIMAL_LENGTH: usize = 0x0100_0000;

/// The sum of two doubles, rounded to nearest with ties to even.
pub uninterp spec fn double_sum(a: u64, b: u64) -> u64;

/// The difference of two doubles, rounded to nearest with ties to even.
pub uninterp spec fn double_difference(a: u64, b: u64) -> u64;

/// The product of two doubles, rounded to nearest with ties to even.
pub uninterp spec fn double_product(a: u64, b: u64) -> u64;

/// The quotient of two doubles, rounded to nearest with ties to even.
pub uninterp spec fn double_quotient(a: u64, b: u64) -> u64;

/// The double nearest to the value that a decimal text denotes.
pub uninterp spec fn double_of_decimal(text: Seq<char>) -> u64;

/// Whether `c` is one of the ten ASCII digits.
pub open spec fn is_digit(c: char) -> bool {
    '0' <= c && c <= '9'
}

/// Whether `text` is a decimal numeral: digits with at most one point among
/// them, and at least one digit.
pub open spec fn is_decimal(text: Seq<char>) -> bool {
    &&& forall|i: int| 0 <= i < text.len() ==> is_digit(#[trigger] text[i]) || text[i] == '.'
    &&& exists|i: int| 0 <= i < text.len() && is_digit(#[trigger] text[i])
    &&& forall|i: int, j: int|
        0 <= i < text.len() && 0 <= j < text.len() && #[trigger] text[i] == '.'
            && #[trigger] text[j] == '.' ==> i == j
}

/// A double-precision number in the binary64 interchange format.
///
/// Two numbers are equal here when their bits are: a NaN equals itself, and
/// the two zeros differ.
#[derive(Clone, Copy, Debug, PartialEq, Eq, Structural)]
pub struct Number {
    pub bits: u64,
}

/// Adds with `rustc_apfloat`'s `Add` for `Double`, which rounds to nearest,
/// ties to even. The result is named. One fact is taken from the source:
/// added to positive zero, a number that is neither a NaN nor the negative
/// zero comes back as it is.
#[verifier::external_body]
fn double_add(a: u64, b: u64) -> (r: u64)
    ensures
        r == double_sum(a, b),
        a == 0 && (Number { bits: b }).is_kept_by_zero() ==> r == b,
{
    let x = Double::from_bits(a as u128);
    let y = Double::from_bits(b as u128);
    (x + y).value.to_bits() as u64
}

/// Subtracts with `rustc_apfloat`'s `Sub` for `Double`, which rounds to
/// nearest, ties to even. The result is named.
#[verifier::external_body]
fn double_sub(a: u64, b: u64) -> (r: u64)
    ensures
        r == double_difference(a, b),
{
    let x = Double::from_bits(a as u128);
    let y = Double::from_bits(b as u128);
    (x - y).value.to_bits() as u64
}

/// Multiplies with `rustc_apfloat`'s `Mul` for `Double`, which rounds to
/// nearest, ties to even. The result is named.
#[verifier::external_body]
fn double_mul(a: u64, b: u64) -> (r: u64)
    ensures
        r == double_product(a, b),
{
    let x = Double::from_bits(a as u128);
    let y = Double::from_bits(b as u128);
    (x * y).value.to_bits() as u64
}

/// Divides with `rustc_apfloat`'s `Div` for `Double`, which rounds to
/// nearest, ties to even. The result is named. One fact is taken from the
/// source: a zero divisor gives an infinity or a NaN, whatever is divided.
#[verifier::external_body]
fn double_div(a: u64, b: u64) -> (r: u64)
    ensures
        r == double_quotient(a, b),
        (Number { bits: b }).is_zero() ==> !(Number { bits: r }).is_finite(),
{
    let x = Double::from_bits(a as u128);
    let y = Double::from_bits(b as u128);
    (x / y).value.to_bits() as u64
}

/// Reads a decimal numeral with `rustc_apfloat`'s `FromStr` for `Double`.
/// The value is named. Two facts are taken from the source. A text of
/// digits with at most one point and at least one digit is accepted. And
/// what comes of it carries no sign and is no NaN: without a leading minus
/// nothing is negated, and the function gives zero, infinity or a
/// normalized value.
///
/// The length is bounded because the source counts in words of the machine
/// and in thirty-two bits: it multiplies the number of significant digits
/// by 196 in a `usize`, and it holds the number of bits of the significand,
/// which is at most 196/59 times the number of digits, in an `i32`. With at
/// most two to the power twenty-four characters both stay in range, also
/// where a `usize` has thirty-two bits.
#[verifier::external_body]
fn double_from_decimal(text: &Vec<char>) -> (r: Option<u64>)
    requires
        is_decimal(text@),
        text@.len() <= MAX_DECIMAL_LENGTH,
    ensures
        r == Some(double_of_decimal(text@)),
        r is Some ==> r->0 <= INFINITY_BITS,
{
    let s: String = text.iter().collect();
    match Double::from_str(&s) {
        Ok(x) => Some(x.to_bits() as u64),
        Err(_) => None,
    }
}

impl Number {
    /// The bits without the sign.
    pub open spec fn magnitude(self) -> u64 {
        if self.bits >= SIGN_BIT {
            (self.bits - SIGN_BIT) as u64
        } else {
            self.bits
        }
    }

    /// Whether the sign bit is set.
    pub open spec fn is_negative(self) -> bool {
        self.bits >= SIGN_BIT
    }

    /// Whether this is not a number.
    pub open spec fn is_nan(self) -> bool {
        self.magnitude() > INFINITY_BITS
    }

    /// Whether this is neither an infinity nor a NaN.
    pub open spec fn is_finite(self) -> bool {
        self.magnitude() < INFINITY_BITS
    }

    /// Whether adding this number to positive zero gives it back: it is
    /// neither a NaN nor the negative zero.
    pub open spec fn is_kept_by_zero(self) -> bool {
        !self.is_nan() && self.bits != SIGN_BIT
    }

    /// Whether this is one of the two zeros.
    pub open spec fn is_zero(self) -> bool {
        self.magnitude() == 0
    }

    /// The exponent field.
    pub open spec fn exponent(self) -> nat {
        (self.magnitude() / FRACTION_SPAN) as nat
    }

    /// The significand of a normal number, as an integer: the fraction field
    /// under its implicit leading bit.
    pub open spec fn significand(self) -> nat {
        (FRACTION_SPAN + self.magnitude() % FRACTION_SPAN) as nat
    }

    /// The value as a count: the integer part, held to the range of `usize`.
    /// A NaN and every negative value count as zero.
    pub open spec fn count(self) -> nat {
        if self.is_nan() || self.is_negative() || self.exponent() < EXPONENT_BIAS {
            0
        } else if self.exponent() >= EXPONENT_BIAS + 64 {
            usize::MAX as nat
        } else {
            let whole = if self.exponent() <= EXPONENT_BIAS + 52 {
                self.significand() / pow2((EXPONENT_BIAS + 52 - self.exponent()) as nat)
            } else {
                self.significand() * pow2((self.exponent() - EXPONENT_BIAS - 52) as nat)
            };
            if whole > usize::MAX {
                usize::MAX as nat
            } else {
                whole
            }
        }
    }

    /// The sum of two numbers. Positive zero leaves what is added to it as
    /// it is, but for a NaN and the negative zero.
    pub open spec fn sum(self, other: Number) -> Number {
        if self.bits == 0 && other.is_kept_by_zero() {
            other
        } else {
            Number { bits: double_sum(self.bits, other.bits) }
        }
    }

    /// The difference of two numbers.
    pub open spec fn difference(self, other: Number) -> Number {
        Number { bits: double_difference(self.bits, other.bits) }
    }

    /// The product of two numbers.
    pub open spec fn product(self, other: Number) -> Number {
        Number { bits: double_product(self.bits, other.bits) }
    }

    /// The quotient of two numbers.
    pub open spec fn quotient(self, other: Number) -> Number {
        Number { bits: double_quotient(self.bits, other.bits) }
    }

    /// The number with the given bits, where they carry no sign and are no
    /// NaN, and nothing otherwise.
    pub open spec fn signless(bits: u64) -> Option<Number> {
        if bits <= INFINITY_BITS {
            Some(Number { bits })
        } else {
            None
        }
    }

    /// What a decimal text is read as: a number where the text is a decimal
    /// numeral of a length that is read, nothing otherwise. The reading of
    /// a numeral has no sign and is no NaN; one that had would not be taken.
    pub open spec fn read(text: Seq<char>) -> Option<Number> {
        if is_decimal(text) && text.len() <= MAX_DECIMAL_LENGTH {
            Number::signless(double_of_decimal(text))
        } else {
            None
        }
    }

    /// The number with the given bits.
    pub fn from_bits(bits: u64) -> (r: Number)
        ensures
            r.bits == bits,
    {
        Number { bits }
    }

    /// The bits of the number.
    pub fn to_bits(self) -> (r: u64)
        ensures
            r == self.bits,
    {
        self.bits
    }

    /// Positive zero.
    pub fn zero() -> (r: Number)
        ensures
            r.bits == 0,
    {
        Number { bits: 0 }
    }

    /// Whether the number differs from zero. A NaN does.
    pub fn is_nonzero(self) -> (r: bool)
        ensures
            r == !self.is_zero(),
    {
        self.bits != 0 && self.bits != SIGN_BIT
    }

    /// The number as a count: its integer part where that fits, zero for a
    /// NaN or a negative value, and the greatest `usize` above that.
    pub fn to_count(self) -> (r: usize)
        ensures
            r == self.count(),
    {
        if self.bits >= SIGN_BIT || self.bits > INFINITY_BITS {
            return 0;
        }
        let exponent: u64 = self.bits / FRACTION_SPAN;
        if exponent < EXPONENT_BIAS {
            return 0;
        }
        if exponent >= EXPONENT_BIAS + 64 {
            return usize::MAX;
        }
        let significand: u64 = FRACTION_SPAN + self.bits % FRACTION_SPAN;
        let whole: u64 = if exponent <= EXPONENT_BIAS + 52 {
            let shift: u64 = EXPONENT_BIAS + 52 - exponent;
            proof {
                lemma_u64_shr_is_div(significand, shift);
            }
            significand >> shift
        } else {
            let shift: u64 = exponent - EXPONENT_BIAS - 52;
            proof {
                lemma2_to64();
                if shift < 11 {
                    lemma_pow2_strictly_increases(shift as nat, 11);
                }
                assert(significand * pow2(shift as nat) <= u64::MAX) by (nonlinear_arith)
                    requires
                        significand < 0x0020_0000_0000_0000,
                        pow2(shift as nat) <= 0x800,
                ;
                lemma_u64_shl_is_mul(significand, shift);
            }
            significand << shift
        };
        if whole > usize::MAX as u64 {
            usize::MAX
        } else {
            whole as usize
        }
    }

    /// The sum of two numbers.
    pub fn plus(self, other: Number) -> (r: Number)
        ensures
            r == self.sum(other),
    {
        Number { bits: double_add(self.bits, other.bits) }
    }

    /// The difference of two numbers.
    pub fn minus(self, other: Number) -> (r: Number)
        ensures
            r == self.difference(other),
    {
        Number { bits: double_sub(self.bits, other.bits) }
    }

    /// The product of two numbers.
    pub fn times(self, other: Number) -> (r: Number)
        ensures
            r == self.product(other),
    {
        Number { bits: double_mul(self.bits, other.bits) }
    }

    /// The quotient of two numbers. A zero divisor is no error: it gives an
    /// infinity or a NaN.
    pub fn over(self, other: Number) -> (r: Number)
        ensures
            r == self.quotient(other),
            other.is_zero() ==> !r.is_finite(),
    {
        Number { bits: double_div(self.bits, other.bits) }
    }

    /// The number with the given bits, where they carry no sign and are no
    /// NaN, and nothing otherwise.
    pub fn unsigned(bits: u64) -> (r: Option<Number>)
        ensures
            r == Number::signless(bits),
    {
        if bits <= INFINITY_BITS {
            Some(Number { bits })
        } else {
            None
        }
    }

    /// Reads a decimal text: digits with at most one point among them, at
    /// least one digit, and no more characters than are read. Every such
    /// text has a reading.
    pub fn parse(text: &Vec<char>) -> (r: Option<Number>)
        ensures
            r == Number::read(text@),
            r is Some <==> is_decimal(text@) && text@.len() <= MAX_DECIMAL_LENGTH,
    {
        if text.len() > MAX_DECIMAL_LENGTH {
            return None;
        }
        let mut digits: usize = 0;
        let mut points: usize = 0;
        let mut i: usize = 0;
        let ghost mut digit_at: int = 0;
        let ghost mut point_at: int = 0;
        while i < text.len()
            invariant
                i <= text.len(),
                text.len() <= MAX_DECIMAL_LENGTH,
                digits <= i,
                points <= 1,
                forall|k: int| 0 <= k < i ==> is_digit(#[trigger] text@[k]) || text@[k] == '.',
                digits > 0 ==> 0 <= digit_at < i && is_digit(text@[digit_at]),
                digits == 0 ==> forall|k: int| 0 <= k < i ==> !is_digit(#[trigger] text@[k]),
                points == 1 ==> 0 <= point_at < i && text@[point_at] == '.',
                points == 1 ==> forall|k: int|
                    0 <= k < i && #[trigger] text@[k] == '.' ==> k == point_at,
                points == 0 ==> forall|k: int| 0 <= k < i ==> #[trigger] text@[k] != '.',
            decreases text.len() - i,
        {
            let c = text[i];
            if '0' <= c && c <= '9' {
                proof {
                    digit_at = i as int;
                }
                digits = digits + 1;
            } else if c == '.' {
                if points == 1 {
                    assert(!is_decimal(text@)) by {
                        if is_decimal(text@) {
                            assert(text@[point_at] == '.' && text@[i as int] == '.');
                        }
                    }
                    return None;
                }
                proof {
                    point_at = i as int;
                }
                points = 1;
            } else {
                assert(!is_decimal(text@)) by {
                    if is_decimal(text@) {
                        assert(is_digit(text@[i as int]) || text@[i as int] == '.');
                    }
                }
                return None;
            }
            i = i + 1;
        }
        if digits == 0 {
            return None;
        }
        assert(is_decimal(text@)) by {
            assert(is_digit(text@[digit_at]));
        }
        match double_from_decimal(text) {
            Some(bits) => Number::unsigned(bits),
            None => None,
        }
    }
}

} // verus!
