//! Numbers of the language.
//!
//! Every number is an IEEE-754 binary64 value, held as its 64-bit pattern:
//! one sign bit, eleven exponent bits, fifty-two fraction bits. Order, the
//! zero test, truncation to an index and the numeral grammar are decided here
//! on the pattern itself. The four arithmetic operations and the reading of
//! decimal numerals are done by `rustc_apfloat`.

use rustc_apfloat::ieee::Double;
use rustc_apfloat::Float;
use vstd::arithmetic::power2::{lemma2_to64, lemma_pow2_strictly_increases, pow2};
use vstd::bits::{lemma_u64_shl_is_mul, lemma_u64_shr_is_div};
use vstd::prelude::*;

verus! {

/// The sign bit of a pattern.
pub const SIGN_BIT: u64 = 0x8000_0000_0000_0000;

/// The pattern of positive infinity: all exponent bits set, no fraction bit.
pub const INFINITY: u64 = 0x7FF0_0000_0000_0000;

/// The pattern of negative infinity.
pub const NEG_INFINITY: u64 = 0xFFF0_0000_0000_0000;

/// The pattern of the quiet NaN that the numeral `nan` stands for.
pub const NAN: u64 = 0x7FF8_0000_0000_0000;

/// The pattern of the quiet NaN that the numeral `-nan` stands for.
pub const NEG_NAN: u64 = 0xFFF8_0000_0000_0000;

/// The pattern of 1.0.
pub const ONE: u64 = 0x3FF0_0000_0000_0000;

/// Two to the power 52: the implicit leading bit of a normal number's significand.
pub const HIDDEN_BIT: u64 = 0x0010_0000_0000_0000;

/// The pattern without its sign bit.
pub open spec fn magnitude(bits: u64) -> u64 {
    bits % SIGN_BIT
}

/// Whether the sign bit is set.
pub open spec fn is_negative(bits: u64) -> bool {
    bits >= SIGN_BIT
}

/// Whether the pattern is a NaN: all exponent bits set and some fraction bit.
pub open spec fn is_nan(bits: u64) -> bool {
    magnitude(bits) > INFINITY
}

/// Whether the pattern is positive or negative zero.
pub open spec fn is_zero(bits: u64) -> bool {
    magnitude(bits) == 0
}

/// The place of a pattern that is no NaN on the number line: patterns of one
/// sign are ordered as their magnitudes are, and both zeros share place 0.
pub open spec fn rank(bits: u64) -> int {
    if is_negative(bits) {
        -(magnitude(bits) as int)
    } else {
        magnitude(bits) as int
    }
}

/// IEEE-754 equality: false when either side is a NaN.
pub open spec fn float_eq(a: u64, b: u64) -> bool {
    !is_nan(a) && !is_nan(b) && rank(a) == rank(b)
}

/// IEEE-754 "less than": false when either side is a NaN.
pub open spec fn float_lt(a: u64, b: u64) -> bool {
    !is_nan(a) && !is_nan(b) && rank(a) < rank(b)
}

/// IEEE-754 "less than or equal": false when either side is a NaN.
pub open spec fn float_le(a: u64, b: u64) -> bool {
    !is_nan(a) && !is_nan(b) && rank(a) <= rank(b)
}

/// The whole part of a finite number that is 1 or more, from its magnitude:
/// the significand times two to the power of the exponent, rounded down.
pub open spec fn whole_part(m: u64) -> nat {
    let exponent = (m / HIDDEN_BIT) as int - 1023;
    let significand = (m % HIDDEN_BIT + HIDDEN_BIT) as nat;
    if exponent >= 52 {
        significand * pow2((exponent - 52) as nat)
    } else {
        significand / pow2((52 - exponent) as nat)
    }
}

/// A number as a list index: its whole part; 0 for a NaN, for a negative
/// number and below 1.0; the largest `usize` for an infinity and for what
/// does not fit.
pub open spec fn truncate_index(bits: u64) -> usize {
    let m = magnitude(bits);
    if is_negative(bits) || is_nan(bits) || m < ONE {
        0
    } else if whole_part(m) > usize::MAX {
        usize::MAX
    } else {
        whole_part(m) as usize
    }
}

/// Whether a number is a NaN.
pub fn bits_is_nan(bits: u64) -> (r: bool)
    ensures
        r == is_nan(bits),
{
    bits % SIGN_BIT > INFINITY
}

/// Whether a number is zero, of either sign.
pub fn bits_is_zero(bits: u64) -> (r: bool)
    ensures
        r == is_zero(bits),
{
    bits % SIGN_BIT == 0
}

/// Whether two numbers are equal.
pub fn bits_eq(a: u64, b: u64) -> (r: bool)
    ensures
        r == float_eq(a, b),
{
    if bits_is_nan(a) || bits_is_nan(b) {
        false
    } else if bits_is_zero(a) {
        bits_is_zero(b)
    } else {
        a == b
    }
}

/// Whether a number is less than another.
pub fn bits_lt(a: u64, b: u64) -> (r: bool)
    ensures
        r == float_lt(a, b),
{
    if bits_is_nan(a) || bits_is_nan(b) {
        false
    } else {
        let ma: u64 = a % SIGN_BIT;
        let mb: u64 = b % SIGN_BIT;
        if a >= SIGN_BIT {
            if b >= SIGN_BIT {
                ma > mb
            } else {
                ma != 0 || mb != 0
            }
        } else {
            if b >= SIGN_BIT {
                false
            } else {
                ma < mb
            }
        }
    }
}

/// Whether a number is less than another or equal to it.
pub fn bits_le(a: u64, b: u64) -> (r: bool)
    ensures
        r == float_le(a, b),
{
    bits_lt(a, b) || bits_eq(a, b)
}

/// The whole part of a number, as a list index.
pub fn bits_to_index(bits: u64) -> (r: usize)
    ensures
        r == truncate_index(bits),
{
    let m: u64 = bits % SIGN_BIT;
    if bits >= SIGN_BIT || m > INFINITY || m < ONE {
        0
    } else {
        let exponent: u64 = m / HIDDEN_BIT - 1023;
        let significand: u64 = m % HIDDEN_BIT + HIDDEN_BIT;
        proof {
            lemma2_to64();
        }
        if exponent >= 64 {
            proof {
                let power = pow2((exponent - 52) as nat);
                if exponent > 64 {
                    lemma_pow2_strictly_increases(12, (exponent - 52) as nat);
                }
                assert(significand * power >= 0x1_0000_0000_0000_0000) by (nonlinear_arith)
                    requires
                        significand >= 0x0010_0000_0000_0000,
                        power >= 0x1000,
                ;
            }
            usize::MAX
        } else {
            let whole: u64 = if exponent >= 52 {
                let shift: u64 = exponent - 52;
                proof {
                    let power = pow2(shift as nat);
                    if shift < 11 {
                        lemma_pow2_strictly_increases(shift as nat, 11);
                    }
                    assert(significand * power <= 0xFFFF_FFFF_FFFF_FFFF) by (nonlinear_arith)
                        requires
                            significand < 0x0020_0000_0000_0000,
                            power <= 0x800,
                    ;
                    lemma_u64_shl_is_mul(significand, shift);
                }
                significand << shift
            } else {
                proof {
                    lemma_u64_shr_is_div(significand, (52 - exponent) as u64);
                }
                significand >> (52 - exponent)
            };
            if whole > usize::MAX as u64 {
                usize::MAX
            } else {
                whole as usize
            }
        }
    }
}

/// The sum that `rustc_apfloat` gives for two patterns.
pub uninterp spec fn float_sum(a: u64, b: u64) -> u64;

/// The difference that `rustc_apfloat` gives for two patterns.
pub uninterp spec fn float_difference(a: u64, b: u64) -> u64;

/// The product that `rustc_apfloat` gives for two patterns.
pub uninterp spec fn float_product(a: u64, b: u64) -> u64;

/// The quotient that `rustc_apfloat` gives for two patterns.
pub uninterp spec fn float_quotient(a: u64, b: u64) -> u64;

/// What `rustc_apfloat` reads a text as: the pattern, or nothing where it
/// rejects the text.
pub uninterp spec fn decimal_value(text: Seq<char>) -> Option<u64>;

/// Calls `Add::add` of `rustc_apfloat::ieee::Double`, which rounds to nearest,
/// ties to even. The result depends on the two patterns alone; it is named
/// `float_sum`, and nothing else is claimed of it.
#[verifier::external_body]
pub(crate) fn add_bits(a: u64, b: u64) -> (r: u64)
    ensures
        r == float_sum(a, b),
{
    (Double::from_bits(a as u128) + Double::from_bits(b as u128)).value.to_bits() as u64
}

/// Calls `Sub::sub` of `rustc_apfloat::ieee::Double`, which rounds to nearest,
/// ties to even. The result depends on the two patterns alone; it is named
/// `float_difference`, and nothing else is claimed of it.
#[verifier::external_body]
pub(crate) fn sub_bits(a: u64, b: u64) -> (r: u64)
    ensures
        r == float_difference(a, b),
{
    (Double::from_bits(a as u128) - Double::from_bits(b as u128)).value.to_bits() as u64
}

/// Calls `Mul::mul` of `rustc_apfloat::ieee::Double`, which rounds to nearest,
/// ties to even. The result depends on the two patterns alone; it is named
/// `float_product`, and nothing else is claimed of it.
#[verifier::external_body]
pub(crate) fn mul_bits(a: u64, b: u64) -> (r: u64)
    ensures
        r == float_product(a, b),
{
    (Double::from_bits(a as u128) * Double::from_bits(b as u128)).value.to_bits() as u64
}

/// Calls `Div::div` of `rustc_apfloat::ieee::Double`, which rounds to nearest,
/// ties to even, and gives an infinity or a NaN for a zero divisor. The result
/// depends on the two patterns alone; it is named `float_quotient`, and nothing
/// else is claimed of it.
#[verifier::external_body]
pub(crate) fn div_bits(a: u64, b: u64) -> (r: u64)
    ensures
        r == float_quotient(a, b),
{
    (Double::from_bits(a as u128) / Double::from_bits(b as u128)).value.to_bits() as u64
}

/// Calls `FromStr::from_str` of `rustc_apfloat::ieee::Double`, which reads a
/// text with correct rounding or rejects it. The result depends on the text
/// alone; it is named `decimal_value`, and nothing else is claimed of it.
#[verifier::external_body]
pub(crate) fn read_decimal(text: &str) -> (r: Option<u64>)
    ensures
        r == decimal_value(text@),
{
    match text.parse::<Double>() {
        Ok(value) => Some(value.to_bits() as u64),
        Err(_) => None,
    }
}

/// The characters of a text, one by one.
pub fn chars_of(text: &str) -> (r: Vec<char>)
    ensures
        r@ == text@,
{
    let mut out: Vec<char> = Vec::new();
    for c in it: text.chars()
        invariant
            it.seq() == text@,
            out@ == text@.take(it.index() as int),
    {
        assert(text@.take(it.index() + 1) == text@.take(it.index() as int).push(c));
        out.push(c);
    }
    assert(text@.take(text@.len() as int) == text@);
    out
}

/// Whether a character is one of the ten decimal digits.
pub open spec fn is_digit(c: char) -> bool {
    '0' <= c && c <= '9'
}

/// The first position at or after `i` that holds no digit.
pub open spec fn digits_end(s: Seq<char>, i: int) -> int
    decreases s.len() - i,
{
    if 0 <= i < s.len() && is_digit(s[i]) {
        digits_end(s, i + 1)
    } else {
        i
    }
}

/// 1 where position `i` holds a sign, else 0.
pub open spec fn sign_len(s: Seq<char>, i: int) -> int {
    if 0 <= i < s.len() && (s[i] == '+' || s[i] == '-') {
        1
    } else {
        0
    }
}

/// Whether the text from `start` to its end spells `lower`, letter by letter,
/// in either case (`upper` holds the capitals).
pub open spec fn spells(s: Seq<char>, start: int, lower: Seq<char>, upper: Seq<char>) -> bool {
    &&& s.len() - start == lower.len()
    &&& forall|k: int|
        0 <= k < lower.len() ==> s[start + k] == lower[k] || s[start + k] == upper[k]
}

/// Whether the text from `b` to its end is an exponent: `e` or `E`, an
/// optional sign, and one digit or more.
pub open spec fn is_exponent(s: Seq<char>, b: int) -> bool {
    let c = b + 1 + sign_len(s, b + 1);
    &&& 0 <= b < s.len()
    &&& (s[b] == 'e' || s[b] == 'E')
    &&& c < s.len()
    &&& digits_end(s, c) == s.len()
}

/// Whether the text from `start` to its end is an unsigned decimal numeral:
/// digits with at most one point among them, at least one digit in all, and
/// an optional exponent.
pub open spec fn is_decimal(s: Seq<char>, start: int) -> bool {
    let a = digits_end(s, start);
    let pointed = a < s.len() && s[a] == '.';
    let b = if pointed {
        digits_end(s, a + 1)
    } else {
        a
    };
    let digits = if pointed {
        b - start - 1
    } else {
        b - start
    };
    &&& 0 <= start
    &&& digits > 0
    &&& (b == s.len() || is_exponent(s, b))
}

/// The number that a token stands for, if it is a numeral: an optional sign,
/// then `inf`, `infinity` or `nan` in any case, or a decimal numeral.
pub open spec fn numeral_value(s: Seq<char>) -> Option<u64> {
    let negative = s.len() > 0 && s[0] == '-';
    let start = sign_len(s, 0);
    if spells(s, start, "inf"@, "INF"@) || spells(s, start, "infinity"@, "INFINITY"@) {
        Some(
            if negative {
                NEG_INFINITY
            } else {
                INFINITY
            },
        )
    } else if spells(s, start, "nan"@, "NAN"@) {
        Some(
            if negative {
                NEG_NAN
            } else {
                NAN
            },
        )
    } else if is_decimal(s, start) {
        decimal_value(s)
    } else {
        None
    }
}

/// The first position at or after `i` that holds no digit.
fn scan_digits(s: &Vec<char>, i: usize) -> (j: usize)
    requires
        i <= s.len(),
    ensures
        j == digits_end(s@, i as int),
        i <= j <= s.len(),
{
    let mut j: usize = i;
    while j < s.len() && '0' <= s[j] && s[j] <= '9'
        invariant
            i <= j <= s.len(),
            digits_end(s@, j as int) == digits_end(s@, i as int),
        decreases s.len() - j,
    {
        j += 1;
    }
    j
}

/// 1 where position `i` holds a sign, else 0.
fn scan_sign(s: &Vec<char>, i: usize) -> (n: usize)
    requires
        i <= s.len(),
    ensures
        n == sign_len(s@, i as int),
{
    if i < s.len() && (s[i] == '+' || s[i] == '-') {
        1
    } else {
        0
    }
}

/// Whether the text from `start` on spells a word, in either case.
fn spells_at(s: &Vec<char>, start: usize, lower: &str, upper: &str) -> (r: bool)
    requires
        start <= s.len(),
        lower@.len() == upper@.len(),
    ensures
        r == spells(s@, start as int, lower@, upper@),
{
    let n: usize = lower.unicode_len();
    if s.len() - start != n {
        return false;
    }
    let mut k: usize = 0;
    while k < n
        invariant
            k <= n,
            n == lower@.len(),
            n == upper@.len(),
            s.len() - start == n,
            forall|j: int|
                0 <= j < k ==> s@[start + j] == lower@[j] || s@[start + j] == upper@[j],
        decreases n - k,
    {
        let c: char = s[start + k];
        if c != lower.get_char(k) && c != upper.get_char(k) {
            return false;
        }
        k += 1;
    }
    true
}

/// Whether the text from `b` on is an exponent.
fn exponent_at(s: &Vec<char>, b: usize) -> (r: bool)
    requires
        b < s.len(),
    ensures
        r == is_exponent(s@, b as int),
{
    if s[b] != 'e' && s[b] != 'E' {
        return false;
    }
    let c: usize = b + 1 + scan_sign(s, b + 1);
    c < s.len() && scan_digits(s, c) == s.len()
}

/// Whether the text from `start` on is an unsigned decimal numeral.
fn decimal_at(s: &Vec<char>, start: usize) -> (r: bool)
    requires
        start <= s.len(),
    ensures
        r == is_decimal(s@, start as int),
{
    let a: usize = scan_digits(s, start);
    let pointed: bool = a < s.len() && s[a] == '.';
    let b: usize = if pointed {
        scan_digits(s, a + 1)
    } else {
        a
    };
    let digits: usize = if pointed {
        b - start - 1
    } else {
        b - start
    };
    digits > 0 && (b == s.len() || exponent_at(s, b))
}

/// Reads a token as a number.
pub fn parse_number(token: &str) -> (r: Option<u64>)
    ensures
        r == numeral_value(token@),
{
    proof {
        reveal_strlit("inf");
        reveal_strlit("INF");
        reveal_strlit("infinity");
        reveal_strlit("INFINITY");
        reveal_strlit("nan");
        reveal_strlit("NAN");
    }
    let s: Vec<char> = chars_of(token);
    let negative: bool = s.len() > 0 && s[0] == '-';
    let start: usize = scan_sign(&s, 0);
    if spells_at(&s, start, "inf", "INF") || spells_at(&s, start, "infinity", "INFINITY") {
        Some(
            if negative {
                NEG_INFINITY
            } else {
                INFINITY
            },
        )
    } else if spells_at(&s, start, "nan", "NAN") {
        Some(
            if negative {
                NEG_NAN
            } else {
                NAN
            },
        )
    } else if decimal_at(&s, start) {
        read_decimal(token)
    } else {
        None
    }
}

} // verus!
