//! Numbers as text.
//!
//! A finite number is written in plain decimal: all digits of the whole
//! part, then a point and the digits after it where there are any; never
//! with an exponent. `rustc_apfloat` writes the number with forty
//! significant digits. Here they are rounded to the fewest that read back
//! as the same number, and laid out.

use crate::number::{
    bits_is_nan, chars_of, decimal_value, digits_end, is_digit, is_nan, read_decimal, INFINITY,
    NEG_INFINITY,
};
use rustc_apfloat::ieee::Double;
use rustc_apfloat::Float;
use vstd::prelude::*;

verus! {

/// The most digits that a number is rounded to: as many always read back
/// as the same number.
pub const MOST_DIGITS: usize = 17;

/// The count of digits that the rounding starts from.
pub const FULL_DIGITS: usize = 40;

/// The text that `rustc_apfloat` writes for a pattern when asked for a
/// count of significant digits and an exponent.
pub uninterp spec fn scientific_text(bits: u64, digits: usize) -> Seq<char>;

/// Calls `Display::fmt` of `rustc_apfloat::ieee::Double` with a width of
/// zero and a precision of `digits`: it writes the number with at most that
/// many significant digits and an exponent. The result depends on the
/// pattern and the count alone; it is named `scientific_text`, and nothing
/// else is claimed of it.
#[verifier::external_body]
pub(crate) fn write_scientific(bits: u64, digits: usize) -> (r: String)
    requires
        1 <= digits <= FULL_DIGITS,
    ensures
        r@ == scientific_text(bits, digits),
{
    format!("{:width$.digits$}", Double::from_bits(bits as u128), width = 0, digits = digits)
}

/// Calls `String::from_iter` on a vector of characters: the string holds
/// those characters, in their order.
#[verifier::external_body]
pub(crate) fn string_from_chars(chars: Vec<char>) -> (r: String)
    ensures
        r@ == chars@,
{
    String::from_iter(chars)
}

/// The number that digits stand for, from position `from` up to `to`.
pub open spec fn digits_value(s: Seq<char>, from: int, to: int) -> nat
    decreases to - from,
{
    if to <= from {
        0
    } else {
        digits_value(s, from, to - 1) * 10 + ((s[to - 1] as u32) - 48) as nat
    }
}

/// Digits without the zeros at their end; one digit at least is left.
pub open spec fn strip_zeros(d: Seq<char>) -> Seq<char>
    decreases d.len(),
{
    if d.len() > 1 && d.last() == '0' {
        strip_zeros(d.drop_last())
    } else {
        d
    }
}

/// A number in parts: its sign, its significant digits, and the power of
/// ten that its first digit counts.
pub struct Parts {
    pub negative: bool,
    pub digits: Seq<char>,
    pub exponent: int,
}

/// The parts of a text of the form `-d.dddE+xx`: an optional minus, one
/// digit, a point, one digit or more, `E`, a sign, and one to four digits.
/// Any other text has no parts.
pub open spec fn parts_of(s: Seq<char>) -> Option<Parts> {
    let negative = s.len() > 0 && s[0] == '-';
    let a: int = if negative {
        1
    } else {
        0
    };
    let b = digits_end(s, a + 2);
    let c = b + 2;
    if a + 2 < s.len() && is_digit(s[a]) && s[a + 1] == '.' && a + 2 < b && b + 1 < s.len() && s[b]
        == 'E' && (s[b + 1] == '+' || s[b + 1] == '-') && c < s.len() && digits_end(s, c)
        == s.len() && s.len() - c <= 4 {
        Some(
            Parts {
                negative,
                digits: strip_zeros(seq![s[a]] + s.subrange(a + 2, b)),
                exponent: if s[b + 1] == '-' {
                    -(digits_value(s, c, s.len() as int) as int)
                } else {
                    digits_value(s, c, s.len() as int) as int
                },
            },
        )
    } else {
        None
    }
}

/// This many zeros.
pub open spec fn zeros(n: int) -> Seq<char> {
    Seq::new(
        if n > 0 {
            n as nat
        } else {
            0
        },
        |i: int| '0',
    )
}

/// The parts of a number laid out in plain decimal.
pub open spec fn lay_out(p: Parts) -> Seq<char> {
    let sign: Seq<char> = if p.negative {
        seq!['-']
    } else {
        Seq::empty()
    };
    let n = p.digits.len() as int;
    if p.exponent < 0 {
        sign + seq!['0', '.'] + zeros(-p.exponent - 1) + p.digits
    } else if n <= p.exponent + 1 {
        sign + p.digits + zeros(p.exponent + 1 - n)
    } else {
        sign + p.digits.subrange(0, p.exponent + 1) + seq!['.'] + p.digits.subrange(
            p.exponent + 1,
            n,
        )
    }
}

/// The digit after a digit; `9` has none and is left as it is.
pub open spec fn next_digit(c: char) -> char {
    if c == '0' {
        '1'
    } else if c == '1' {
        '2'
    } else if c == '2' {
        '3'
    } else if c == '3' {
        '4'
    } else if c == '4' {
        '5'
    } else if c == '5' {
        '6'
    } else if c == '6' {
        '7'
    } else if c == '7' {
        '8'
    } else if c == '8' {
        '9'
    } else {
        c
    }
}

/// Digits with one added in their last place, and whether that carried
/// beyond the first digit (then all digits were nines, and are zeros now).
pub open spec fn bump(d: Seq<char>) -> (Seq<char>, bool)
    decreases d.len(),
{
    if d.len() == 0 {
        (d, true)
    } else if d.last() == '9' {
        let (rest, carry) = bump(d.drop_last());
        (rest.push('0'), carry)
    } else {
        (d.drop_last().push(next_digit(d.last())), false)
    }
}

/// A number cut to its first `count` significant digits, and with one
/// added in the last of them where it is rounded up.
pub open spec fn rounded(full: Parts, count: int, up: bool) -> Parts
    recommends
        1 <= count < full.digits.len(),
{
    let head = full.digits.subrange(0, count);
    if !up {
        Parts { negative: full.negative, digits: strip_zeros(head), exponent: full.exponent }
    } else {
        let (up, carry) = bump(head);
        if carry {
            Parts { negative: full.negative, digits: seq!['1'], exponent: full.exponent + 1 }
        } else {
            Parts { negative: full.negative, digits: strip_zeros(up), exponent: full.exponent }
        }
    }
}

/// Whether the parts of a number, laid out, read back as the number.
pub open spec fn reads_as(bits: u64, p: Parts) -> bool {
    decimal_value(lay_out(p)) == Some(bits)
}

/// Whether a number is nearer to its first `count` digits with one added
/// in the last place than to those digits alone: whether the next digit is
/// 5 or more.
pub open spec fn nearer_up(full: Parts, count: int) -> bool {
    (full.digits[count] as u32) >= 53
}

/// The number rounded to the fewest digits from `count` on that read back
/// as the number, and all its digits where no fewer do. With each count of
/// digits the nearer rounding is tried first, then the other.
pub open spec fn shortest(bits: u64, full: Parts, count: int) -> Parts
    decreases MOST_DIGITS + 1 - count,
{
    if count < 1 || count > MOST_DIGITS || count >= full.digits.len() {
        full
    } else if reads_as(bits, rounded(full, count, nearer_up(full, count))) {
        rounded(full, count, nearer_up(full, count))
    } else if reads_as(bits, rounded(full, count, !nearer_up(full, count))) {
        rounded(full, count, !nearer_up(full, count))
    } else {
        shortest(bits, full, count + 1)
    }
}

/// The text of a number: `NaN`, `inf` and `-inf` for the patterns that are
/// no finite number; else the number in plain decimal, rounded to the
/// fewest digits that read back as the same number.
pub open spec fn number_text(bits: u64) -> Seq<char> {
    if is_nan(bits) {
        "NaN"@
    } else if bits == INFINITY {
        "inf"@
    } else if bits == NEG_INFINITY {
        "-inf"@
    } else {
        match parts_of(scientific_text(bits, FULL_DIGITS)) {
            Some(full) => lay_out(shortest(bits, full, 1)),
            None => scientific_text(bits, FULL_DIGITS),
        }
    }
}

/// The first position at or after `i` that holds no digit.
fn scan_digits(s: &Vec<char>, i: usize) -> (j: usize)
    requires
        i <= s.len(),
    ensures
        j == digits_end(s@, i as int),
        i <= j <= s.len(),
{
    let mut j: usize = i;
    while j < s.len() && '0' <= s[j] && s[j] <= '9'
        invariant
            i <= j <= s.len(),
            digits_end(s@, j as int) == digits_end(s@, i as int),
        decreases s.len() - j,
    {
        j += 1;
    }
    j
}

/// The number that at most four digits stand for.
fn read_digits(s: &Vec<char>, from: usize, to: usize) -> (r: usize)
    requires
        from <= to <= s.len(),
        to - from <= 4,
        digits_end(s@, from as int) >= to,
    ensures
        r == digits_value(s@, from as int, to as int),
        r <= 9999,
{
    let mut value: usize = 0;
    let mut i: usize = from;
    let ghost mut bound: int = 1;
    while i < to
        invariant
            from <= i <= to <= s.len(),
            to - from <= 4,
            digits_end(s@, from as int) >= to,
            value == digits_value(s@, from as int, i as int),
            0 <= value < bound,
            i - from == 0 ==> bound == 1,
            i - from == 1 ==> bound == 10,
            i - from == 2 ==> bound == 100,
            i - from == 3 ==> bound == 1000,
            i - from == 4 ==> bound == 10000,
        decreases to - i,
    {
        proof {
            lemma_digits_hold(s@, from as int, i as int);
        }
        let digit: u32 = s[i] as u32 - 48;
        value = value * 10 + digit as usize;
        proof {
            bound = bound * 10;
        }
        i += 1;
    }
    value
}

/// Every position before the end of a run of digits holds a digit.
proof fn lemma_digits_hold(s: Seq<char>, from: int, i: int)
    requires
        0 <= from <= i < digits_end(s, from),
    ensures
        i < s.len(),
        is_digit(s[i]),
    decreases i - from,
{
    if from < i {
        lemma_digits_hold(s, from + 1, i);
    }
}

/// Stripping zeros leaves the digits up to the last that is no zero.
proof fn lemma_strip_zeros(d: Seq<char>, keep: int)
    requires
        1 <= keep <= d.len(),
        forall|i: int| keep <= i < d.len() ==> d[i] == '0',
        keep == 1 || d[keep - 1] != '0',
    ensures
        strip_zeros(d) == d.subrange(0, keep),
    decreases d.len(),
{
    if keep < d.len() {
        let shorter = d.drop_last();
        lemma_strip_zeros(shorter, keep);
        assert(shorter.subrange(0, keep) =~= d.subrange(0, keep));
    } else {
        assert(d.subrange(0, keep) =~= d);
    }
}

/// The parts of a text with an exponent: whether it is negative, its
/// significant digits, whether its exponent is negative, and the exponent
/// without its sign.
fn split_scientific(s: &Vec<char>) -> (r: Option<(bool, Vec<char>, bool, usize)>)
    ensures
        match r {
            Some((negative, digits, down, power)) => parts_of(s@) == Some(
                Parts {
                    negative,
                    digits: digits@,
                    exponent: if down {
                        -(power as int)
                    } else {
                        power as int
                    },
                },
            ) && power <= 9999 && digits@.len() >= 1,
            None => parts_of(s@) is None,
        },
{
    let negative: bool = s.len() > 0 && s[0] == '-';
    let a: usize = if negative {
        1
    } else {
        0
    };
    if s.len() < 3 || a + 2 >= s.len() {
        return None;
    }
    if !('0' <= s[a] && s[a] <= '9') || s[a + 1] != '.' {
        return None;
    }
    let b: usize = scan_digits(s, a + 2);
    if b <= a + 2 || b >= s.len() - 1 || s[b] != 'E' || (s[b + 1] != '+' && s[b + 1] != '-') {
        return None;
    }
    let c: usize = b + 2;
    if c >= s.len() || s.len() - c > 4 || scan_digits(s, c) != s.len() {
        return None;
    }
    let down: bool = s[b + 1] == '-';
    let power: usize = read_digits(s, c, s.len());
    let mut digits: Vec<char> = Vec::new();
    digits.push(s[a]);
    let mut i: usize = a + 2;
    while i < b
        invariant
            a + 2 <= i <= b <= s.len(),
            digits@ == seq![s@[a as int]] + s@.subrange(a + 2, i as int),
        decreases b - i,
    {
        digits.push(s[i]);
        assert(seq![s@[a as int]] + s@.subrange(a + 2, i + 1) =~= (seq![s@[a as int]]
            + s@.subrange(a + 2, i as int)).push(s@[i as int]));
        i += 1;
    }
    let ghost all = digits@;
    let mut keep: usize = digits.len();
    while keep > 1 && digits[keep - 1] == '0'
        invariant
            1 <= keep <= digits.len(),
            digits@ == all,
            forall|j: int| keep <= j < all.len() ==> all[j] == '0',
        decreases keep,
    {
        keep -= 1;
    }
    proof {
        lemma_strip_zeros(all, keep as int);
    }
    digits.truncate(keep);
    Some((negative, digits, down, power))
}

/// Lays the parts of a number out in plain decimal.
fn lay_out_parts(negative: bool, digits: &Vec<char>, down: bool, power: usize) -> (r: Vec<char>)
    requires
        power <= 10000,
        digits@.len() >= 1,
    ensures
        r@ == lay_out(
            Parts {
                negative,
                digits: digits@,
                exponent: if down {
                    -(power as int)
                } else {
                    power as int
                },
            },
        ),
{
    let mut out: Vec<char> = Vec::new();
    if negative {
        out.push('-');
    }
    let ghost sign = out@;
    let n: usize = digits.len();
    if down && power > 0 {
        out.push('0');
        out.push('.');
        let mut k: usize = 1;
        while k < power
            invariant
                1 <= k <= power,
                out@ == sign + seq!['0', '.'] + zeros(k - 1),
            decreases power - k,
        {
            out.push('0');
            assert(zeros(k as int) =~= zeros(k - 1).push('0'));
            assert(sign + seq!['0', '.'] + zeros(k as int) =~= (sign + seq!['0', '.'] + zeros(
                k - 1,
            )).push('0'));
            k += 1;
        }
        let ghost head = out@;
        let mut i: usize = 0;
        while i < n
            invariant
                i <= n,
                n == digits@.len(),
                out@ == head + digits@.subrange(0, i as int),
            decreases n - i,
        {
            out.push(digits[i]);
            assert(head + digits@.subrange(0, i + 1) =~= (head + digits@.subrange(
                0,
                i as int,
            )).push(digits@[i as int]));
            i += 1;
        }
        assert(digits@.subrange(0, n as int) =~= digits@);
        out
    } else if n <= power + 1 {
        let mut i: usize = 0;
        while i < n
            invariant
                i <= n,
                n == digits@.len(),
                out@ == sign + digits@.subrange(0, i as int),
            decreases n - i,
        {
            out.push(digits[i]);
            assert(sign + digits@.subrange(0, i + 1) =~= (sign + digits@.subrange(
                0,
                i as int,
            )).push(digits@[i as int]));
            i += 1;
        }
        assert(digits@.subrange(0, n as int) =~= digits@);
        let ghost head = out@;
        let pad: usize = power + 1 - n;
        let mut k: usize = 0;
        while k < pad
            invariant
                k <= pad,
                out@ == head + zeros(k as int),
            decreases pad - k,
        {
            out.push('0');
            assert(zeros(k + 1) =~= zeros(k as int).push('0'));
            assert(head + zeros(k + 1) =~= (head + zeros(k as int)).push('0'));
            k += 1;
        }
        out
    } else {
        let whole: usize = power + 1;
        let mut i: usize = 0;
        while i < whole
            invariant
                i <= whole < n,
                n == digits@.len(),
                out@ == sign + digits@.subrange(0, i as int),
            decreases whole - i,
        {
            out.push(digits[i]);
            assert(sign + digits@.subrange(0, i + 1) =~= (sign + digits@.subrange(
                0,
                i as int,
            )).push(digits@[i as int]));
            i += 1;
        }
        out.push('.');
        let ghost head = out@;
        while i < n
            invariant
                whole <= i <= n,
                n == digits@.len(),
                out@ == head + digits@.subrange(whole as int, i as int),
            decreases n - i,
        {
            out.push(digits[i]);
            assert(head + digits@.subrange(whole as int, i + 1) =~= (head + digits@.subrange(
                whole as int,
                i as int,
            )).push(digits@[i as int]));
            i += 1;
        }
        out
    }
}

/// The parts of a number with this sign, these digits and this power of
/// ten, given by its size and direction.
pub open spec fn parts(negative: bool, digits: Seq<char>, down: bool, power: usize) -> Parts {
    Parts {
        negative,
        digits,
        exponent: if down {
            -(power as int)
        } else {
            power as int
        },
    }
}

/// Adding one to digits that end in nines after a digit that is no nine
/// raises that digit and turns the nines into zeros.
proof fn lemma_bump(d: Seq<char>, k: int)
    requires
        0 <= k < d.len(),
        d[k] != '9',
        forall|j: int| k < j < d.len() ==> d[j] == '9',
    ensures
        bump(d) == (d.subrange(0, k).push(next_digit(d[k])) + zeros(d.len() - k - 1), false),
    decreases d.len(),
{
    let target = d.subrange(0, k).push(next_digit(d[k])) + zeros(d.len() - k - 1);
    if k == d.len() - 1 {
        assert(d.drop_last() =~= d.subrange(0, k));
        assert(target =~= d.drop_last().push(next_digit(d.last())));
    } else {
        let shorter = d.drop_last();
        lemma_bump(shorter, k);
        assert(shorter.subrange(0, k) =~= d.subrange(0, k));
        assert(target =~= (shorter.subrange(0, k).push(next_digit(shorter[k])) + zeros(
            shorter.len() - k - 1,
        )).push('0'));
    }
}

/// Adding one to digits that are all nines carries beyond the first.
proof fn lemma_bump_nines(d: Seq<char>)
    requires
        forall|j: int| 0 <= j < d.len() ==> d[j] == '9',
    ensures
        bump(d).1,
    decreases d.len(),
{
    if d.len() > 0 {
        lemma_bump_nines(d.drop_last());
    }
}

/// The digit after a digit.
fn raise_digit(c: char) -> (r: char)
    ensures
        r == next_digit(c),
        r != '0',
{
    if c == '0' {
        '1'
    } else if c == '1' {
        '2'
    } else if c == '2' {
        '3'
    } else if c == '3' {
        '4'
    } else if c == '4' {
        '5'
    } else if c == '5' {
        '6'
    } else if c == '6' {
        '7'
    } else if c == '7' {
        '8'
    } else if c == '8' {
        '9'
    } else {
        c
    }
}

/// The first `keep` of some digits.
fn first_digits(digits: &Vec<char>, keep: usize) -> (r: Vec<char>)
    requires
        keep <= digits.len(),
    ensures
        r@ == digits@.subrange(0, keep as int),
{
    let mut out: Vec<char> = Vec::new();
    let mut i: usize = 0;
    while i < keep
        invariant
            i <= keep <= digits.len(),
            out@ == digits@.subrange(0, i as int),
        decreases keep - i,
    {
        out.push(digits[i]);
        assert(digits@.subrange(0, i + 1) =~= digits@.subrange(0, i as int).push(
            digits@[i as int],
        ));
        i += 1;
    }
    out
}

/// Cuts a number to its first `count` significant digits, and adds one in
/// the last of them where it is to be rounded up.
fn round_to(
    negative: bool,
    digits: &Vec<char>,
    count: usize,
    up: bool,
    down: bool,
    power: usize,
) -> (r: (Vec<char>, bool, usize))
    requires
        1 <= count < digits.len(),
        power <= 9999,
    ensures
        rounded(parts(negative, digits@, down, power), count as int, up) == parts(
            negative,
            r.0@,
            r.1,
            r.2,
        ),
        r.0@.len() >= 1,
        r.2 <= 10000,
{
    let ghost head = digits@.subrange(0, count as int);
    if !up {
        let mut keep: usize = count;
        while keep > 1 && digits[keep - 1] == '0'
            invariant
                1 <= keep <= count < digits.len(),
                head == digits@.subrange(0, count as int),
                forall|j: int| keep <= j < count ==> head[j] == '0',
            decreases keep,
        {
            keep -= 1;
        }
        proof {
            lemma_strip_zeros(head, keep as int);
            assert(head.subrange(0, keep as int) =~= digits@.subrange(0, keep as int));
        }
        (first_digits(digits, keep), down, power)
    } else {
        let mut i: usize = count;
        while i > 0 && digits[i - 1] == '9'
            invariant
                i <= count < digits.len(),
                head == digits@.subrange(0, count as int),
                forall|j: int| i <= j < count ==> head[j] == '9',
            decreases i,
        {
            i -= 1;
        }
        if i == 0 {
            proof {
                lemma_bump_nines(head);
            }
            let mut one: Vec<char> = Vec::new();
            one.push('1');
            assert(one@ =~= seq!['1']);
            if down && power > 0 {
                if power == 1 {
                    (one, false, 0)
                } else {
                    (one, true, power - 1)
                }
            } else {
                (one, false, power + 1)
            }
        } else {
            let mut out = first_digits(digits, i - 1);
            out.push(raise_digit(digits[i - 1]));
            proof {
                lemma_bump(head, i - 1);
                let up = bump(head).0;
                lemma_strip_zeros(up, i as int);
                assert(head.subrange(0, i - 1) =~= digits@.subrange(0, i - 1));
                assert(up.subrange(0, i as int) =~= out@);
            }
            (out, down, power)
        }
    }
}

/// Whether a text reads back as a number.
fn reads_back(text: &String, bits: u64) -> (r: bool)
    ensures
        r == (decimal_value(text@) == Some(bits)),
{
    match read_decimal(text.as_str()) {
        Some(back) => back == bits,
        None => false,
    }
}

/// Writes a number as text.
#[verifier::loop_isolation(false)]
pub fn render_number(bits: u64) -> (r: String)
    ensures
        r@ == number_text(bits),
{
    if bits_is_nan(bits) {
        "NaN".to_string()
    } else if bits == INFINITY {
        "inf".to_string()
    } else if bits == NEG_INFINITY {
        "-inf".to_string()
    } else {
        let text = write_scientific(bits, FULL_DIGITS);
        let s = chars_of(text.as_str());
        match split_scientific(&s) {
            None => text,
            Some((negative, digits, down, power)) => {
                let ghost full = parts(negative, digits@, down, power);
                let mut count: usize = 1;
                while count <= MOST_DIGITS && count < digits.len()
                    invariant
                        1 <= count,
                        shortest(bits, full, 1) == shortest(bits, full, count as int),
                    decreases MOST_DIGITS + 1 - count,
                {
                    let up: bool = (digits[count] as u32) >= 53;
                    let near = round_to(negative, &digits, count, up, down, power);
                    let line = string_from_chars(lay_out_parts(negative, &near.0, near.1, near.2));
                    if reads_back(&line, bits) {
                        return line;
                    }
                    let far = round_to(negative, &digits, count, !up, down, power);
                    let line = string_from_chars(lay_out_parts(negative, &far.0, far.1, far.2));
                    if reads_back(&line, bits) {
                        return line;
                    }
                    count += 1;
                }
                string_from_chars(lay_out_parts(negative, &digits, down, power))
            },
        }
    }
}

} // verus!
