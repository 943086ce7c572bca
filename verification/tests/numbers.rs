use risp::decimal::render_number;
use risp::number::{
    bits_eq, bits_is_nan, bits_is_zero, bits_le, bits_lt, bits_to_index, parse_number,
};
use risp::primitives::apply_primitive;
use risp::risp_type::{Primitive, RispExp};

fn num(x: f64) -> RispExp {
    RispExp::Number(x.to_bits())
}

fn apply(p: Primitive, xs: &[f64]) -> RispExp {
    let args: Vec<RispExp> = xs.iter().map(|x| num(*x)).collect();
    apply_primitive(p, &args).unwrap()
}

const SAMPLES: [f64; 14] = [
    0.0,
    -0.0,
    1.0,
    -1.0,
    0.1,
    0.2,
    3.5,
    -7.25,
    1e-310,
    1e300,
    -1e300,
    123456789.125,
    f64::MAX,
    f64::MIN_POSITIVE,
];

#[test]
fn addition_is_ieee_addition() {
    for a in SAMPLES {
        for b in SAMPLES {
            assert_eq!(apply(Primitive::Add, &[a, b]), num(a + b), "{} + {}", a, b);
        }
    }
    assert_eq!(apply(Primitive::Add, &[1.0, 2.0]), num(3.0));
}

#[test]
fn subtraction_is_ieee_subtraction() {
    for a in SAMPLES {
        for b in SAMPLES {
            assert_eq!(apply(Primitive::Subtract, &[a, b]), num(a - b), "{} - {}", a, b);
        }
    }
    assert_eq!(apply(Primitive::Subtract, &[5.0, 3.0]), num(2.0));
}

#[test]
fn multiplication_is_ieee_multiplication() {
    for a in SAMPLES {
        for b in SAMPLES {
            assert_eq!(apply(Primitive::Multiply, &[a, b]), num(a * b), "{} * {}", a, b);
        }
    }
    assert_eq!(apply(Primitive::Multiply, &[2.0, 3.0]), num(6.0));
}

#[test]
fn division_is_ieee_division() {
    for a in SAMPLES {
        if a == 0.0 {
            continue;
        }
        for b in SAMPLES {
            if b == 0.0 {
                continue;
            }
            assert_eq!(apply(Primitive::Divide, &[a, b]), num(a / b), "{} / {}", a, b);
        }
    }
    assert_eq!(apply(Primitive::Divide, &[6.0, 3.0]), num(2.0));
    assert_eq!(apply(Primitive::Divide, &[1.0, 0.0]), num(f64::INFINITY));
    assert_eq!(apply(Primitive::Divide, &[-1.0, 0.0]), num(f64::NEG_INFINITY));
}

#[test]
fn arithmetic_folds_from_the_left() {
    assert_eq!(apply(Primitive::Subtract, &[10.0, 1.0, 2.0, 3.0]), num(4.0));
    assert_eq!(apply(Primitive::Divide, &[64.0, 2.0, 4.0]), num(8.0));
    assert_eq!(apply(Primitive::Add, &[0.1, 0.2, 0.3]), num((0.1 + 0.2) + 0.3));
    assert_eq!(apply(Primitive::Multiply, &[1.5]), num(1.5));
    assert_eq!(apply(Primitive::Add, &[7.0]), num(7.0));
}

#[test]
fn decimal_numerals_are_read_as_the_nearest_double() {
    let texts = [
        "0", "1", "-1", "+1", "6", "25", "1.5", "-3.25", ".5", "5.", "0.1", "0.2", "1e5", "1E5",
        "1e-5", "1.5e+3", "-2.5E-3", "123456789.125", "1e400", "-1e400", "1e-400", "4.9e-324",
        "1.7976931348623157e308", "0.30000000000000004", "9007199254740993",
        "2.2250738585072011e-308", "-0", "-0.0", "007", "1e0",
    ];
    for text in texts {
        let expected: f64 = text.parse().unwrap();
        assert_eq!(parse_number(text), Some(expected.to_bits()), "{}", text);
    }
}

#[test]
fn named_numerals_are_read_in_any_case() {
    assert_eq!(parse_number("inf"), Some(f64::INFINITY.to_bits()));
    assert_eq!(parse_number("+inf"), Some(f64::INFINITY.to_bits()));
    assert_eq!(parse_number("-inf"), Some(f64::NEG_INFINITY.to_bits()));
    assert_eq!(parse_number("Infinity"), Some(f64::INFINITY.to_bits()));
    assert_eq!(parse_number("-INFINITY"), Some(f64::NEG_INFINITY.to_bits()));
    assert!(bits_is_nan(parse_number("nan").unwrap()));
    assert!(bits_is_nan(parse_number("NaN").unwrap()));
    assert!(bits_is_nan(parse_number("-nan").unwrap()));
    assert_eq!(parse_number("nan"), Some(0x7FF8_0000_0000_0000));
    assert_eq!(parse_number("-nan"), Some(0xFFF8_0000_0000_0000));
}

#[test]
fn other_tokens_are_no_numbers() {
    let texts = [
        "", "+", "-", ".", "e5", "1e", "1e+", "1.2.3", "abc", "1a", "0x10", "1_000", "--1",
        "+-1", "1 ", "in", "infinit", "nane", "1e5.0", "x", "(", "\"1\"", "1f", "٣",
    ];
    for text in texts {
        let expected: Result<f64, _> = text.parse::<f64>();
        assert!(expected.is_err(), "{}", text);
        assert_eq!(parse_number(text), None, "{}", text);
    }
}

#[test]
fn order_follows_ieee() {
    let values = [
        f64::NEG_INFINITY,
        -1e300,
        -1.0,
        -0.0,
        0.0,
        5e-324,
        1.0,
        1.5,
        1e300,
        f64::INFINITY,
        f64::NAN,
    ];
    for a in values {
        for b in values {
            assert_eq!(bits_lt(a.to_bits(), b.to_bits()), a < b, "{} < {}", a, b);
            assert_eq!(bits_le(a.to_bits(), b.to_bits()), a <= b, "{} <= {}", a, b);
            assert_eq!(bits_eq(a.to_bits(), b.to_bits()), a == b, "{} == {}", a, b);
        }
    }
}

#[test]
fn zero_and_nan_tests() {
    assert!(bits_is_zero(0.0f64.to_bits()));
    assert!(bits_is_zero((-0.0f64).to_bits()));
    assert!(!bits_is_zero(5e-324f64.to_bits()));
    assert!(!bits_is_zero(f64::NAN.to_bits()));
    assert!(bits_is_nan(f64::NAN.to_bits()));
    assert!(bits_is_nan(0x7FF0_0000_0000_0001));
    assert!(!bits_is_nan(f64::INFINITY.to_bits()));
    assert!(!bits_is_nan(f64::NEG_INFINITY.to_bits()));
    assert!(!bits_is_nan(1.0f64.to_bits()));
}

#[test]
fn truncation_to_an_index() {
    let values = [
        0.0,
        -0.0,
        0.5,
        0.999,
        1.0,
        1.5,
        2.9,
        3.0,
        -1.0,
        -0.5,
        1e10,
        4503599627370496.0,
        4503599627370497.0,
        9007199254740992.0,
        1e18,
        9.2e18,
        1.8e19,
        1e300,
        f64::INFINITY,
        f64::NEG_INFINITY,
        f64::NAN,
        5e-324,
    ];
    for v in values {
        assert_eq!(bits_to_index(v.to_bits()), v as usize, "{}", v);
    }
    assert_eq!(bits_to_index(2.9f64.to_bits()), 2);
}

#[test]
fn numbers_are_written_in_decimal() {
    assert_eq!(render_number(6.0f64.to_bits()), "6");
    assert_eq!(render_number(25.0f64.to_bits()), "25");
    assert_eq!(render_number((-3.0f64).to_bits()), "-3");
    assert_eq!(render_number(2.5f64.to_bits()), "2.5");
    assert_eq!(render_number(0.0f64.to_bits()), "0");
    assert_eq!(render_number(f64::NAN.to_bits()), "NaN");
    assert_eq!(render_number(f64::INFINITY.to_bits()), "inf");
    assert_eq!(render_number(f64::NEG_INFINITY.to_bits()), "-inf");
}

#[test]
fn written_numbers_read_back() {
    for v in SAMPLES {
        let text = render_number(v.to_bits());
        let back: f64 = text.to_lowercase().parse().unwrap();
        assert_eq!(back.to_bits(), v.to_bits(), "{}", text);
    }
}

struct Patterns(u64);

impl Patterns {
    fn next(&mut self) -> u64 {
        self.0 = self.0.wrapping_mul(6364136223846793005).wrapping_add(1442695040888963407);
        let mut x = self.0;
        x ^= x >> 33;
        x = x.wrapping_mul(0xff51afd7ed558ccd);
        x ^= x >> 33;
        x
    }

    fn near(&mut self) -> u64 {
        let x = self.next();
        let exponent = 1023 - 60 + (x >> 58) * 2;
        (x & 0x800F_FFFF_FFFF_FFFF) | (exponent << 52)
    }
}

fn same_number(got: &RispExp, expected: f64) -> bool {
    match got {
        RispExp::Number(bits) => {
            if expected.is_nan() {
                bits_is_nan(*bits)
            } else {
                *bits == expected.to_bits()
            }
        }
        _ => false,
    }
}

#[test]
fn arithmetic_agrees_with_the_machine_on_many_patterns() {
    let mut p = Patterns(7);
    for round in 0..4000 {
        let (a, b) = if round % 2 == 0 { (p.next(), p.next()) } else { (p.near(), p.near()) };
        let (x, y) = (f64::from_bits(a), f64::from_bits(b));
        let args = [RispExp::Number(a), RispExp::Number(b)];
        assert!(same_number(&apply_primitive(Primitive::Add, &args).unwrap(), x + y), "{:x} + {:x}", a, b);
        assert!(same_number(&apply_primitive(Primitive::Subtract, &args).unwrap(), x - y), "{:x} - {:x}", a, b);
        assert!(same_number(&apply_primitive(Primitive::Multiply, &args).unwrap(), x * y), "{:x} * {:x}", a, b);
        if x != 0.0 {
            assert!(same_number(&apply_primitive(Primitive::Divide, &args).unwrap(), x / y), "{:x} / {:x}", a, b);
        }
    }
}

#[test]
fn order_and_truncation_agree_with_the_machine_on_many_patterns() {
    let mut p = Patterns(11);
    for round in 0..4000 {
        let (a, b) = if round % 2 == 0 { (p.next(), p.next()) } else { (p.near(), p.near()) };
        let (x, y) = (f64::from_bits(a), f64::from_bits(b));
        assert_eq!(bits_lt(a, b), x < y);
        assert_eq!(bits_le(a, b), x <= y);
        assert_eq!(bits_eq(a, b), x == y);
        assert_eq!(bits_eq(a, a), x == x);
        assert_eq!(bits_is_nan(a), x.is_nan());
        assert_eq!(bits_is_zero(a), x == 0.0);
        assert_eq!(bits_to_index(a), x as usize, "{:x}", a);
    }
}

#[test]
fn reading_agrees_with_the_machine_on_many_numerals() {
    let mut p = Patterns(13);
    for round in 0..1500 {
        let x = f64::from_bits(if round % 2 == 0 { p.next() } else { p.near() });
        if !x.is_finite() {
            continue;
        }
        for text in [format!("{}", x), format!("{:e}", x), format!("{:.3}", x), format!("{:E}", x)] {
            let expected: f64 = text.parse().unwrap();
            assert_eq!(parse_number(&text), Some(expected.to_bits()), "{}", text);
        }
    }
}

#[test]
fn writing_and_reading_give_the_number_back_on_many_patterns() {
    let mut p = Patterns(17);
    for round in 0..1500 {
        let a = if round % 2 == 0 { p.next() } else { p.near() };
        let text = render_number(a);
        if bits_is_nan(a) {
            assert_eq!(text, "NaN");
        } else {
            assert_eq!(parse_number(&text), Some(a), "{}", text);
        }
    }
}

#[test]
fn numbers_are_written_as_the_machine_writes_them() {
    let values = [
        0.0, -0.0, 0.1, 0.2, 0.5, 1.5, 3.14, -3.14, 1e21, 1e17, 1e16, 1e15, 1e-5, 1e-3, 0.001234,
        1500.0, 100.0, 10.0, 2.5e-10, 1.0 / 3.0, 2.0 / 3.0, 0.30000000000000004, 123456789012345680.0,
        9007199254740992.0, 9007199254740993.0, 4503599627370496.5, 1e22, 1e23, 1e100, 1e300, 1e-300,
        f64::MAX, f64::MIN, f64::MIN_POSITIVE, 5e-324, -5e-324, 1.7976931348623157e308,
        2.2250738585072014e-308, 2.225073858507201e-308, 6.02214076e23, 299792458.0, 1e-7, 123.456,
        0.000001, 0.0000001, 1234567.0, 12345678.9, 0.1 + 0.2, 100.0 / 3.0, 5e-5, 7.0e-10,
    ];
    for v in values {
        assert_eq!(render_number(v.to_bits()), format!("{}", v), "{:e}", v);
    }
    for v in SAMPLES {
        assert_eq!(render_number(v.to_bits()), format!("{}", v), "{:e}", v);
    }
}

fn digit_count(text: &str) -> usize {
    let digits: String = text.chars().filter(|c| c.is_ascii_digit()).collect();
    let trimmed = digits.trim_start_matches('0').trim_end_matches('0');
    trimmed.len().max(1)
}

fn written_alike(bits: u64) {
    let v = f64::from_bits(bits);
    if !v.is_finite() {
        return;
    }
    let text = render_number(bits);
    let native = format!("{}", v);
    assert!(text.chars().all(|c| c.is_ascii_digit() || c == '.' || c == '-'), "{}", text);
    assert_eq!(text.parse::<f64>().unwrap().to_bits(), bits, "{}", text);
    assert!(digit_count(&text) <= 17, "{}", text);
    assert_eq!(text, native);
}

#[test]
fn powers_of_ten_are_written_as_the_machine_writes_them() {
    for e in -323..=308 {
        let v: f64 = format!("1e{}", e).parse().unwrap();
        written_alike(v.to_bits());
        let w: f64 = format!("-7.25e{}", e).parse().unwrap();
        written_alike(w.to_bits());
    }
    for e in -5..=22 {
        let v: f64 = format!("1e{}", e).parse().unwrap();
        assert_eq!(render_number(v.to_bits()), format!("{}", v), "1e{}", e);
    }
}

#[test]
fn many_patterns_are_written_as_the_machine_writes_them() {
    let mut p = Patterns(23);
    for round in 0..20000 {
        let a = if round % 2 == 0 { p.next() } else { p.near() };
        if !bits_is_nan(a) && f64::from_bits(a).is_finite() {
            written_alike(a);
        }
    }
}

#[test]
fn whole_numbers_are_written_without_a_point() {
    let mut p = Patterns(29);
    for _ in 0..2000 {
        let n = (p.next() >> 11) as f64;
        assert_eq!(render_number(n.to_bits()), format!("{}", n));
        let m = -((p.next() >> 40) as f64);
        assert_eq!(render_number(m.to_bits()), format!("{}", m));
    }
}


#[test]
fn powers_of_two_are_written_as_the_machine_writes_them() {
    for e in 0..2047u64 {
        written_alike(e << 52);
        written_alike((e << 52) | 1);
        written_alike((e << 52) | 0x000F_FFFF_FFFF_FFFF);
        written_alike((e << 52) | 0x8000_0000_0000_0000);
    }
    for shift in 0..52 {
        written_alike(1u64 << shift);
        written_alike((1u64 << shift) - 1);
        written_alike((1u64 << shift) + 1);
    }
}
