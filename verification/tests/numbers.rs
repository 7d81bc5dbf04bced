use astral_watch::double::{read_decimal, Number};
use astral_watch::number::{read_signed, read_unsigned, NumeralError};

fn chars(s: &str) -> Vec<char> {
    s.chars().collect()
}

fn num(x: f64) -> Number {
    Number::from_bits(x.to_bits())
}

fn val(n: Number) -> f64 {
    f64::from_bits(n.to_bits())
}

/// Bit patterns of all kinds, and numbers of everyday size.
fn samples() -> Vec<f64> {
    let mut v = vec![
        0.0,
        -0.0,
        1.0,
        -1.0,
        0.1,
        0.2,
        0.3,
        1.5,
        8.35,
        9.2,
        10.0 / 3.0,
        1e21,
        1e22,
        1e23,
        123456789012345680000.0,
        9007199254740991.0,
        9007199254740992.0,
        9007199254740993.0,
        1e-7,
        5e-324,
        2.2250738585072014e-308,
        2.225073858507201e-308,
        f64::MAX,
        f64::MIN_POSITIVE,
        f64::EPSILON,
        f64::INFINITY,
        f64::NEG_INFINITY,
    ];
    let mut seed: u64 = 0x1234_5678_9abc_def1;
    for i in 0..400 {
        seed = seed
            .wrapping_mul(6_364_136_223_846_793_005)
            .wrapping_add(1_442_695_040_888_963_407);
        let mixed = seed ^ (seed >> 31);
        if i % 3 == 0 {
            let x = f64::from_bits(mixed);
            if !x.is_nan() {
                v.push(x);
            }
        } else if i % 3 == 1 {
            v.push((mixed % 100_000) as f64 / 1000.0);
        } else {
            v.push((mixed % 1_000_000_007) as f64 / 977.0 - 300_000.0);
        }
    }
    v
}

#[test]
fn decimals_are_read_as_the_nearest_double() {
    let n = |s: &str| read_decimal(&chars(s));
    for s in [
        "320.36",
        "-0.5",
        "+7",
        ".25",
        "5.",
        "1.5e1",
        "15E-1",
        "0.0000000019",
        "0.1",
        "600.00",
        "1e23",
        "8.35",
        "9007199254740993",
        "9007199254740992.5000000000000000000000000000000000000001",
        "179769313486231570000e289",
        "2.2250738585072011e-308",
        "4.9e-324",
        "2.4703282292062327e-324",
        "2.4703282292062328e-324",
        "1e-400",
        "123456789012345678901234567890",
        "0.000000000000000000000000000000000000000000000000000000000000000000000000000000001",
    ] {
        assert_eq!(n(s), Some(num(s.parse().unwrap())), "{s}");
    }
    assert_eq!(n("1e999"), Some(Number::PosInf));
    assert_eq!(n("-1e309"), Some(Number::NegInf));
    assert_eq!(n("1e-999999999999999999999"), Some(num(0.0)));
    assert_eq!(n("0e999999999999999999999"), Some(num(0.0)));
    assert_eq!(n("-0"), Some(num(-0.0)));
    assert_eq!(n("INF"), Some(Number::PosInf));
    assert_eq!(n("-infinity"), Some(Number::NegInf));
    assert_eq!(n("nan"), Some(Number::NotANumber));
    for bad in ["", ".", "-", "e5", "1e", "1e+", "1.2.3", "0x10", "1 ", "--1"] {
        assert_eq!(n(bad), None, "{bad}");
    }
}

#[test]
fn integers_are_read_within_their_bounds() {
    assert_eq!(read_signed(&chars("-2147483648")), Some(i32::MIN));
    assert_eq!(read_signed(&chars("-2147483649")), None);
    assert_eq!(read_signed(&chars("2147483648")), None);
    assert_eq!(read_signed(&chars("+69")), Some(69));
    assert_eq!(read_signed(&chars("-")), None);
    assert_eq!(
        read_unsigned(&chars(""), 10, 255),
        Err(NumeralError::Empty)
    );
    assert_eq!(
        read_unsigned(&chars("256"), 10, 255),
        Err(NumeralError::TooLarge)
    );
    assert_eq!(
        read_unsigned(&chars("+"), 10, 255),
        Err(NumeralError::InvalidDigit)
    );
    assert_eq!(read_unsigned(&chars("+fF"), 16, 255), Ok(255));
}

#[test]
fn bits_go_there_and_back() {
    for x in samples() {
        assert_eq!(num(x).to_bits(), x.to_bits(), "{x}");
    }
    assert_eq!(num(f64::NAN), Number::NotANumber);
    assert!(val(Number::NotANumber).is_nan());
}

#[test]
fn doubles_print_as_displayed() {
    assert_eq!(num(0.1).plus(num(0.2)).to_string(), "0.30000000000000004");
    assert_eq!(Number::ratio(10, 3).to_string(), "3.3333333333333335");
    assert_eq!(Number::thousandths(8_350).fixed(1), "8.3");
    assert_eq!(num(0.125).fixed(2), "0.12");
    assert_eq!(num(0.375).fixed(2), "0.38");
    assert_eq!(num(2.5).fixed(0), "2");
    assert_eq!(num(-1.6).fixed(0), "-2");
    assert_eq!(Number::NegInf.to_string(), "-inf");
    assert_eq!(Number::NotANumber.to_string(), "NaN");
    for x in samples() {
        assert_eq!(num(x).to_string(), format!("{x}"));
    }
}

#[test]
fn doubles_print_to_fixed_places() {
    for x in samples() {
        assert_eq!(num(x).fixed(0), format!("{x:.0}"), "{x}");
        assert_eq!(num(x).fixed(1), format!("{x:.1}"), "{x}");
        assert_eq!(num(x).fixed(2), format!("{x:.2}"), "{x}");
        assert_eq!(num(x).fixed(3), format!("{x:.3}"), "{x}");
    }
}

#[test]
fn printed_doubles_read_back() {
    for x in samples() {
        let s = num(x).to_string();
        assert_eq!(read_decimal(&chars(&s)), Some(num(x)), "{s}");
    }
}

#[test]
fn arithmetic_is_that_of_doubles() {
    let same = |n: Number, x: f64| {
        if x.is_nan() {
            n == Number::NotANumber
        } else {
            n.to_bits() == x.to_bits()
        }
    };
    let v = samples();
    for i in 0..v.len() {
        let (a, b) = (v[i], v[(i * 7 + 3) % v.len()]);
        let (m, n) = (num(a), num(b));
        assert!(same(m.plus(n), a + b), "{a} + {b}");
        assert!(same(m.minus(n), a - b), "{a} - {b}");
        assert!(same(m.times(n), a * b), "{a} * {b}");
        assert!(same(m.over(n), a / b), "{a} / {b}");
        assert!(same(m.minus(m), a - a), "{a} - {a}");
        assert_eq!(m.less(n), a < b, "{a} < {b}");
        assert_eq!(m.at_most(n), a <= b, "{a} <= {b}");
        assert_eq!(m.at_most(m), a <= a, "{a} <= {a}");
    }
    assert!(!Number::NotANumber.less(num(1.0)));
    assert!(!Number::NotANumber.at_most(Number::NotANumber));
}

#[test]
fn doubles_become_whole_numbers() {
    for x in samples() {
        assert_eq!(num(x).truncated(u64::MAX), x as u64, "{x}");
        assert_eq!(num(x).truncated(1_000), (x as u64).min(1_000), "{x}");
        assert_eq!(num(x).rounded_off(u64::MAX), x.round() as u64, "{x}");
    }
    assert_eq!(Number::NotANumber.truncated(9), 0);
    assert_eq!(num(2.5).rounded_off(9), 3);
    assert_eq!(num(-2.5).rounded_off(9), 0);
    assert_eq!(val(Number::whole(u128::MAX)), u128::MAX as f64);
    assert_eq!(val(Number::whole(9_007_199_254_740_993)), 9_007_199_254_740_992.0);
    assert!(num(5e-324).positive());
    assert!(!num(-0.0).positive());
}
