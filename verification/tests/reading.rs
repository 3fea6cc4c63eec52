use all_smi::numeral::parse_reading;
use all_smi::reading::Reading;

fn num(x: f64) -> Reading {
    Reading { bits: x.to_bits() }
}

fn same(r: Reading, x: f64) -> bool {
    r.bits == x.to_bits() || (x.is_nan() && r.is_nan())
}

/// Numbers of every size, and pairs that round in either direction.
fn samples() -> Vec<f64> {
    let mut all = vec![
        0.0,
        -0.0,
        1.0,
        -1.0,
        0.1,
        0.2,
        0.3,
        1.5,
        2.5,
        -2.5,
        99.95,
        1e-3,
        1e300,
        -1e300,
        1e-300,
        5e-324,
        2.2250738585072014e-308,
        2.225073858507201e-308,
        1.7976931348623157e308,
        4503599627370497.5,
        9007199254740993.0,
        9007199254740991.0,
        18446744073709551615.0,
        f64::INFINITY,
        f64::NEG_INFINITY,
        f64::NAN,
        f64::EPSILON,
        1.0 + f64::EPSILON,
        1.0 - f64::EPSILON / 2.0,
    ];
    // A fixed sequence over all bit patterns.
    let mut x: u64 = 0x9e37_79b9_7f4a_7c15;
    for _ in 0..60 {
        x ^= x << 13;
        x ^= x >> 7;
        x ^= x << 17;
        all.push(f64::from_bits(x));
    }
    all
}

#[test]
fn arithmetic_agrees_with_the_machine() {
    for a in samples() {
        for b in samples() {
            assert!(same(num(a).plus(num(b)), a + b), "{a:e} + {b:e}");
            assert!(same(num(a).minus(num(b)), a - b), "{a:e} - {b:e}");
            assert!(same(num(a).times(num(b)), a * b), "{a:e} * {b:e}");
            assert!(same(num(a).over(num(b)), a / b), "{a:e} / {b:e}");
            assert_eq!(num(a).ge(num(b)), a >= b, "{a:e} >= {b:e}");
            assert_eq!(num(a).gt(num(b)), a > b, "{a:e} > {b:e}");
            assert_eq!(num(a).total_before(num(b)), a.total_cmp(&b).is_lt(), "{a:e} {b:e}");
        }
    }
}

#[test]
fn integers_convert_as_the_machine_does() {
    for n in [0u64, 1, 255, (1 << 53) - 1, (1 << 53) + 1, (1 << 54) + 2, u64::MAX - 1024, u64::MAX] {
        assert!(same(Reading::from_u64(n), n as f64), "{n}");
        assert!(same(Reading::from_i64(n as i64), n as i64 as f64), "{n}");
    }
    assert!(same(Reading::from_i64(i64::MIN), i64::MIN as f64));
    for x in samples() {
        assert_eq!(num(x).truncated(u64::MAX), x as u64, "{x:e}");
        assert_eq!(num(x).truncated(u32::MAX as u64), (x as u32) as u64, "{x:e}");
        assert_eq!(num(x).rounded(u64::MAX), x.round() as u64, "{x:e}");
    }
}

#[test]
fn readings_are_written_as_the_machine_writes_them() {
    for x in samples() {
        assert_eq!(num(x).fixed_text(0), format!("{x:.0}"));
        assert_eq!(num(x).fixed_text(1), format!("{x:.1}"));
        assert_eq!(num(x).fixed_text(2), format!("{x:.2}"));
        assert_eq!(num(x).fixed_text(3), format!("{x:.3}"));
    }
    assert_eq!(num(0.125).fixed_text(2), "0.12");
    assert_eq!(num(0.375).fixed_text(2), "0.38");
}

#[test]
fn numbers_are_told_from_what_is_none() {
    for x in samples() {
        assert_eq!(num(x).is_finite(), x.is_finite());
        assert_eq!(num(x).is_nan(), x.is_nan());
    }
}

#[test]
fn narrowing_agrees_with_the_machine() {
    let mut all = samples();
    let mut x: u64 = 0x2545_f491_4f6c_dd1d;
    for _ in 0..4000 {
        x ^= x << 13;
        x ^= x >> 7;
        x ^= x << 17;
        // Exponents about those of single precision.
        let exponent = 0x380 + (x >> 52) % 0x110;
        all.push(f64::from_bits((x & 0x800f_ffff_ffff_ffff) | (exponent << 52)));
        // Halves between two neighbours.
        all.push(f64::from_bits((x & 0x800f_ffff_e000_0000) | (exponent << 52) | 0x1000_0000));
    }
    for x in all {
        assert!(same(num(x).narrow(), f64::from(x as f32)), "{x:e}");
    }
    for n in [0u64, 1, 16_777_215, 16_777_217, 16_777_219, (1 << 60) + (1 << 36) + 1, u64::MAX] {
        assert!(same(Reading::single_from(n), f64::from(n as f32)), "{n}");
    }
}

#[test]
fn numerals_read_as_the_machine_reads_them() {
    let mut texts: Vec<String> = [
        "0", "-0", "600", "600.0", "300.5", "+1", "1.", ".5", "0.1", "1e3", "1E-3", "1e+22", "1e23",
        "9007199254740993", "9007199254740992.5", "9007199254740993.000000000000000000000001",
        "2.2250738585072011e-308", "2.2250738585072014e-308", "4.9406564584124654e-324",
        "2.4703282292062327e-324", "2.4703282292062328e-324", "1e-400", "1e-999999999999999999999",
        "1.7976931348623157e308", "1.7976931348623158e308", "1.7976931348623159e308", "1e309",
        "1e400", "1e999999999999999999999999999999", "-1e999", "inf", "-INF", "Infinity", "nan",
        "0e999999999999999999999999999999", "000000000000000000000000000123.4500", "0.000001",
        "179769313486231580793728971405303415079934132710037826936173778980444968292764750946649017977587207096330286416692887910946555547851940402630657488671505820681908902000708383676273854845817711531764475730270069855571366959622842914819860834936475292719074168444365510704342711559699508093042880",
    ]
    .iter()
    .map(|t| t.to_string())
    .collect();
    for x in samples() {
        texts.push(format!("{x:e}"));
        texts.push(format!("{x:.17e}"));
        texts.push(format!("{x}"));
    }
    for text in &texts {
        let expected: f64 = text.parse().unwrap();
        let read = parse_reading(text).unwrap();
        assert!(same(read, expected), "{text}");
    }
    for text in ["", "+", "-", ".", "e5", "1e", "1e+", "1.2.3", "1 ", " 1", "0x1", "1_0", "--1", "infinit", "1e5.0", "١"] {
        assert!(text.parse::<f64>().is_err(), "{text}");
        assert!(parse_reading(text).is_none(), "{text}");
    }
}
