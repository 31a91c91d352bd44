use jsonlog::{f64_to_str, itoa_base10, utoa_base10};

/// The shortest round-trip decimal text of a finite double; an empty
/// placeholder for the non-finite values, whose tokens the library picks
/// itself.
fn finite_text(v: f64) -> String {
    if v.is_finite() {
        let mut buffer = ryu::Buffer::new();
        buffer.format_finite(v).to_string()
    } else {
        String::new()
    }
}

#[test]
fn utoa_alg_() {
    assert_eq!(utoa_base10(0), "0");
    assert_eq!(utoa_base10(1), "1");
    assert_eq!(utoa_base10(2), "2");
    assert_eq!(utoa_base10(9), "9");
    assert_eq!(utoa_base10(10), "10");
    assert_eq!(utoa_base10(11), "11");
    assert_eq!(utoa_base10(12), "12");
    assert_eq!(utoa_base10(99), "99");
    assert_eq!(utoa_base10(100), "100");
    assert_eq!(utoa_base10(101), "101");
    assert_eq!(utoa_base10(u64::MAX), "18446744073709551615");
}

#[test]
fn itoa_alg_() {
    assert_eq!(itoa_base10(0), "0");
    assert_eq!(itoa_base10(1), "1");
    assert_eq!(itoa_base10(-1), "-1");
    assert_eq!(itoa_base10(-2), "-2");
    assert_eq!(itoa_base10(-9), "-9");
    assert_eq!(itoa_base10(-10), "-10");
    assert_eq!(itoa_base10(-11), "-11");
    assert_eq!(itoa_base10(-12), "-12");
    assert_eq!(itoa_base10(-99), "-99");
    assert_eq!(itoa_base10(-100), "-100");
    assert_eq!(itoa_base10(-101), "-101");
    assert_eq!(itoa_base10(i64::MAX), "9223372036854775807");
    assert_eq!(itoa_base10(i64::MIN + 1), "-9223372036854775807");
    assert_eq!(itoa_base10(i64::MIN), "-9223372036854775808");
}

#[test]
fn f64_to_str_() {
    assert_eq!(f64_to_str(0.0f64.to_bits(), finite_text(0.0)), "0.0");
    assert_eq!(f64_to_str(1.0f64.to_bits(), finite_text(1.0)), "1.0");
    assert_eq!(f64_to_str(2.0f64.to_bits(), finite_text(2.0)), "2.0");

    assert_eq!(f64_to_str(f64::NAN.to_bits(), finite_text(f64::NAN)), "\"Nan\"");
    assert_eq!(f64_to_str(f64::INFINITY.to_bits(), finite_text(f64::INFINITY)), "\"Infinity\"");
    assert_eq!(
        f64_to_str(f64::NEG_INFINITY.to_bits(), finite_text(f64::NEG_INFINITY)),
        "\"-Infinity\""
    );
}

#[test]
fn unsigned_decimal_parse_back() {
    for v in [0u64, 7, 10, 999, 1000000007, u64::MAX] {
        let s = utoa_base10(v);
        assert_eq!(s.parse::<u64>().unwrap(), v);
        if v != 0 {
            assert!(!s.starts_with('0'));
        }
    }
}

#[test]
fn signed_decimal_parse_back() {
    for v in [0i64, 1, -1, 42, -42, i64::MAX, i64::MIN + 1, i64::MIN] {
        let s = itoa_base10(v);
        assert_eq!(s.parse::<i64>().unwrap(), v);
    }
}

#[test]
fn float_decimal_round_trip() {
    for v in [
        0.0f64,
        -0.0,
        0.1,
        1.5,
        -2.25,
        3.141592653589793,
        1e300,
        -1e300,
        5e-324,
        f64::MAX,
        f64::MIN_POSITIVE,
    ] {
        let s = f64_to_str(v.to_bits(), finite_text(v));
        let parsed: f64 = s.parse().unwrap();
        assert_eq!(parsed.to_bits(), v.to_bits());
    }
}
