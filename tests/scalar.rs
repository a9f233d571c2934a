use shy_scalar::binary64::{round_from_i64, truncate_to_i64};
use shy_scalar::decimal::integer_text;
use shy_scalar::scalar::{
    BOOLEAN_NOT_FLOAT, BOOLEAN_NOT_INTEGER, ERROR_NOT_BOOLEAN, ERROR_NOT_FLOAT, ERROR_NOT_INTEGER,
    ERROR_NOT_TEXT, NULL_NOT_BOOLEAN, NULL_NOT_FLOAT, NULL_NOT_INTEGER, PRECISION_LOSS,
    STRING_NOT_FLOAT, STRING_NOT_INTEGER,
};
use shy_scalar::ShyScalar;

fn text_truthy(s: &String) -> bool {
    s == "true"
}

fn float_text(bits: u64) -> String {
    f64::from_bits(bits).to_string()
}

fn rational(x: f64) -> ShyScalar {
    ShyScalar::Rational(x.to_bits())
}

#[test]
fn rational_with_fraction_loses_precision() {
    assert_eq!(rational(1.5).try_into_integer(), Err(PRECISION_LOSS));
    assert_eq!(rational(2.0).try_into_integer(), Ok(2));
}

#[test]
fn null_and_error_predicates() {
    assert!(!ShyScalar::Null.is_truthy(text_truthy));
    assert!(ShyScalar::Null.is_null());
    assert!(!ShyScalar::Error("x".to_string()).is_null());
    assert!(!ShyScalar::Error("true".to_string()).is_truthy(text_truthy));
    assert!(!ShyScalar::Integer(0).is_null());
}

#[test]
fn boolean_and_integer_conversions() {
    assert_eq!(ShyScalar::Boolean(true).try_into_integer(), Err(BOOLEAN_NOT_INTEGER));
    assert_eq!(ShyScalar::Integer(1).try_into_boolean(text_truthy), Ok(true));
    assert_eq!(ShyScalar::Integer(0).try_into_boolean(text_truthy), Ok(false));
}

#[test]
fn native_round_trips() {
    for i in [0i64, 1, -1, 42, i64::MAX, i64::MIN] {
        assert_eq!(ShyScalar::from(i).try_into_integer(), Ok(i));
    }
    for j in [0i32, -7, i32::MAX, i32::MIN] {
        assert_eq!(ShyScalar::from(j).try_into_integer(), Ok(j as i64));
    }
    for x in [0.0f64, -0.0, 1.5, -2.25, 1e300, f64::INFINITY, f64::MIN_POSITIVE] {
        let back = rational(x).try_into_rational().map(f64::from_bits);
        assert_eq!(back.map(f64::to_bits), Ok(x.to_bits()));
    }
    for b in [true, false] {
        assert_eq!(ShyScalar::from(b).try_into_boolean(text_truthy), Ok(b));
    }
    let s = String::from("some text");
    assert_eq!(ShyScalar::from(s.clone()).try_into_text(float_text), Ok(s));
    assert_eq!(ShyScalar::from("slice").try_into_text(float_text), Ok("slice".to_string()));
}

#[test]
fn text_conversions() {
    assert_eq!(ShyScalar::Null.try_into_text(float_text), Ok("null".to_string()));
    assert_eq!(ShyScalar::Boolean(false).try_into_text(float_text), Ok("false".to_string()));
    assert_eq!(ShyScalar::Boolean(true).try_into_text(float_text), Ok("true".to_string()));
    assert_eq!(ShyScalar::Error("x".to_string()).try_into_text(float_text), Err(ERROR_NOT_TEXT));
    assert_eq!(ShyScalar::Integer(-120).try_into_text(float_text), Ok("-120".to_string()));
    assert_eq!(rational(1.5).try_into_text(float_text), Ok("1.5".to_string()));
}

#[test]
fn equality_by_kind_and_payload() {
    assert_eq!(ShyScalar::from(1i64), ShyScalar::from(1i64));
    assert_eq!(ShyScalar::from(1i32), ShyScalar::from(1i64));
    assert_eq!(ShyScalar::from(true), ShyScalar::from(true));
    assert_eq!(ShyScalar::from("a"), ShyScalar::from("a".to_string()));
    assert_eq!(ShyScalar::Null, ShyScalar::Null);
    assert_eq!(rational(2.5), rational(2.5));
    assert_eq!(rational(0.0), rational(-0.0));
    assert_ne!(rational(f64::NAN), rational(f64::NAN));
    assert_ne!(ShyScalar::Integer(1), ShyScalar::String("1".to_string()));
    assert_ne!(ShyScalar::from(1i64), ShyScalar::from("1"));
    assert_ne!(ShyScalar::from("1"), ShyScalar::from("2"));
    assert_eq!(ShyScalar::from("1"), ShyScalar::from("1"));
    assert_ne!(ShyScalar::Integer(1), rational(1.0));
    assert_ne!(ShyScalar::String("e".to_string()), ShyScalar::Error("e".to_string()));
    assert_ne!(ShyScalar::Error("a".to_string()), ShyScalar::Error("b".to_string()));
    assert_eq!(ShyScalar::Error("a".to_string()).clone(), ShyScalar::Error("a".to_string()));
}

#[test]
fn truthiness_of_each_kind() {
    assert!(ShyScalar::Boolean(true).is_truthy(text_truthy));
    assert!(!ShyScalar::Boolean(false).is_truthy(text_truthy));
    assert!(ShyScalar::Integer(-3).is_truthy(text_truthy));
    assert!(!ShyScalar::Integer(0).is_truthy(text_truthy));
    assert!(rational(0.1).is_truthy(text_truthy));
    assert!(!rational(0.0).is_truthy(text_truthy));
    assert!(!rational(-0.0).is_truthy(text_truthy));
    assert!(rational(f64::NAN).is_truthy(text_truthy));
    assert!(ShyScalar::String("true".to_string()).is_truthy(text_truthy));
    assert!(!ShyScalar::String("nope".to_string()).is_truthy(text_truthy));
}

#[test]
fn every_failure_reason() {
    assert_eq!(ShyScalar::Null.try_into_boolean(text_truthy), Err(NULL_NOT_BOOLEAN));
    assert_eq!(ShyScalar::Error("x".to_string()).try_into_boolean(text_truthy), Err(ERROR_NOT_BOOLEAN));
    assert_eq!(ShyScalar::String("true".to_string()).try_into_boolean(text_truthy), Ok(true));
    assert_eq!(rational(3.0).try_into_boolean(text_truthy), Ok(true));
    assert_eq!(ShyScalar::Null.try_into_integer(), Err(NULL_NOT_INTEGER));
    assert_eq!(ShyScalar::String("1".to_string()).try_into_integer(), Err(STRING_NOT_INTEGER));
    assert_eq!(ShyScalar::Error("x".to_string()).try_into_integer(), Err(ERROR_NOT_INTEGER));
    assert_eq!(ShyScalar::Null.try_into_rational(), Err(NULL_NOT_FLOAT));
    assert_eq!(ShyScalar::Boolean(true).try_into_rational(), Err(BOOLEAN_NOT_FLOAT));
    assert_eq!(ShyScalar::String("1".to_string()).try_into_rational(), Err(STRING_NOT_FLOAT));
    assert_eq!(ShyScalar::Error("x".to_string()).try_into_rational(), Err(ERROR_NOT_FLOAT));
}

#[test]
fn rational_to_integer_edges() {
    assert_eq!(rational(-2.0).try_into_integer(), Ok(-2));
    assert_eq!(rational(-0.5).try_into_integer(), Err(PRECISION_LOSS));
    assert_eq!(rational(-0.0).try_into_integer(), Err(PRECISION_LOSS));
    assert_eq!(rational(1e300).try_into_integer(), Err(PRECISION_LOSS));
    assert_eq!(rational(f64::NAN).try_into_integer(), Err(PRECISION_LOSS));
    assert_eq!(rational(f64::NEG_INFINITY).try_into_integer(), Err(PRECISION_LOSS));
    assert_eq!(rational(9223372036854775808.0).try_into_integer(), Ok(i64::MAX));
    assert_eq!(rational(-9223372036854775808.0).try_into_integer(), Ok(i64::MIN));
    assert_eq!(rational(4503599627370497.0).try_into_integer(), Ok(4503599627370497));
}

#[test]
fn integer_to_rational_rounds_to_nearest_even() {
    assert_eq!(ShyScalar::Integer(3).try_into_rational(), Ok(3.0f64.to_bits()));
    assert_eq!(ShyScalar::Integer(9007199254740993).try_into_rational(), Ok(9007199254740992.0f64.to_bits()));
    assert_eq!(ShyScalar::Integer(9007199254740995).try_into_rational(), Ok(9007199254740996.0f64.to_bits()));
    assert_eq!(ShyScalar::Integer(i64::MAX).try_into_rational(), Ok(9223372036854775808.0f64.to_bits()));
    assert_eq!(ShyScalar::Integer(i64::MIN).try_into_rational(), Ok((-9223372036854775808.0f64).to_bits()));
}

#[test]
fn integer_through_rational_and_back() {
    for i in [0i64, 7, -7, 1 << 53, -(1 << 53), 1 << 60, i64::MAX, i64::MIN, 9007199254740993] {
        let bits = ShyScalar::Integer(i).try_into_rational().unwrap();
        let back = ShyScalar::Rational(bits).try_into_integer();
        assert_eq!(back.map(round_from_i64), Ok(bits));
        if i == 9007199254740993 {
            assert_eq!(back, Ok(9007199254740992));
        } else {
            assert_eq!(back, Ok(i));
        }
    }
}

#[test]
fn casts_agree_with_native_casts() {
    let mut x: u64 = 0x9E37_79B9_7F4A_7C15;
    for _ in 0..20000 {
        x ^= x << 13;
        x ^= x >> 7;
        x ^= x << 17;
        let i = x as i64 >> (x % 64);
        assert_eq!(round_from_i64(i), (i as f64).to_bits());
        assert_eq!(truncate_to_i64(x), f64::from_bits(x) as i64);
        let small = f64::from_bits(x).to_bits() % (1u64 << 62) + (1u64 << 62);
        assert_eq!(truncate_to_i64(small), f64::from_bits(small) as i64);
    }
    for i in [0i64, 1, -1, i64::MAX, i64::MIN, i64::MAX - 511, i64::MAX - 512, (1 << 53) + 1] {
        assert_eq!(round_from_i64(i), (i as f64).to_bits());
    }
}

#[test]
fn integer_text_in_decimal() {
    assert_eq!(integer_text(0), "0");
    assert_eq!(integer_text(9), "9");
    assert_eq!(integer_text(10), "10");
    assert_eq!(integer_text(-5), "-5");
    assert_eq!(integer_text(i64::MAX), i64::MAX.to_string());
    assert_eq!(integer_text(i64::MIN), i64::MIN.to_string());
}
