use exact_money::decimal::{MAX_MANTISSA, MAX_SCALE};
use exact_money::text::str_equals;
use exact_money::{Amount, MoneyError};

fn dec(text: &str) -> Amount {
    Amount::parse(text).unwrap()
}

#[test]
fn new_keeps_mantissa_and_scale() {
    let a = Amount::new(-12345, 3).unwrap();
    assert_eq!(a.mantissa(), -12345);
    assert_eq!(a.scale(), 3);
    assert_eq!(a.to_string(), "-12.345");
}

#[test]
fn new_accepts_the_bounds() {
    assert!(Amount::new(MAX_MANTISSA, MAX_SCALE).is_some());
    assert!(Amount::new(-MAX_MANTISSA, 0).is_some());
    assert_eq!(MAX_MANTISSA, (1i128 << 96) - 1);
    assert_eq!(MAX_SCALE, 28);
}

#[test]
fn new_refuses_a_scale_over_the_maximum() {
    assert!(Amount::new(1, 29).is_none());
    assert!(Amount::new(0, u32::MAX).is_none());
}

#[test]
fn new_refuses_a_mantissa_over_96_bits() {
    assert!(Amount::new(MAX_MANTISSA + 1, 0).is_none());
    assert!(Amount::new(-MAX_MANTISSA - 1, 0).is_none());
    assert!(Amount::new(i128::MAX, 0).is_none());
    assert!(Amount::new(i128::MIN, 0).is_none());
}

#[test]
fn parse_reads_mantissa_and_scale() {
    let a = dec("1.230010");
    assert_eq!(a.mantissa(), 1230010);
    assert_eq!(a.scale(), 6);
    let b = dec("-10.20000");
    assert_eq!(b.mantissa(), -1020000);
    assert_eq!(b.scale(), 5);
    let c = dec("10");
    assert_eq!(c.mantissa(), 10);
    assert_eq!(c.scale(), 0);
}

#[test]
fn parse_refuses_what_is_no_decimal() {
    assert!(matches!(Amount::parse("abc"), Err(MoneyError::DecimalParseError(_))));
    assert!(matches!(Amount::parse(""), Err(MoneyError::DecimalParseError(_))));
    assert!(matches!(Amount::parse("1.2.3"), Err(MoneyError::DecimalParseError(_))));
}

#[test]
fn to_string_keeps_the_scale() {
    assert_eq!(Amount::new(123, 2).unwrap().to_string(), "1.23");
    assert_eq!(Amount::new(1230, 3).unwrap().to_string(), "1.230");
    assert_eq!(Amount::new(1000, 2).unwrap().to_string(), "10.00");
    assert_eq!(Amount::new(5, 3).unwrap().to_string(), "0.005");
    assert_eq!(Amount::new(-5, 1).unwrap().to_string(), "-0.5");
    assert_eq!(Amount::new(0, 2).unwrap().to_string(), "0.00");
    assert_eq!(Amount::new(7, 0).unwrap().to_string(), "7");
}

#[test]
fn text_round_trip_keeps_the_amount() {
    for text in ["0", "0.00", "1.5", "-1.50", "123456789.000000001", "-0.0000000001"] {
        let a = dec(text);
        assert_eq!(a.to_string(), text);
        let b = dec(&a.to_string());
        assert_eq!(b.mantissa(), a.mantissa());
        assert_eq!(b.scale(), a.scale());
    }
}

#[test]
fn equality_is_by_value() {
    assert_eq!(dec("1.0"), dec("1.00"));
    assert_eq!(dec("10"), dec("10.00"));
    assert_eq!(dec("0"), dec("0.000"));
    assert_eq!(dec("-2.50"), dec("-2.5"));
    assert_ne!(dec("1.0"), dec("1.01"));
    assert_ne!(dec("1"), dec("-1"));
    assert_ne!(dec("10"), dec("1.0"));
}

#[test]
fn is_zero_at_any_scale() {
    assert!(dec("0").is_zero());
    assert!(dec("0.000").is_zero());
    assert!(!dec("0.001").is_zero());
    assert!(!dec("-1").is_zero());
}

#[test]
fn abs_drops_the_sign_and_keeps_the_scale() {
    let a = dec("-3.140").abs();
    assert_eq!(a.mantissa(), 3140);
    assert_eq!(a.scale(), 3);
    let b = dec("3.140").abs();
    assert_eq!(b.mantissa(), 3140);
    assert_eq!(b.scale(), 3);
    assert_eq!(Amount::new(-MAX_MANTISSA, 0).unwrap().abs().mantissa(), MAX_MANTISSA);
}

#[test]
fn neg_flips_the_sign_and_keeps_the_scale() {
    let a = dec("-3.140").neg();
    assert_eq!(a.mantissa(), 3140);
    assert_eq!(a.scale(), 3);
    let b = dec("3.140").neg();
    assert_eq!(b.mantissa(), -3140);
    assert_eq!(b.scale(), 3);
    assert_eq!(dec("0.00").neg().to_string(), "0.00");
}

#[test]
fn str_equals_compares_characters() {
    assert!(str_equals("", ""));
    assert!(str_equals("EUR", "EUR"));
    assert!(!str_equals("EUR", "EUr"));
    assert!(!str_equals("EUR", "EU"));
    assert!(!str_equals("EU", "EUR"));
    assert!(str_equals("\u{20ac}1", "\u{20ac}1"));
    assert!(!str_equals("\u{20ac}1", "\u{20ac}2"));
}
