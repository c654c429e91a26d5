use exact_money::decimal::MAX_MANTISSA;
use exact_money::{Amount, MoneyError, MoneyUtil};

fn dec(text: &str) -> Amount {
    Amount::parse(text).unwrap()
}

fn check(amount: &str, min_scale: u32, max_scale: u32) -> Result<Amount, MoneyError> {
    MoneyUtil::check_amount_validation(dec(amount), min_scale, max_scale)
}

#[test]
fn test_amount_validation_integer_with_unit_one() {
    let output = check("10", 2, 0).unwrap();
    assert_eq!(output, dec("10"));
    assert_eq!(output.to_string(), "10.00");
}

#[test]
fn test_amount_validation_integer_is_padded() {
    let output = check("10", 2, 2).unwrap();
    assert_eq!(output, dec("10.00"));
    assert_eq!(output.to_string(), "10.00");
}

#[test]
fn test_amount_validation_one_digit_stays() {
    let output = check("10.0", 1, 1).unwrap();
    assert_eq!(output, dec("10.0"));
    assert_eq!(output.to_string(), "10.0");
}

#[test]
fn test_amount_validation_zeros_are_cut_to_minimum() {
    let output = check("10.000", 2, 2).unwrap();
    assert_eq!(output, dec("10.00"));
    assert_eq!(output.to_string(), "10.00");
}

#[test]
fn test_amount_validation_full_precision_stays() {
    let output = check("1.0000012345", 2, 10).unwrap();
    assert_eq!(output, dec("1.0000012345"));
    assert_eq!(output.to_string(), "1.0000012345");
}

#[test]
fn test_amount_validation_trailing_zero_is_stripped() {
    let output = check("1.012345010", 2, 10).unwrap();
    assert_eq!(output, dec("1.01234501"));
    assert_eq!(output.to_string(), "1.01234501");
}

#[test]
fn test_amount_validation_throwing_errors_two_digits_for_one() {
    let output = check("10.55", 2, 1);
    assert!(output.is_err());
    assert!(matches!(output, Err(MoneyError::InvalidAmountError(_))));
}

#[test]
fn test_amount_validation_throwing_errors_five_digits_for_three() {
    let output = check("10.12345", 2, 3);
    assert!(output.is_err());
    assert!(matches!(output, Err(MoneyError::InvalidAmountError(_))));
}

#[test]
fn error_names_the_amount_and_the_unit() {
    match check("10.55", 2, 1) {
        Err(MoneyError::InvalidAmountError(msg)) => {
            assert_eq!(msg, "Incorrect scale. Amount 10.55 is not a factor of 0.1.");
        }
        other => panic!("unexpected result {:?}", other),
    }
    match check("-10.12345", 2, 3) {
        Err(MoneyError::InvalidAmountError(msg)) => {
            assert_eq!(msg, "Incorrect scale. Amount -10.12345 is not a factor of 0.001.");
        }
        other => panic!("unexpected result {:?}", other),
    }
}

#[test]
fn divisible_amount_passes_the_remainder_test() {
    assert_eq!(check("10.5", 1, 1).unwrap().to_string(), "10.5");
    assert_eq!(check("10.50", 1, 1).unwrap().to_string(), "10.5");
    assert_eq!(check("10.123", 2, 3).unwrap().to_string(), "10.123");
}

#[test]
fn trailing_zeros_beyond_max_scale_are_no_precision() {
    assert_eq!(check("10.20000", 2, 2).unwrap().to_string(), "10.20");
    assert_eq!(check("10.5000", 0, 1).unwrap().to_string(), "10.5");
}

#[test]
fn negative_amounts_are_judged_like_positive_ones() {
    assert_eq!(check("-10.20000", 2, 2).unwrap().to_string(), "-10.20");
    assert_eq!(check("-10", 2, 2).unwrap().to_string(), "-10.00");
    assert!(matches!(check("-10.555", 2, 2), Err(MoneyError::InvalidAmountError(_))));
    assert!(matches!(check("-0.001", 2, 2), Err(MoneyError::InvalidAmountError(_))));
}

#[test]
fn zero_is_valid_and_padded() {
    assert_eq!(check("0", 2, 2).unwrap().to_string(), "0.00");
    assert_eq!(check("0.00000", 2, 2).unwrap().to_string(), "0.00");
    assert_eq!(check("0.000", 0, 0).unwrap().to_string(), "0");
    assert_eq!(check("-0.0", 3, 10).unwrap().to_string(), "0.000");
}

#[test]
fn integers_are_valid_at_max_scale_zero() {
    assert_eq!(check("42", 0, 0).unwrap().to_string(), "42");
    assert_eq!(check("42.000", 0, 0).unwrap().to_string(), "42");
    assert!(matches!(check("42.1", 0, 0), Err(MoneyError::InvalidAmountError(_))));
}

#[test]
fn scale_between_the_bounds_is_kept() {
    assert_eq!(check("1.234", 2, 10).unwrap().to_string(), "1.234");
    assert_eq!(check("1.2", 2, 10).unwrap().to_string(), "1.20");
    assert_eq!(check("1.2345678901", 2, 10).unwrap().to_string(), "1.2345678901");
    assert!(matches!(check("1.23456789012", 2, 10), Err(MoneyError::InvalidAmountError(_))));
}

#[test]
fn validating_twice_changes_nothing() {
    for (text, min_scale, max_scale) in
        [("10", 2, 2), ("10.20000", 2, 10), ("-1.230010", 2, 10), ("0", 2, 2), ("7.5", 0, 1)]
    {
        let once = check(text, min_scale, max_scale).unwrap();
        let twice = MoneyUtil::check_amount_validation(once, min_scale, max_scale).unwrap();
        assert_eq!(twice.mantissa(), once.mantissa());
        assert_eq!(twice.scale(), once.scale());
    }
}

#[test]
fn unit_finer_than_the_representation_divides_everything() {
    assert_eq!(check("1.5", 0, 29).unwrap().to_string(), "1.5");
    assert_eq!(check("1.5", 2, u32::MAX).unwrap().to_string(), "1.50");
    let finest = Amount::new(1, 28).unwrap();
    let output = MoneyUtil::check_amount_validation(finest, 0, 40).unwrap();
    assert_eq!(output.mantissa(), 1);
    assert_eq!(output.scale(), 28);
}

#[test]
fn finest_unit_is_still_checked() {
    let finest = Amount::new(1, 28).unwrap();
    assert!(MoneyUtil::check_amount_validation(finest, 0, 28).is_ok());
    assert!(matches!(
        MoneyUtil::check_amount_validation(finest, 0, 27),
        Err(MoneyError::InvalidAmountError(_))
    ));
}

#[test]
fn minimum_scale_over_the_representation_is_an_error() {
    match check("1.5", 29, 29) {
        Err(MoneyError::InternalError(msg)) => {
            assert_eq!(msg, "Amount 1.5 cannot be padded to the required scale.");
        }
        other => panic!("unexpected result {:?}", other),
    }
}

#[test]
fn mantissa_too_large_to_pad_is_an_error() {
    let largest = Amount::new(MAX_MANTISSA, 0).unwrap();
    match MoneyUtil::check_amount_validation(largest, 2, 2) {
        Err(MoneyError::InternalError(msg)) => {
            assert_eq!(
                msg,
                "Amount 79228162514264337593543950335 cannot be padded to the required scale."
            );
        }
        other => panic!("unexpected result {:?}", other),
    }
    assert!(MoneyUtil::check_amount_validation(largest, 0, 2).is_ok());
}

#[test]
fn padding_goes_as_far_as_the_mantissa_allows() {
    // 7922816251426433759354395033 * 10 still fits 96 bits, * 100 does not.
    let a = Amount::new(7_922_816_251_426_433_759_354_395_033, 0).unwrap();
    let one = MoneyUtil::check_amount_validation(a, 1, 1).unwrap();
    assert_eq!(one.mantissa(), 79_228_162_514_264_337_593_543_950_330);
    assert_eq!(one.scale(), 1);
    assert!(matches!(
        MoneyUtil::check_amount_validation(a, 2, 2),
        Err(MoneyError::InternalError(_))
    ));
}

#[test]
fn large_amounts_with_many_digits_are_divided_exactly() {
    let a = Amount::new(MAX_MANTISSA, 28).unwrap();
    assert!(matches!(
        MoneyUtil::check_amount_validation(a, 2, 10),
        Err(MoneyError::InvalidAmountError(_))
    ));
    let b = Amount::new(79_228_162_514_000_000_000_000_000_000, 28).unwrap();
    let output = MoneyUtil::check_amount_validation(b, 2, 10).unwrap();
    assert_eq!(output.mantissa(), 79_228_162_514);
    assert_eq!(output.scale(), 10);
    let c = Amount::new(-79_228_162_514_000_000_000_000_000_000, 28).unwrap();
    let output = MoneyUtil::check_amount_validation(c, 2, 10).unwrap();
    assert_eq!(output.mantissa(), -79_228_162_514);
    assert_eq!(output.scale(), 10);
}
