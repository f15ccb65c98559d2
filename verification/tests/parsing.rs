use uconv::UconvError;
use uconv::fixed::Fixed;
use uconv::text::parse_value;

#[test]
fn parses_whole_numbers() {
    assert_eq!(parse_value("1"), Ok(Fixed::from_scaled(false, 10_000_000)));
    assert_eq!(parse_value("343"), Ok(Fixed::from_scaled(false, 3_430_000_000)));
    assert_eq!(parse_value("0"), Ok(Fixed::from_scaled(false, 0)));
}

#[test]
fn parses_fractions() {
    assert_eq!(parse_value("343.5"), Ok(Fixed::from_scaled(false, 3_435_000_000)));
    assert_eq!(parse_value("0.0000001"), Ok(Fixed::from_scaled(false, 1)));
    assert_eq!(parse_value("6894.7572932"), Ok(Fixed::from_scaled(false, 68_947_572_932)));
}

#[test]
fn parses_negative_numbers() {
    assert_eq!(parse_value("-2.5"), Ok(Fixed::from_scaled(true, 25_000_000)));
    let zero = parse_value("-0").unwrap();
    assert_eq!(zero, Fixed::from_scaled(false, 0));
    assert!(!zero.is_negative());
}

#[test]
fn drops_digits_beyond_the_resolution() {
    assert_eq!(parse_value("12.34567891"), Ok(Fixed::from_scaled(false, 123_456_789)));
    assert_eq!(parse_value("12.345678999999"), Ok(Fixed::from_scaled(false, 123_456_789)));
}

#[test]
fn rejects_tokens_that_are_not_numbers() {
    assert_eq!(parse_value(""), Err(UconvError::InvalidNumber));
    assert_eq!(parse_value("abc"), Err(UconvError::InvalidNumber));
    assert_eq!(parse_value("-"), Err(UconvError::InvalidNumber));
    assert_eq!(parse_value("1."), Err(UconvError::InvalidNumber));
    assert_eq!(parse_value(".5"), Err(UconvError::InvalidNumber));
    assert_eq!(parse_value("1.2.3"), Err(UconvError::InvalidNumber));
    assert_eq!(parse_value("+1"), Err(UconvError::InvalidNumber));
    assert_eq!(parse_value("1e5"), Err(UconvError::InvalidNumber));
    assert_eq!(parse_value("1 "), Err(UconvError::InvalidNumber));
}

#[test]
fn rejects_values_that_do_not_fit() {
    assert_eq!(
        parse_value("99999999999999999999999"),
        Err(UconvError::TooLarge)
    );
    // u64::MAX scaled is 1844674407370.9551615: one step above is rejected.
    assert_eq!(
        parse_value("1844674407370.9551615"),
        Ok(Fixed::from_scaled(false, u64::MAX))
    );
    assert_eq!(parse_value("1844674407370.9551616"), Err(UconvError::TooLarge));
}

#[test]
fn invalid_wins_over_too_large() {
    assert_eq!(
        parse_value("99999999999999999999999x"),
        Err(UconvError::InvalidNumber)
    );
}
