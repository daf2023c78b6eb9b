// Packing digit sequences into bytes.

use am2302::binutils::convert;
use am2302::binutils::ConversionError;

#[test]
fn packs_alternating_digits() {
    let result = convert(&[1, 0, 1, 0, 1, 0, 1, 0]);
    assert_eq!(result, Ok(170));
}

#[test]
fn packs_empty_and_short_inputs() {
    assert_eq!(convert(&[]), Ok(0));
    assert_eq!(convert(&[1]), Ok(1));
    assert_eq!(convert(&[1, 1, 1]), Ok(7));
    assert_eq!(convert(&[1, 1, 1, 1, 1, 1, 1, 1]), Ok(255));
}

#[test]
fn nine_digits_overflow() {
    let result = convert(&[0, 0, 0, 0, 0, 0, 0, 0, 0]);
    assert_eq!(result, Err(ConversionError::Overflow));
}

#[test]
fn non_binary_digit_rejected() {
    let result = convert(&[0, 1, 2, 0, 0, 0, 0, 0]);
    assert_eq!(result, Err(ConversionError::NonBinaryInput));
}

#[test]
fn overflow_reported_before_digit_domain() {
    let result = convert(&[9, 9, 9, 9, 9, 9, 9, 9, 9]);
    assert_eq!(result, Err(ConversionError::Overflow));
}
