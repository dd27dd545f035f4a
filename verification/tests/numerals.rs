use aiyokona::numeral::{digit_of, parse_decimal};

#[test]
fn digits_have_their_value() {
    assert_eq!(digit_of('0'), 0);
    assert_eq!(digit_of('1'), 1);
    assert_eq!(digit_of('7'), 7);
    assert_eq!(digit_of('9'), 9);
}

#[test]
fn numerals_are_read_in_base_ten() {
    assert_eq!(parse_decimal("0", 0, 1), Some(0));
    assert_eq!(parse_decimal("42", 0, 2), Some(42));
    assert_eq!(parse_decimal("1234567890", 0, 10), Some(1234567890));
    assert_eq!(parse_decimal("000123", 0, 6), Some(123));
}

#[test]
fn numerals_are_read_between_the_bounds() {
    assert_eq!(parse_decimal("ab123cd", 2, 5), Some(123));
    assert_eq!(parse_decimal("ab123cd", 3, 5), Some(23));
    assert_eq!(parse_decimal("ab123cd", 2, 3), Some(1));
    assert_eq!(parse_decimal("\u{e9}\u{e9}77", 2, 4), Some(77));
}

#[test]
fn empty_numeral_is_zero() {
    assert_eq!(parse_decimal("", 0, 0), Some(0));
    assert_eq!(parse_decimal("12", 1, 1), Some(0));
}

#[test]
fn numerals_up_to_the_largest() {
    assert_eq!(parse_decimal("9223372036854775807", 0, 19), Some(i64::MAX));
    assert_eq!(parse_decimal("9223372036854775806", 0, 19), Some(i64::MAX - 1));
    assert_eq!(parse_decimal("922337203685477580", 0, 18), Some(922337203685477580));
}

#[test]
fn numerals_above_the_largest() {
    assert_eq!(parse_decimal("9223372036854775808", 0, 19), None);
    assert_eq!(parse_decimal("9223372036854775810", 0, 19), None);
    assert_eq!(parse_decimal("10000000000000000000", 0, 20), None);
    assert_eq!(parse_decimal("92233720368547758070", 0, 20), None);
    assert_eq!(parse_decimal("99999999999999999999999999999999999999999", 0, 41), None);
}
