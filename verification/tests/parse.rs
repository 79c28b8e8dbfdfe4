use caesar_cipher::parse::{parse_shift, update_caesar};

#[test]
fn parses_plain_numbers() {
    assert_eq!(parse_shift("0"), Some(0));
    assert_eq!(parse_shift("3"), Some(3));
    assert_eq!(parse_shift("25"), Some(25));
    assert_eq!(parse_shift("255"), Some(255));
}

#[test]
fn parses_leading_zeros_and_plus_sign() {
    assert_eq!(parse_shift("007"), Some(7));
    assert_eq!(parse_shift("+7"), Some(7));
    assert_eq!(parse_shift("+000"), Some(0));
}

#[test]
fn rejects_non_numeric_input() {
    assert_eq!(parse_shift("abc"), None);
    assert_eq!(parse_shift("xyz"), None);
    assert_eq!(parse_shift("12a"), None);
    assert_eq!(parse_shift("1 2"), None);
    assert_eq!(parse_shift(" 5"), None);
}

#[test]
fn rejects_empty_and_bare_sign() {
    assert_eq!(parse_shift(""), None);
    assert_eq!(parse_shift("+"), None);
}

#[test]
fn rejects_negative_numbers() {
    assert_eq!(parse_shift("-5"), None);
    assert_eq!(parse_shift("-0"), None);
}

#[test]
fn rejects_overflowing_numbers() {
    assert_eq!(parse_shift("256"), None);
    assert_eq!(parse_shift("300"), None);
    assert_eq!(parse_shift("99999999999999999999"), None);
}

#[test]
fn valid_key_builds_normalized_cipher() {
    assert_eq!(update_caesar("3").shift(), 3);
    assert_eq!(update_caesar("29").shift(), 3);
    assert_eq!(update_caesar("255").shift(), 21);
}

#[test]
fn invalid_key_falls_back_to_identity() {
    assert_eq!(update_caesar("abc").shift(), 0);
    assert_eq!(update_caesar("-5").shift(), 0);
    assert_eq!(update_caesar("256").shift(), 0);
    assert_eq!(update_caesar("").shift(), 0);
}

#[test]
fn fallback_cipher_leaves_text_unchanged() {
    assert_eq!(update_caesar("-5").encrypt(String::from("Test")), "Test");
    assert_eq!(update_caesar("xyz").encrypt(String::from("Test")), "Test");
}
