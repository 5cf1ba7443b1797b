use stacklang::error::Error;
use stacklang::numbers::{parse_usize, usize_to_string};
use stacklang::token::{Token, TokenType};

#[test]
fn parse_usize_reads_plain_digits() {
    assert_eq!(parse_usize("0"), Some(0));
    assert_eq!(parse_usize("7"), Some(7));
    assert_eq!(parse_usize("12345"), Some(12345));
}

#[test]
fn parse_usize_accepts_a_leading_plus_sign() {
    assert_eq!(parse_usize("+42"), Some(42));
}

#[test]
fn parse_usize_rejects_other_shapes() {
    assert_eq!(parse_usize(""), None);
    assert_eq!(parse_usize("+"), None);
    assert_eq!(parse_usize("1.5"), None);
    assert_eq!(parse_usize("-3"), None);
    assert_eq!(parse_usize("4x"), None);
    assert_eq!(parse_usize(" 4"), None);
}

#[test]
fn parse_usize_respects_the_machine_bound() {
    assert_eq!(parse_usize("18446744073709551615"), Some(usize::MAX));
    assert_eq!(parse_usize("18446744073709551616"), None);
}

#[test]
fn usize_to_string_prints_decimal_text() {
    assert_eq!(usize_to_string(0), "0");
    assert_eq!(usize_to_string(7), "7");
    assert_eq!(usize_to_string(10), "10");
    assert_eq!(usize_to_string(12345), "12345");
    assert_eq!(usize_to_string(usize::MAX), "18446744073709551615");
}

#[test]
fn decimal_text_round_trips_through_parsing() {
    for n in [0usize, 1, 9, 10, 99, 100, 4096, usize::MAX] {
        assert_eq!(parse_usize(&usize_to_string(n)), Some(n));
    }
}

#[test]
fn token_new_keeps_kind_and_payload() {
    let t = Token::new(TokenType::Int, String::from("3"));
    assert_eq!(t.token_type, TokenType::Int);
    assert_eq!(t.token_value, "3");
}

#[test]
fn error_new_keeps_name_and_description() {
    let e = Error::new("IllegalCharError", "Found an extra dot");
    assert_eq!(e.name, "IllegalCharError");
    assert_eq!(e.description, "Found an extra dot");
}
