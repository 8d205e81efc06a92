use slm::text::{
    decimal_string, enclose, parse_decimal, push_decimal, push_repeated, run_end, substring,
    to_chars, CharClass,
};

#[test]
fn decimal_string_of_zero_is_one_digit() {
    assert_eq!(decimal_string(0), "0");
}

#[test]
fn decimal_string_has_no_leading_zero() {
    assert_eq!(decimal_string(7), "7");
    assert_eq!(decimal_string(10), "10");
    assert_eq!(decimal_string(1234567890), "1234567890");
}

#[test]
fn decimal_string_of_the_largest_values() {
    assert_eq!(decimal_string(u64::MAX as u128), "18446744073709551615");
    assert_eq!(decimal_string(u128::MAX), "340282366920938463463374607431768211455");
}

#[test]
fn decimal_string_agrees_with_std() {
    for n in [0u128, 1, 9, 10, 11, 99, 100, 101, 4096, 65535, 1 << 70] {
        assert_eq!(decimal_string(n), n.to_string());
    }
}

#[test]
fn push_decimal_appends() {
    let mut text = String::from("rsp+");
    push_decimal(&mut text, 16);
    assert_eq!(text, "rsp+16");
}

#[test]
fn push_repeated_appends_copies() {
    let mut text = String::from("a");
    push_repeated(&mut text, '^', 3);
    assert_eq!(text, "a^^^");
    push_repeated(&mut text, ' ', 0);
    assert_eq!(text, "a^^^");
}

#[test]
fn to_chars_counts_characters_not_bytes() {
    assert_eq!(to_chars("été"), vec!['é', 't', 'é']);
    assert_eq!(to_chars(""), Vec::<char>::new());
}

#[test]
fn substring_takes_a_range_of_characters() {
    let chars = to_chars("héllo wörld");
    assert_eq!(substring(&chars, 0, 5), "héllo");
    assert_eq!(substring(&chars, 6, 11), "wörld");
    assert_eq!(substring(&chars, 3, 3), "");
}

#[test]
fn parse_decimal_reads_digits() {
    let chars = to_chars("x007y");
    assert_eq!(parse_decimal(&chars, 1, 4), Some(7));
    assert_eq!(parse_decimal(&chars, 1, 1), Some(0));
    let chars = to_chars("1234567890");
    assert_eq!(parse_decimal(&chars, 0, 10), Some(1234567890));
    assert_eq!(parse_decimal(&chars, 2, 5), Some(345));
}

#[test]
fn parse_decimal_accepts_the_largest_value() {
    let chars = to_chars("18446744073709551615");
    assert_eq!(parse_decimal(&chars, 0, chars.len()), Some(u64::MAX));
    let chars = to_chars("00018446744073709551615");
    assert_eq!(parse_decimal(&chars, 0, chars.len()), Some(u64::MAX));
}

#[test]
fn parse_decimal_refuses_what_does_not_fit() {
    let chars = to_chars("18446744073709551616");
    assert_eq!(parse_decimal(&chars, 0, chars.len()), None);
    let chars = to_chars("18446744073709551620");
    assert_eq!(parse_decimal(&chars, 0, chars.len()), None);
    let chars = to_chars("99999999999999999999999999");
    assert_eq!(parse_decimal(&chars, 0, chars.len()), None);
}

#[test]
fn parse_decimal_undoes_decimal_string() {
    for n in [0u64, 1, 9, 10, 255, 256, 1 << 40, u64::MAX - 1, u64::MAX] {
        let chars = to_chars(&decimal_string(n as u128));
        assert_eq!(parse_decimal(&chars, 0, chars.len()), Some(n));
    }
}

#[test]
fn run_end_stops_at_the_first_character_outside_the_class() {
    let chars = to_chars("abc_1 23\nx\"y");
    assert_eq!(run_end(&chars, 0, CharClass::IdentifierPart), 5);
    assert_eq!(run_end(&chars, 5, CharClass::IdentifierPart), 5);
    assert_eq!(run_end(&chars, 6, CharClass::Digit), 8);
    assert_eq!(run_end(&chars, 0, CharClass::Digit), 0);
    assert_eq!(run_end(&chars, 0, CharClass::LineText), 8);
    assert_eq!(run_end(&chars, 9, CharClass::LineText), 12);
    assert_eq!(run_end(&chars, 9, CharClass::StringText), 10);
    assert_eq!(run_end(&chars, 0, CharClass::StringText), 8);
    assert_eq!(run_end(&chars, 12, CharClass::LineText), 12);
}

#[test]
fn char_classes_accept_what_they_name() {
    assert!(CharClass::Digit.accepts('0'));
    assert!(CharClass::Digit.accepts('9'));
    assert!(!CharClass::Digit.accepts('a'));
    assert!(!CharClass::Digit.accepts('٣'));
    assert!(CharClass::IdentifierPart.accepts('_'));
    assert!(CharClass::IdentifierPart.accepts('é'));
    assert!(CharClass::IdentifierPart.accepts('7'));
    assert!(!CharClass::IdentifierPart.accepts('-'));
    assert!(CharClass::LineText.accepts('"'));
    assert!(!CharClass::LineText.accepts('\n'));
    assert!(!CharClass::StringText.accepts('"'));
    assert!(!CharClass::StringText.accepts('\n'));
    assert!(CharClass::StringText.accepts('\\'));
}

#[test]
fn char_classes_go_by_the_fact_they_are_given() {
    assert!(CharClass::IdentifierPart.accepts_given('-', true));
    assert!(!CharClass::IdentifierPart.accepts_given('a', false));
    assert!(CharClass::IdentifierPart.accepts_given('_', false));
    assert!(CharClass::Digit.accepts_given('5', false));
    assert!(!CharClass::Digit.accepts_given('a', true));
    assert!(CharClass::LineText.accepts_given('a', false));
    assert!(!CharClass::LineText.accepts_given('\n', true));
    assert!(!CharClass::StringText.accepts_given('"', true));
}

#[test]
fn parse_decimal_refuses_what_is_no_digit() {
    let chars = to_chars("12a4");
    assert_eq!(parse_decimal(&chars, 0, 4), None);
    assert_eq!(parse_decimal(&chars, 0, 2), Some(12));
    assert_eq!(parse_decimal(&chars, 2, 3), None);
    let chars = to_chars("+5");
    assert_eq!(parse_decimal(&chars, 0, 2), None);
    let chars = to_chars("٣");
    assert_eq!(parse_decimal(&chars, 0, 1), None);
}

#[test]
fn enclose_puts_the_text_between_the_two() {
    assert_eq!(enclose("Ident(", "\"a\"", ")"), "Ident(\"a\")");
    assert_eq!(enclose("", "", ""), "");
    assert_eq!(enclose("a", "", "b"), "ab");
}
