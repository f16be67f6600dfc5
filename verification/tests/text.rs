use dehtml::text::{chars_of, find_char, parse_u64_at, push_decimal, starts_with, str_eq, string_of};

fn parse(s: &str) -> Option<u64> {
    parse_u64_at(&chars_of(s), 0)
}

#[test]
fn parse_reads_plain_digits() {
    assert_eq!(parse("0"), Some(0));
    assert_eq!(parse("1234"), Some(1234));
    assert_eq!(parse("007"), Some(7));
    assert_eq!(parse("18446744073709551615"), Some(u64::MAX));
}

#[test]
fn parse_accepts_one_leading_plus() {
    assert_eq!(parse("+5"), Some(5));
    assert_eq!(parse("++5"), None);
    assert_eq!(parse("+"), None);
}

#[test]
fn parse_refuses_what_is_no_number() {
    assert_eq!(parse(""), None);
    assert_eq!(parse("-1"), None);
    assert_eq!(parse("12a"), None);
    assert_eq!(parse(" 12"), None);
    assert_eq!(parse("12 "), None);
    assert_eq!(parse("١٢"), None);
}

#[test]
fn parse_refuses_what_does_not_fit() {
    assert_eq!(parse("18446744073709551616"), None);
    assert_eq!(parse("99999999999999999999999"), None);
    assert_eq!(parse("18446744073709551616x"), None);
}

#[test]
fn parse_agrees_with_the_standard_library() {
    let cases = ["", "+", "-", "0", "+0", "-0", "42", "+42", "4 2", "0x10", "1_000", "18446744073709551615"];
    for case in cases {
        assert_eq!(parse(case), case.parse::<u64>().ok());
    }
}

#[test]
fn parse_from_an_offset_skips_characters_not_bytes() {
    assert_eq!(parse_u64_at(&chars_of(">>1234"), 2), Some(1234));
    assert_eq!(parse_u64_at(&chars_of("é√77"), 2), Some(77));
    assert_eq!(parse_u64_at(&chars_of(">"), 2), None);
    assert_eq!(parse_u64_at(&chars_of(">>"), 2), None);
}

#[test]
fn decimal_is_what_display_prints() {
    for n in [0u64, 1, 9, 10, 11, 99, 100, 1234567890, u64::MAX] {
        let mut out = String::new();
        push_decimal(&mut out, n);
        assert_eq!(out, n.to_string());
    }
}

#[test]
fn chars_and_back() {
    let chars = chars_of("héllo");
    assert_eq!(chars, vec!['h', 'é', 'l', 'l', 'o']);
    assert_eq!(string_of(&chars, 1, 4), "éll");
    assert_eq!(string_of(&chars, 2, 2), "");
}

#[test]
fn find_char_gives_first_place_or_length() {
    let chars = chars_of("a/b/c");
    assert_eq!(find_char(&chars, '/', 0), 1);
    assert_eq!(find_char(&chars, '/', 2), 3);
    assert_eq!(find_char(&chars, '/', 4), 5);
    assert_eq!(find_char(&chars, 'x', 0), 5);
}

#[test]
fn prefix_and_equality() {
    assert!(starts_with(&chars_of("//x"), "//"));
    assert!(!starts_with(&chars_of("/x"), "//"));
    assert!(starts_with(&chars_of("abc"), ""));
    assert!(str_eq("quote", "quote"));
    assert!(!str_eq("quote", "quotes"));
    assert!(!str_eq("quote", "quotf"));
}
