use rek2_nntp::text::{
    parse_u32, parse_u32_or_zero, parse_u64, split_fields, split_on, starts_with, trim, trim_end,
    NumberError,
};

#[test]
fn trim_removes_surrounding_whitespace() {
    assert_eq!(trim("  211 3 1 3 test\r\n"), "211 3 1 3 test");
    assert_eq!(trim_end("  a b \t\r\n"), "  a b");
    assert_eq!(trim("\u{3000}x\u{a0}"), "x");
    assert_eq!(trim(" \r\n"), "");
}

#[test]
fn split_fields_on_whitespace() {
    assert_eq!(split_fields("  comp.lang.rust 10  2\ty \r\n"), vec!["comp.lang.rust", "10", "2", "y"]);
    assert!(split_fields(" \t ").is_empty());
}

#[test]
fn split_on_tabs_keeps_empty_pieces() {
    assert_eq!(split_on("a\t\tb\t", '\t'), vec!["a", "", "b", ""]);
    assert_eq!(split_on("", '\t'), vec![""]);
}

#[test]
fn numbers_parse_like_std() {
    assert_eq!(parse_u64("18446744073709551615"), Ok(u64::MAX));
    assert_eq!(parse_u64("18446744073709551616"), Err(NumberError::PosOverflow));
    assert_eq!(parse_u64("+42"), Ok(42));
    assert_eq!(parse_u64("-1"), Err(NumberError::InvalidDigit));
    assert_eq!(parse_u64("+"), Err(NumberError::InvalidDigit));
    assert_eq!(parse_u64(""), Err(NumberError::Empty));
    assert_eq!(parse_u64("12a"), Err(NumberError::InvalidDigit));
    assert_eq!(parse_u32("4294967296"), Err(NumberError::PosOverflow));
    assert_eq!(parse_u32("4294967295"), Ok(u32::MAX));
    assert_eq!(parse_u32_or_zero("x"), 0);
    assert_eq!(parse_u32_or_zero("007"), 7);
}

#[test]
fn prefixes() {
    assert!(starts_with("211 12 1 12 group", "211"));
    assert!(!starts_with("21", "211"));
    assert!(starts_with("x", ""));
}
