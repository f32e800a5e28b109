//! Tests of the attribute text parser and path helper, no I/O involved.

use fuel_gauge::attr::{join_path, parse_i32_text, parse_u32_text, AttrError};

#[test]
fn test_parse_u32_trailing_newline() {
    assert_eq!(parse_u32_text("89\n").unwrap(), 89);
}

#[test]
fn test_parse_u32_no_newline() {
    assert_eq!(parse_u32_text("89").unwrap(), 89);
}

#[test]
fn test_parse_u32_plus_sign() {
    assert_eq!(parse_u32_text("+89\n").unwrap(), 89);
}

#[test]
fn test_parse_u32_zero() {
    assert_eq!(parse_u32_text("0\n").unwrap(), 0);
}

#[test]
fn test_parse_u32_max() {
    assert_eq!(parse_u32_text("4294967295").unwrap(), u32::MAX);
}

#[test]
fn test_parse_u32_overflow() {
    match parse_u32_text("4294967296") {
        Err(AttrError::ParseFailure(text)) => assert_eq!(text, "4294967296"),
        _ => panic!("out-of-range text must be a ParseFailure"),
    }
}

#[test]
fn test_parse_u32_empty() {
    match parse_u32_text("") {
        Err(AttrError::ParseFailure(text)) => assert_eq!(text, ""),
        _ => panic!("empty text must be a ParseFailure"),
    }
}

#[test]
fn test_parse_u32_only_newline() {
    assert!(matches!(parse_u32_text("\n"), Err(AttrError::ParseFailure(_))));
}

#[test]
fn test_parse_u32_non_numeric() {
    match parse_u32_text("abc") {
        Err(AttrError::ParseFailure(text)) => assert_eq!(text, "abc"),
        _ => panic!("non-numeric text must be a ParseFailure"),
    }
}

#[test]
fn test_parse_u32_negative_rejected() {
    assert!(matches!(parse_u32_text("-89\n"), Err(AttrError::ParseFailure(_))));
}

#[test]
fn test_parse_u32_trims_exactly_one_newline() {
    assert!(matches!(parse_u32_text("12\n\n"), Err(AttrError::ParseFailure(_))));
}

#[test]
fn test_parse_u32_inner_newline() {
    assert!(matches!(parse_u32_text("1\n2"), Err(AttrError::ParseFailure(_))));
}

#[test]
fn test_parse_u32_other_whitespace_kept() {
    assert!(matches!(parse_u32_text("89 "), Err(AttrError::ParseFailure(_))));
}

#[test]
fn test_parse_i32_negative() {
    assert_eq!(parse_i32_text("-150").unwrap(), -150);
}

#[test]
fn test_parse_i32_positive() {
    assert_eq!(parse_i32_text("150\n").unwrap(), 150);
}

#[test]
fn test_parse_i32_plus_sign() {
    assert_eq!(parse_i32_text("+150\n").unwrap(), 150);
}

#[test]
fn test_parse_i32_min() {
    assert_eq!(parse_i32_text("-2147483648").unwrap(), i32::MIN);
}

#[test]
fn test_parse_i32_max() {
    assert_eq!(parse_i32_text("2147483647").unwrap(), i32::MAX);
}

#[test]
fn test_parse_i32_overflow() {
    assert!(matches!(parse_i32_text("2147483648"), Err(AttrError::ParseFailure(_))));
}

#[test]
fn test_parse_i32_negative_overflow() {
    assert!(matches!(parse_i32_text("-2147483649"), Err(AttrError::ParseFailure(_))));
}

#[test]
fn test_parse_i32_bare_sign() {
    assert!(matches!(parse_i32_text("-"), Err(AttrError::ParseFailure(_))));
}

#[test]
fn test_join_path() {
    assert_eq!(join_path("bq27621", "capacity"), "bq27621/capacity");
}
