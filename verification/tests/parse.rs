use sysfs_block::error::Error;
use sysfs_block::parse::{parse_u64, parse_u8};

#[test]
fn parses_plain_decimals() {
    assert_eq!(parse_u64("0"), Ok(0));
    assert_eq!(parse_u64("123"), Ok(123));
    assert_eq!(parse_u64("007"), Ok(7));
    assert_eq!(parse_u64("+42"), Ok(42));
    assert_eq!(parse_u8("255"), Ok(255));
}

#[test]
fn parses_the_extremes() {
    assert_eq!(parse_u64("18446744073709551615"), Ok(u64::MAX));
    assert_eq!(parse_u64("18446744073709551616"), Err(Error::Parse));
    assert_eq!(parse_u8("256"), Err(Error::Parse));
}

#[test]
fn rejects_non_numeric_text() {
    assert_eq!(parse_u64(""), Err(Error::Parse));
    assert_eq!(parse_u64("+"), Err(Error::Parse));
    assert_eq!(parse_u64("-1"), Err(Error::Parse));
    assert_eq!(parse_u64("12a"), Err(Error::Parse));
    assert_eq!(parse_u64("1 2"), Err(Error::Parse));
    assert_eq!(parse_u64("123\n"), Err(Error::Parse));
}
