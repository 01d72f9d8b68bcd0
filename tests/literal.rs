use bitshow::{value_from_string, BitsError};

fn parse(s: &str) -> Result<u64, BitsError> {
    value_from_string(s.to_string())
}

#[test]
fn hex_literal_reads_digits_after_prefix() {
    assert_eq!(parse("0xff"), Ok(255));
    assert_eq!(parse("0xFF"), Ok(255));
    assert_eq!(parse("0x100000000"), Ok(0x1_0000_0000));
    assert_eq!(parse("0xffffffffffffffff"), Ok(u64::MAX));
    assert_eq!(parse("0x0"), Ok(0));
}

#[test]
fn octal_literal_reads_digits_after_prefix() {
    assert_eq!(parse("0o17"), Ok(15));
    assert_eq!(parse("0o777"), Ok(511));
    assert_eq!(parse("0o1777777777777777777777"), Ok(u64::MAX));
}

#[test]
fn decimal_literal_reads_whole_text() {
    assert_eq!(parse("0"), Ok(0));
    assert_eq!(parse("255"), Ok(255));
    assert_eq!(parse("007"), Ok(7));
    assert_eq!(parse("18446744073709551615"), Ok(u64::MAX));
}

#[test]
fn empty_digits_are_rejected() {
    assert_eq!(parse(""), Err(BitsError::Parse));
    assert_eq!(parse("0x"), Err(BitsError::Parse));
    assert_eq!(parse("0o"), Err(BitsError::Parse));
}

#[test]
fn digits_invalid_in_radix_are_rejected() {
    assert_eq!(parse("0xfg"), Err(BitsError::Parse));
    assert_eq!(parse("0o8"), Err(BitsError::Parse));
    assert_eq!(parse("12a"), Err(BitsError::Parse));
    assert_eq!(parse("0X10"), Err(BitsError::Parse));
    assert_eq!(parse("-1"), Err(BitsError::Parse));
    assert_eq!(parse("+1"), Err(BitsError::Parse));
    assert_eq!(parse(" 1"), Err(BitsError::Parse));
}

#[test]
fn values_beyond_64_bits_are_rejected() {
    assert_eq!(parse("18446744073709551616"), Err(BitsError::Parse));
    assert_eq!(parse("0x10000000000000000"), Err(BitsError::Parse));
    assert_eq!(parse("0o2000000000000000000000"), Err(BitsError::Parse));
    assert_eq!(parse("99999999999999999999x"), Err(BitsError::Parse));
}
