use assembler::{parse_value, AsmError, UnsupportedFeature};

fn bad_literal() -> AsmError {
    AsmError::UnsupportedFeature(UnsupportedFeature::LiteralFormat)
}

#[test]
fn literal_parsing() {
    assert_eq!(parse_value("0x1A"), Ok(26));
    assert_eq!(parse_value("0d10"), Ok(10));
    assert_eq!(parse_value(""), Ok(0));
    assert_eq!(parse_value("abc"), Err(bad_literal()));
}

#[test]
fn blank_literal_is_zero() {
    assert_eq!(parse_value("   "), Ok(0));
    assert_eq!(parse_value("\t"), Ok(0));
}

#[test]
fn hex_literal() {
    assert_eq!(parse_value("0xff"), Ok(255));
    assert_eq!(parse_value("0xFFFFFFFF"), Ok(u32::MAX));
    assert_eq!(parse_value("0x"), Ok(0));
    assert_eq!(parse_value("0x00000000000000001"), Ok(1));
}

#[test]
fn hex_literal_is_reduced_to_a_word() {
    assert_eq!(parse_value("0x1FFFFFFFF"), Ok(u32::MAX));
    assert_eq!(parse_value("0x100000005"), Ok(5));
}

#[test]
fn hex_literal_with_a_bad_digit() {
    assert_eq!(parse_value("0xZZ"), Err(bad_literal()));
    assert_eq!(parse_value("0x1 "), Err(bad_literal()));
    assert_eq!(parse_value("0x1x2"), Err(bad_literal()));
    assert_eq!(parse_value("0x\u{e9}"), Err(bad_literal()));
    assert_eq!(parse_value("0X1A"), Err(bad_literal()));
}

#[test]
fn decimal_literal() {
    assert_eq!(parse_value("0d0"), Ok(0));
    assert_eq!(parse_value("0d007"), Ok(7));
    assert_eq!(parse_value("0d+5"), Ok(5));
    assert_eq!(parse_value("0d4294967295"), Ok(u32::MAX));
}

#[test]
fn decimal_literal_that_is_no_number() {
    assert_eq!(parse_value("0d"), Err(bad_literal()));
    assert_eq!(parse_value("0d+"), Err(bad_literal()));
    assert_eq!(parse_value("0d-1"), Err(bad_literal()));
    assert_eq!(parse_value("0d1a"), Err(bad_literal()));
    assert_eq!(parse_value("0d 1"), Err(bad_literal()));
    assert_eq!(parse_value("0d1_000"), Err(bad_literal()));
}

#[test]
fn decimal_literal_too_large() {
    assert_eq!(parse_value("0d4294967296"), Err(bad_literal()));
    assert_eq!(parse_value("0d99999999999999999999999999"), Err(bad_literal()));
}

#[test]
fn literal_without_prefix() {
    assert_eq!(parse_value("10"), Err(bad_literal()));
    assert_eq!(parse_value(" 0x10"), Err(bad_literal()));
    assert_eq!(parse_value("0"), Err(bad_literal()));
}
