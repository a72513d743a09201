use abcd::numeric::{format_number, int_to_string, parse_i64, IntTextError};
use abcd::text::{chars_of, string_of, trim_str};

#[test]
fn parse_i64_reads_signed_decimals() {
    assert_eq!(parse_i64("0"), Ok(0));
    assert_eq!(parse_i64("42"), Ok(42));
    assert_eq!(parse_i64("+42"), Ok(42));
    assert_eq!(parse_i64("-17"), Ok(-17));
    assert_eq!(parse_i64("007"), Ok(7));
    assert_eq!(parse_i64("9223372036854775807"), Ok(i64::MAX));
    assert_eq!(parse_i64("-9223372036854775808"), Ok(i64::MIN));
}

#[test]
fn parse_i64_reports_each_error_as_str_parse_does() {
    assert_eq!(parse_i64(""), Err(IntTextError::Empty));
    assert_eq!(parse_i64("-"), Err(IntTextError::InvalidDigit));
    assert_eq!(parse_i64("+"), Err(IntTextError::InvalidDigit));
    assert_eq!(parse_i64(" 5"), Err(IntTextError::InvalidDigit));
    assert_eq!(parse_i64("12a"), Err(IntTextError::InvalidDigit));
    assert_eq!(parse_i64("9223372036854775808"), Err(IntTextError::PosOverflow));
    assert_eq!(parse_i64("-9223372036854775809"), Err(IntTextError::NegOverflow));
    // the first failure decides: an overflow before a bad character
    assert_eq!(parse_i64("99999999999999999999x"), Err(IntTextError::PosOverflow));
}

#[test]
fn parse_i64_agrees_with_std() {
    for text in ["", "1", "-1", "+0", "--1", "1 ", "123456789012", "-0", "9223372036854775808", "x"] {
        let ours = parse_i64(text).ok();
        let std_value = text.parse::<i64>().ok();
        assert_eq!(ours, std_value, "text {text:?}");
    }
}

#[test]
fn int_to_string_matches_std() {
    for v in [0i64, 7, -7, 10, 1234567, -1000, i64::MAX, i64::MIN] {
        assert_eq!(int_to_string(v), v.to_string());
    }
}

#[test]
fn printed_integers_parse_back() {
    for v in [0i64, 1, -1, 99, -100, 4_000_000_000, i64::MAX, i64::MIN] {
        assert_eq!(parse_i64(&int_to_string(v)), Ok(v));
    }
}

#[test]
fn format_number_groups_thousands() {
    assert_eq!(format_number(0), "0");
    assert_eq!(format_number(999), "999");
    assert_eq!(format_number(1000), "1,000");
    assert_eq!(format_number(1234567), "1,234,567");
    assert_eq!(format_number(-1234567), "-1,234,567");
    assert_eq!(format_number(-100), "-100");
    assert_eq!(format_number(i64::MAX), "9,223,372,036,854,775,807");
}

#[test]
fn grouping_only_inserts_commas() {
    for v in [5i64, 12345, -987654321, 1_000_000] {
        assert_eq!(format_number(v).replace(',', ""), int_to_string(v));
    }
}

#[test]
fn trim_and_chars_round_trip() {
    assert_eq!(trim_str("  a b \t\n"), "a b");
    assert_eq!(trim_str("\u{a0}x\u{3000}"), "x");
    assert_eq!(string_of(&chars_of("héllo")), "héllo");
}
