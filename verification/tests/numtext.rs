use budlum_core::core_types::numtext::{parse_u64, parse_u64_bytes, parse_u64_or_zero};

#[test]
fn parses_plain_and_signed_decimal() {
    assert_eq!(parse_u64("0"), Some(0));
    assert_eq!(parse_u64("42"), Some(42));
    assert_eq!(parse_u64("+7"), Some(7));
    assert_eq!(parse_u64("007"), Some(7));
    assert_eq!(parse_u64("18446744073709551615"), Some(u64::MAX));
}

#[test]
fn refuses_what_str_parse_refuses() {
    assert_eq!(parse_u64(""), None);
    assert_eq!(parse_u64("+"), None);
    assert_eq!(parse_u64("-1"), None);
    assert_eq!(parse_u64("1a"), None);
    assert_eq!(parse_u64(" 1"), None);
    assert_eq!(parse_u64("++1"), None);
    assert_eq!(parse_u64("18446744073709551616"), None);
    assert_eq!(parse_u64("99999999999999999999x"), None);
}

#[test]
fn agrees_with_std_parse() {
    for s in ["0", "1", "+12", "-3", "", "12345678901234567890", "18446744073709551616", "9", "x9", "٣"] {
        assert_eq!(parse_u64(s), s.parse::<u64>().ok(), "{s}");
        assert_eq!(parse_u64_bytes(s.as_bytes()), s.parse::<u64>().ok());
    }
}

#[test]
fn unparsable_reads_as_zero() {
    assert_eq!(parse_u64_or_zero("junk"), 0);
    assert_eq!(parse_u64_or_zero("15"), 15);
}
