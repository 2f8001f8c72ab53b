use indexer::config::get_server_name;
use indexer::digits::parse_i64_decimal;
use indexer::text::remove_null_chars;
use indexer::text::standardize_address;
use indexer::text::str_starts_with;

#[test]
fn standardize_pads_short_address() {
    let r = standardize_address("0x1");
    assert_eq!(r.len(), 66);
    assert_eq!(
        r,
        "0x0000000000000000000000000000000000000000000000000000000000000001"
    );
}

#[test]
fn standardize_accepts_bare_digits() {
    let r = standardize_address("abc");
    assert_eq!(
        r,
        "0x0000000000000000000000000000000000000000000000000000000000000abc"
    );
}

#[test]
fn standardize_keeps_full_width_address() {
    let full = "0xa9b8c7d6e5f40000000000000000000000000000000000000000000000000001";
    assert_eq!(standardize_address(full), full);
}

#[test]
fn standardize_keeps_overlong_digits() {
    let long = "0x10000000000000000000000000000000000000000000000000000000000000001";
    assert_eq!(standardize_address(long), long);
}

#[test]
fn starts_with_agrees_with_std() {
    assert!(str_starts_with("0x1::message_board::CreateMessageEvent", "0x1::"));
    assert!(!str_starts_with("0x1::m", "0x1::message"));
    assert!(str_starts_with("abc", ""));
}

#[test]
fn remove_null_chars_strips_only_nulls() {
    assert_eq!(remove_null_chars("a\u{0}b\u{0}"), "ab");
    assert_eq!(remove_null_chars("plain"), "plain");
    assert_eq!(remove_null_chars("\u{0}"), "");
}

#[test]
fn parse_decimal_exact_value() {
    assert_eq!(parse_i64_decimal("0"), Some(0));
    assert_eq!(parse_i64_decimal("100"), Some(100));
    assert_eq!(parse_i64_decimal("-5"), Some(-5));
    assert_eq!(parse_i64_decimal("+5"), Some(5));
    assert_eq!(parse_i64_decimal("-0"), Some(0));
    assert_eq!(parse_i64_decimal("9223372036854775807"), Some(i64::MAX));
    assert_eq!(parse_i64_decimal("-9223372036854775808"), Some(i64::MIN));
}

#[test]
fn parse_decimal_rejects_bad_inputs() {
    assert_eq!(parse_i64_decimal(""), None);
    assert_eq!(parse_i64_decimal("-"), None);
    assert_eq!(parse_i64_decimal("+"), None);
    assert_eq!(parse_i64_decimal("12a"), None);
    assert_eq!(parse_i64_decimal("--5"), None);
    assert_eq!(parse_i64_decimal("9223372036854775808"), None);
    assert_eq!(parse_i64_decimal("-9223372036854775809"), None);
}

#[test]
fn server_name_cuts_at_underscore_and_twelve() {
    assert_eq!(get_server_name("events_processor"), "events");
    assert_eq!(get_server_name("averylongprocessorname"), "averylongpro");
    assert_eq!(get_server_name(""), "");
}
