use xfdr::num::{epoch_to_hms, i64_to_dec, parse_dec_i64, u64_to_dec};
use xfdr::text::{join_strs, split_str, str_eq, trim_quotes, trim_str};

#[test]
fn trim_removes_surrounding_whitespace() {
    assert_eq!(trim_str("  hello \t"), "hello");
    assert_eq!(trim_str("hello"), "hello");
    assert_eq!(trim_str("   "), "");
    assert_eq!(trim_str(""), "");
}

#[test]
fn trim_quotes_removes_surrounding_quotes() {
    assert_eq!(trim_quotes("\"N12345\""), "N12345");
    assert_eq!(trim_quotes("plain"), "plain");
    assert_eq!(trim_quotes("\"\""), "");
}

#[test]
fn split_and_join_round_trip() {
    let parts = split_str("a,b,,c", ',');
    assert_eq!(parts, vec!["a", "b", "", "c"]);
    assert_eq!(join_strs(&parts, ','), "a,b,,c");
    assert_eq!(split_str("", ','), vec![""]);
}

#[test]
fn str_eq_is_exact() {
    assert!(str_eq("abc", "abc"));
    assert!(!str_eq("abc", "abd"));
    assert!(!str_eq("abc", "abcd"));
    assert!(str_eq("", ""));
}

#[test]
fn decimal_rendering() {
    assert_eq!(u64_to_dec(0), "0");
    assert_eq!(u64_to_dec(1699102093), "1699102093");
    assert_eq!(i64_to_dec(-5), "-5");
    assert_eq!(i64_to_dec(i64::MIN), "-9223372036854775808");
    assert_eq!(i64_to_dec(i64::MAX), "9223372036854775807");
}

#[test]
fn decimal_parsing() {
    assert_eq!(parse_dec_i64("1699102093"), Some(1699102093));
    assert_eq!(parse_dec_i64("-5"), Some(-5));
    assert_eq!(parse_dec_i64("-9223372036854775808"), Some(i64::MIN));
    assert_eq!(parse_dec_i64("9223372036854775808"), None);
    assert_eq!(parse_dec_i64(""), None);
    assert_eq!(parse_dec_i64("12a"), None);
    assert_eq!(parse_dec_i64("-"), None);
}

#[test]
fn clock_time_rendering() {
    // 1699102093 seconds after the epoch is 12:48:13 UTC
    assert_eq!(epoch_to_hms(1699102093), "12:48:13");
    assert_eq!(epoch_to_hms(0), "00:00:00");
    assert_eq!(epoch_to_hms(86399), "23:59:59");
    assert_eq!(epoch_to_hms(-1), "23:59:59");
}
