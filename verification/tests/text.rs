use gitlab_runner::text::{
    append_hex, decimal_string, parse_range, parse_u64, range_string, split_string, starts_with,
};

#[test]
fn decimal_numbers() {
    assert_eq!(decimal_string(0), "0");
    assert_eq!(decimal_string(1234567890), "1234567890");
    assert_eq!(decimal_string(u64::MAX), "18446744073709551615");
    assert_eq!(parse_u64("18446744073709551615"), Some(u64::MAX));
    assert_eq!(parse_u64("18446744073709551616"), None);
    assert_eq!(parse_u64("+5"), Some(5));
    assert_eq!(parse_u64("007"), Some(7));
    assert_eq!(parse_u64("-5"), None);
    assert_eq!(parse_u64("+"), None);
    assert_eq!(parse_u64(""), None);
    assert_eq!(parse_u64("5 "), None);
}

#[test]
fn ranges() {
    assert_eq!(range_string(0, 9), "0-9");
    assert_eq!(parse_range("0-9"), Some((0, 9)));
    assert_eq!(parse_range(&range_string(17, 4711)), Some((17, 4711)));
    assert_eq!(parse_range("09"), None);
    assert_eq!(parse_range("1-2-3"), None);
    assert_eq!(parse_range("-3"), None);
}

#[test]
fn splitting() {
    assert_eq!(split_string("a/b//c", '/'), vec!["a", "b", "", "c"]);
    assert_eq!(split_string("", '/'), vec![""]);
    assert!(starts_with("gitlab.job", "gitlab."));
    assert!(!starts_with("gitlab", "gitlab."));
}

#[test]
fn hexadecimal_digits() {
    let mut s = "s_".to_string();
    append_hex(&mut s, &[0x00, 0x9f, 0xa0, 0xff]);
    assert_eq!(s, "s_009fa0ff");
}
