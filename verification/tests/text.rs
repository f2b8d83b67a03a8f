use xai_gork_telegram::text::{
    clip_str, contains_str, first_chars, i64_to_decimal, strip_prefix, trim_str, u64_to_decimal,
};

#[test]
fn decimal_forms() {
    assert_eq!(u64_to_decimal(0), "0");
    assert_eq!(u64_to_decimal(1234567890), "1234567890");
    assert_eq!(u64_to_decimal(u64::MAX), u64::MAX.to_string());
    assert_eq!(i64_to_decimal(-42), "-42");
    assert_eq!(i64_to_decimal(i64::MIN), i64::MIN.to_string());
}

#[test]
fn trimming_and_searching() {
    assert_eq!(trim_str("\u{3000} a b \n"), "a b");
    assert_eq!(trim_str("   "), "");
    assert!(contains_str("x.ai/exit_plan_mode", "exit_plan_mode"));
    assert!(!contains_str("exit_plan", "exit_plan_mode"));
    assert!(contains_str("abc", ""));
    assert_eq!(strip_prefix("pl:approve", "pl:"), Some("approve".to_string()));
    assert_eq!(strip_prefix("p", "p:"), None);
    assert_eq!(first_chars("héllo", 2), "hé");
}

#[test]
fn clipping_by_bytes() {
    assert_eq!(clip_str("abcdef", 6, 2), "abcdef");
    assert_eq!(clip_str("abcdefg", 6, 2), "ab…");
    assert_eq!(clip_str("ééé", 4, 2), "é…");
}
