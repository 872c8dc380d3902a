use claude_code_agent_sdk::text::{push_decimal, starts_with, str_eq};

#[test]
fn decimal_rendering() {
    for n in [0u64, 7, 10, 99, 100, 12345, u64::MAX] {
        let mut s = String::from("x");
        push_decimal(&mut s, n);
        assert_eq!(s, format!("x{}", n));
    }
}

#[test]
fn string_comparisons() {
    assert!(str_eq("", ""));
    assert!(str_eq("héllo", "héllo"));
    assert!(!str_eq("hello", "hell"));
    assert!(!str_eq("a", "b"));
    assert!(starts_with("abc", ""));
    assert!(starts_with("abc", "ab"));
    assert!(!starts_with("ab", "abc"));
    assert!(!starts_with("abc", "b"));
}
