use cailoxo::text::{contains, decimal, replace_char, replace_str, str_eq};

#[test]
fn decimal_formats_numbers() {
    assert_eq!(decimal(0), "0");
    assert_eq!(decimal(7), "7");
    assert_eq!(decimal(10), "10");
    assert_eq!(decimal(255), "255");
    assert_eq!(decimal(u64::MAX), "18446744073709551615");
}

#[test]
fn substring_search() {
    assert!(contains("a {{ if status }} b", "{{ if status }}"));
    assert!(contains("abc", ""));
    assert!(!contains("ab", "abc"));
    assert!(!contains("abd", "abc"));
    assert!(contains("\u{e0b0}x", "x"));
}

#[test]
fn replacements() {
    assert_eq!(replace_str("a{{x}}b{{x}}", "{{x}}", "Y"), "aYbY");
    assert_eq!(replace_str("aaa", "aa", "b"), "ba");
    assert_eq!(replace_char("a%b%", '%', "%%"), "a%%b%%");
    assert!(str_eq("same", "same"));
    assert!(!str_eq("same", "sam"));
}
