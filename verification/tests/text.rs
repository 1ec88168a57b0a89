use artifact_catalog::clock::now_string;
use artifact_catalog::decimal::u64_to_decimal;
use artifact_catalog::text::{contains_case_insensitive, str_contains, str_eq, trim};

#[test]
fn case_insensitive_match_folds_both_sides() {
    assert!(contains_case_insensitive("ABC", "abc"));
    assert!(contains_case_insensitive("abc", "ABC"));
    assert!(contains_case_insensitive("Hello World", "LO WO"));
}

#[test]
fn case_insensitive_match_rejects_absent_needles() {
    assert!(!contains_case_insensitive("amulet", "bowl"));
    assert!(!contains_case_insensitive("", "x"));
}

#[test]
fn empty_needle_always_matches() {
    assert!(contains_case_insensitive("anything", ""));
    assert!(contains_case_insensitive("", ""));
}

#[test]
fn substring_search_is_exact() {
    assert!(str_contains("golden idol", "en id"));
    assert!(str_contains("golden idol", "golden idol"));
    assert!(!str_contains("golden idol", "golden idols"));
    assert!(!str_contains("abc", "ca"));
}

#[test]
fn string_equality_compares_characters() {
    assert!(str_eq("fast", "fast"));
    assert!(!str_eq("fast", "Fast"));
    assert!(!str_eq("fast", "fas"));
}

#[test]
fn trim_removes_only_outer_whitespace() {
    assert_eq!(trim("  a b  "), "a b");
    assert_eq!(trim("\t\ngold \r"), "gold");
    assert_eq!(trim("gold"), "gold");
    assert_eq!(trim("   "), "");
    assert_eq!(trim(""), "");
}

#[test]
fn decimal_rendering_matches_std_formatting() {
    assert_eq!(u64_to_decimal(0), "0");
    assert_eq!(u64_to_decimal(7), "7");
    assert_eq!(u64_to_decimal(2000), "2000");
    assert_eq!(u64_to_decimal(18_446_744_073_709_551_615), "18446744073709551615");
}

#[test]
fn now_string_has_the_stamp_shape() {
    let s = now_string();
    assert!(s.ends_with('Z'));
    let body = &s[..s.len() - 1];
    let (secs, millis) = body.split_once('.').unwrap();
    assert!(secs.chars().all(|c| c.is_ascii_digit()));
    assert_eq!(millis.len(), 3);
    assert!(millis.chars().all(|c| c.is_ascii_digit()));
}
