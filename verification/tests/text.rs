use spectra::pairs::set_text;
use spectra::text::{contains, decimal, ends_with, replace, starts_with, trim};

#[test]
fn replace_all_occurrences() {
    assert_eq!(replace("https://x/{account}/{account}", "{account}", "bob"), "https://x/bob/bob");
    assert_eq!(replace("aaa", "aa", "b"), "ba");
    assert_eq!(replace("none", "{x}", "y"), "none");
}

#[test]
fn trim_unicode_white_space() {
    assert_eq!(trim("  \t a b \n"), "a b");
    assert_eq!(trim("\u{a0}x\u{3000}"), "x");
    assert_eq!(trim("   "), "");
}

#[test]
fn text_searches() {
    assert!(contains("hello world", "o w"));
    assert!(!contains("hello", "z"));
    assert!(starts_with("hello", "he"));
    assert!(ends_with("hello", "lo"));
    assert_eq!(decimal(0), "0");
    assert_eq!(decimal(18446744073709551615), "18446744073709551615");
}

#[test]
fn set_text_replaces_in_place() {
    let mut v: Vec<(String, String)> = Vec::new();
    set_text(&mut v, "a".to_string(), "1".to_string());
    set_text(&mut v, "b".to_string(), "2".to_string());
    set_text(&mut v, "a".to_string(), "3".to_string());
    assert_eq!(v, vec![("a".to_string(), "3".to_string()), ("b".to_string(), "2".to_string())]);
}
