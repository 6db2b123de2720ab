use input_focus::text::{chars_of, str_contains, str_eq};

#[test]
fn equal_strings() {
    assert!(str_eq("seat0", "seat0"));
    assert!(!str_eq("seat0", "seat"));
    assert!(str_eq("", ""));
    assert!(str_eq("héllo", "héllo"));
}

#[test]
fn characters_in_order() {
    assert_eq!(chars_of("a:é"), vec!['a', ':', 'é']);
    assert!(chars_of("").is_empty());
}

#[test]
fn substring_search() {
    assert!(str_contains(":seat:uaccess:", ":uaccess:"));
    assert!(str_contains("abc", ""));
    assert!(str_contains("abc", "abc"));
    assert!(!str_contains("ab", "abc"));
    assert!(!str_contains("aab", "abb"));
    assert!(str_contains("aaab", "aab"));
}
