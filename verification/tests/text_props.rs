use ctfdb::text::{capitalise_first, contains_substring, i32_to_string, str_eq};

#[test]
fn test_capitalise_first() {
    assert_eq!("Yes", capitalise_first("yes"));
    assert_eq!("Yes", capitalise_first("Yes"));
}

#[test]
fn test_capitalise_first_empty_and_unicode() {
    assert_eq!("", capitalise_first(""));
    assert_eq!("Ähm", capitalise_first("ähm"));
}

#[test]
fn test_str_eq() {
    assert!(str_eq("challenge", "challenge"));
    assert!(!str_eq("challenge", "challeng"));
    assert!(!str_eq("challenge", "Challenge"));
    assert!(str_eq("", ""));
}

#[test]
fn test_contains_substring() {
    assert!(contains_substring("Reverse a String", "a Str"));
    assert!(contains_substring("Reverse a String", ""));
    assert!(contains_substring("Reverse a String", "Reverse a String"));
    assert!(!contains_substring("Reverse a String", "reverse"));
    assert!(!contains_substring("short", "much longer needle"));
}

#[test]
fn test_i32_to_string() {
    assert_eq!(i32_to_string(0), "0");
    assert_eq!(i32_to_string(7), "7");
    assert_eq!(i32_to_string(100), "100");
    assert_eq!(i32_to_string(-35), "-35");
    assert_eq!(i32_to_string(i32::MAX), "2147483647");
    assert_eq!(i32_to_string(i32::MIN), "-2147483648");
}
