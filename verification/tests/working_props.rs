use ctfdb::working::{add_working_user, contains_working, join_working, remove_working_user};

#[test]
fn test_mark_working_idempotent_values() {
    let mut once: Vec<String> = Vec::new();
    add_working_user(&mut once, "alice");
    let mut twice: Vec<String> = Vec::new();
    add_working_user(&mut twice, "alice");
    add_working_user(&mut twice, "alice");
    assert_eq!(once, twice);
    assert_eq!(once, vec!["alice".to_string()]);
}

#[test]
fn test_clear_working_absent_is_noop() {
    let mut list = vec!["alice".to_string(), "bob".to_string()];
    remove_working_user(&mut list, "mallory");
    assert_eq!(list, vec!["alice".to_string(), "bob".to_string()]);
}

#[test]
fn test_clear_working_removes_member() {
    let mut list = vec!["alice".to_string(), "bob".to_string(), "carol".to_string()];
    remove_working_user(&mut list, "bob");
    assert_eq!(list, vec!["alice".to_string(), "carol".to_string()]);
    assert!(!contains_working(&list, "bob"));
    assert!(contains_working(&list, "alice"));
}

#[test]
fn test_join_working() {
    let empty: Vec<String> = Vec::new();
    assert_eq!(join_working(&empty), "");
    let one = vec!["alice".to_string()];
    assert_eq!(join_working(&one), "alice");
    let three = vec!["alice".to_string(), "bob".to_string(), "carol".to_string()];
    assert_eq!(join_working(&three), "alice, bob, carol");
}
