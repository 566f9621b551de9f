use cms_core::errors::CmsError;
use cms_core::users::{UserRecord, UserTable};

fn roster_with(name: &str, username: &str, password: &str) -> UserTable {
    let mut t = UserTable::new();
    t.add(name.to_string(), username.to_string(), &password.to_string())
        .unwrap();
    t
}

#[test]
fn correct_password_authenticates_with_display_name() {
    let t = roster_with("Ada Lovelace", "ada", "s3cret");
    let (ok, name) = t.authenticate(&"ada".to_string(), &"s3cret".to_string());
    assert!(ok);
    assert_eq!(name, Some("Ada Lovelace".to_string()));
}

#[test]
fn wrong_password_and_missing_user_are_indistinguishable() {
    let t = roster_with("Ada Lovelace", "ada", "s3cret");
    let wrong = t.authenticate(&"ada".to_string(), &"wrong".to_string());
    let missing = t.authenticate(&"nobody".to_string(), &"anything".to_string());
    assert_eq!(wrong, (false, None));
    assert_eq!(missing, (false, None));
    assert_eq!(wrong, missing);
}

#[test]
fn duplicate_username_is_refused() {
    let mut t = roster_with("Ada", "ada", "one");
    let r = t.add("Another".to_string(), "ada".to_string(), &"two".to_string());
    assert!(matches!(r, Err(CmsError::DuplicateKey)));
    // the first row is untouched
    let (ok, name) = t.authenticate(&"ada".to_string(), &"one".to_string());
    assert!(ok);
    assert_eq!(name, Some("Ada".to_string()));
}

#[test]
fn edit_with_empty_password_keeps_the_stored_hash() {
    let mut t = roster_with("Ada", "ada", "s3cret");
    t.edit(
        &"ada".to_string(),
        "Ada L.".to_string(),
        "lovelace".to_string(),
        &String::new(),
    )
    .unwrap();
    // the old password still authenticates, under the new username
    let (ok, name) = t.authenticate(&"lovelace".to_string(), &"s3cret".to_string());
    assert!(ok);
    assert_eq!(name, Some("Ada L.".to_string()));
    // the old username is gone
    assert_eq!(t.authenticate(&"ada".to_string(), &"s3cret".to_string()), (false, None));
}

#[test]
fn edit_with_a_password_replaces_the_hash() {
    let mut t = roster_with("Ada", "ada", "oldpw");
    t.edit(
        &"ada".to_string(),
        "Ada".to_string(),
        "ada".to_string(),
        &"newpw".to_string(),
    )
    .unwrap();
    assert_eq!(t.authenticate(&"ada".to_string(), &"oldpw".to_string()), (false, None));
    assert!(t.authenticate(&"ada".to_string(), &"newpw".to_string()).0);
}

#[test]
fn edit_refuses_renaming_onto_a_taken_username() {
    let mut t = UserTable::new();
    t.add("A".to_string(), "a".to_string(), &"pa".to_string()).unwrap();
    t.add("B".to_string(), "b".to_string(), &"pb".to_string()).unwrap();
    let r = t.edit(&"a".to_string(), "A".to_string(), "b".to_string(), &String::new());
    assert!(matches!(r, Err(CmsError::DuplicateKey)));
    // both rows still authenticate as before
    assert!(t.authenticate(&"a".to_string(), &"pa".to_string()).0);
    assert!(t.authenticate(&"b".to_string(), &"pb".to_string()).0);
}

#[test]
fn delete_removes_the_row_and_is_idempotent() {
    let mut t = roster_with("Ada", "ada", "pw");
    t.delete(&"ada".to_string());
    assert_eq!(t.authenticate(&"ada".to_string(), &"pw".to_string()), (false, None));
    t.delete(&"ada".to_string());
    assert_eq!(t.authenticate(&"ada".to_string(), &"pw".to_string()), (false, None));
}

#[test]
fn get_missing_user_yields_empty_strings() {
    let t = UserTable::new();
    let (name, username) = t.get(&"ghost".to_string());
    assert_eq!(name, "");
    assert_eq!(username, "");
}

#[test]
fn get_returns_name_and_username() {
    let t = roster_with("Ada", "ada", "pw");
    let (name, username) = t.get(&"ada".to_string());
    assert_eq!(name, "Ada");
    assert_eq!(username, "ada");
}

#[test]
fn listing_formats_name_and_username() {
    let mut t = UserTable::new();
    t.add("Ada Lovelace".to_string(), "ada".to_string(), &"x".to_string())
        .unwrap();
    t.add("Alan Turing".to_string(), "alan".to_string(), &"y".to_string())
        .unwrap();
    let rows = t.list_formatted();
    assert_eq!(rows, vec!["Ada Lovelace (ada)".to_string(), "Alan Turing (alan)".to_string()]);
}

#[test]
fn from_rows_refuses_a_repeated_username() {
    let rows = vec![
        UserRecord {
            name: "A".to_string(),
            username: "same".to_string(),
            password_hash: "h1".to_string(),
        },
        UserRecord {
            name: "B".to_string(),
            username: "same".to_string(),
            password_hash: "h2".to_string(),
        },
    ];
    assert!(UserTable::from_rows(rows).is_none());
}

#[test]
fn from_rows_accepts_distinct_usernames() {
    let rows = vec![
        UserRecord {
            name: "A".to_string(),
            username: "a".to_string(),
            password_hash: "h1".to_string(),
        },
        UserRecord {
            name: "B".to_string(),
            username: "b".to_string(),
            password_hash: "h2".to_string(),
        },
    ];
    let t = UserTable::from_rows(rows).unwrap();
    let (name, _) = t.get(&"b".to_string());
    assert_eq!(name, "B");
}

#[test]
fn a_stored_hash_is_not_the_clear_password() {
    // the stored row holds a one-way hash, not the password, so the hash
    // text itself does not authenticate
    let t = roster_with("Ada", "ada", "pw");
    let stored = t.rows();
    assert_eq!(stored[0].password_hash.len(), 60);
    assert!(stored[0].password_hash.starts_with('$'));
    assert_ne!(stored[0].password_hash, "pw");
    assert!(!t.authenticate(&"ada".to_string(), &stored[0].password_hash).0);
}
