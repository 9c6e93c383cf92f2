use forge::fields::{parse_assignment, validate_name, FieldError};
use forge::storage::FieldsStorage;

#[test]
fn parses_assignment_with_equals_in_value() {
    assert_eq!(
        parse_assignment("github.token=foo=bar").expect("assignment"),
        ("github.token".to_string(), "foo=bar".to_string())
    );
}

#[test]
fn rejects_assignment_without_equals() {
    assert!(parse_assignment("github.username").is_err());
}

#[test]
fn assignment_errors_carry_messages() {
    assert_eq!(
        parse_assignment("novalue").unwrap_err().message(),
        "field assignment must be NAME=VALUE"
    );
    assert_eq!(parse_assignment(" =x").unwrap_err(), FieldError::EmptyName);
    assert_eq!(parse_assignment(" a=x").unwrap_err(), FieldError::PaddedName);
    assert_eq!(
        FieldError::PaddedName.message(),
        "field name cannot have leading or trailing whitespace"
    );
    assert_eq!(FieldError::EmptyName.message(), "field name cannot be empty");
}

#[test]
fn validate_name_accepts_inner_spaces() {
    assert!(validate_name("my field").is_ok());
    assert!(validate_name("").is_err());
    assert!(validate_name("x ").is_err());
}

#[test]
fn fields_defaults_when_missing_file() {
    let storage = FieldsStorage::new("/tmp/forge/fields.json", None).expect("storage");
    assert!(storage.list().is_empty());
    assert_eq!(storage.fields_file(), "/tmp/forge/fields.json");
}

#[test]
fn sets_gets_lists_and_clears_fields() {
    let mut storage = FieldsStorage::new("fields.json", None).expect("storage");
    storage.set("github", "alice").expect("set github");
    storage.set("email", "alice@example.com").expect("set email");

    let text = storage.to_json();
    let reloaded = FieldsStorage::new("fields.json", Some(&text)).expect("reload");
    assert_eq!(reloaded.get("github").expect("get"), Some("alice".to_string()));
    assert_eq!(
        reloaded.list(),
        vec![
            ("email".to_string(), "alice@example.com".to_string()),
            ("github".to_string(), "alice".to_string()),
        ]
    );

    let mut reloaded = reloaded;
    assert!(reloaded.clear("github").expect("clear"));
    assert!(!reloaded.clear("github").expect("clear missing"));
    assert_eq!(reloaded.get("github").expect("get"), None);
}

#[test]
fn rejects_empty_field_names() {
    let mut storage = FieldsStorage::new("fields.json", None).expect("storage");
    assert!(storage.set("", "value").is_err());
    assert!(storage.set("  ", "value").is_err());
    assert!(storage.list().is_empty());
}

#[test]
fn invalid_fields_file_is_refused() {
    let err = FieldsStorage::new("fields.json", Some("[1, 2]")).err().expect("error");
    assert_eq!(err, "invalid fields.json");
}

#[test]
fn later_duplicate_keys_replace_earlier_ones() {
    let storage = FieldsStorage::new("f.json", Some("{\"a\": \"1\", \"a\": \"2\"}")).expect("load");
    assert_eq!(storage.get("a").expect("get"), Some("2".to_string()));
}

#[test]
fn set_replaces_and_keeps_others() {
    let mut storage = FieldsStorage::new("f.json", None).expect("storage");
    storage.set("b", "1").expect("set");
    storage.set("a", "2").expect("set");
    storage.set("b", "3").expect("set");
    assert_eq!(
        storage.list(),
        vec![("a".to_string(), "2".to_string()), ("b".to_string(), "3".to_string())]
    );
    let map = storage.into_map();
    assert_eq!(map.len(), 2);
    assert_eq!(map.get("b"), Some(&"3".to_string()));
}

#[test]
fn fields_survive_save_and_reload() {
    let mut storage = FieldsStorage::new("fields.json", None).expect("storage");
    storage.set("github.username", "alice \"quoted\" \\ ✓").expect("set");
    let text = storage.to_json();
    let reloaded = FieldsStorage::new("fields.json", Some(&text)).expect("reload");
    assert_eq!(
        reloaded.get("github.username").expect("get"),
        Some("alice \"quoted\" \\ ✓".to_string())
    );
}
