use forge::config::{ConfigError, ConfigStorage, ConfigValue};
use forge::storage::{TemplateIndex, TemplateIndexEntry, TemplateIndexStorage};

#[test]
fn config_defaults_when_missing_file() {
    let storage = ConfigStorage::new("/tmp/forge/config.toml", None).expect("storage");
    assert_eq!(storage.get_config().user.name, "");
    assert_eq!(storage.get_config().user.email, "");
    assert_eq!(storage.config_path(), "/tmp/forge/config.toml");
}

#[test]
fn set_and_get_nested_user_values() {
    let mut storage = ConfigStorage::new("config.toml", None).expect("storage");
    storage.try_set_value("user.name", "Alice").expect("set name");
    storage
        .try_set_value("user.email", "alice@example.com")
        .expect("set email");
    match storage.try_get_value("user.name").expect("name") {
        ConfigValue::Text(s) => assert_eq!(s, "Alice"),
        _ => panic!("expected a string"),
    }
    match storage.try_get_value("user.email").expect("email") {
        ConfigValue::Text(s) => assert_eq!(s, "alice@example.com"),
        _ => panic!("expected a string"),
    }
}

#[test]
fn config_rejects_bad_key_paths() {
    let mut storage = ConfigStorage::new("config.toml", None).expect("storage");
    assert!(matches!(storage.try_set_value("  ", "x"), Err(ConfigError::EmptyKeyPath)));
    assert!(matches!(
        storage.try_set_value("user..name", "x"),
        Err(ConfigError::InvalidKeyPath(_))
    ));
    assert!(matches!(
        storage.try_get_value("user..name"),
        Err(ConfigError::KeyPathNotFound(_))
    ));
    assert!(matches!(
        storage.try_get_value("nothing.here"),
        Err(ConfigError::KeyPathNotFound(_))
    ));
}

#[test]
fn config_reads_existing_file() {
    let storage = ConfigStorage::new(
        "config.toml",
        Some("[user]\nname = \"Bob\"\nemail = \"bob@example.com\"\n\n[templates]\ndefault_scope = \"global\"\n"),
    )
    .expect("storage");
    assert_eq!(storage.get_config().user.name, "Bob");
    assert!(ConfigStorage::new("config.toml", Some("not = [valid")).is_err());
}

#[test]
fn flattened_config_lists_leaves() {
    let storage = ConfigStorage::new("config.toml", None).expect("storage");
    let rows = storage.get_flattened_config();
    assert!(rows.contains(&("templates.default_scope".to_string(), "local".to_string())));
    assert!(rows.contains(&("user.name".to_string(), String::new())));
}

#[test]
fn index_defaults_when_missing_file() {
    let storage = TemplateIndexStorage::new("/tmp/root");
    let index = TemplateIndex::default();
    assert_eq!(index.version, 1);
    assert!(index.templates.is_empty());
    assert_eq!(storage.index_path(), "/tmp/root/templates.json");
}

#[test]
fn upsert_adds_and_updates_entries() {
    let storage = TemplateIndexStorage::new("root");
    let index = storage.upsert_template(TemplateIndex::default(), "rust", "templates/rust");
    let index = storage.upsert_template(index, "fullstack", "templates/fullstack");
    let index = storage.upsert_template(index, "rust", "templates/rust-v2");
    assert_eq!(index.version, 1);
    assert_eq!(index.templates.len(), 2);
    assert_eq!(index.templates[0].name, "fullstack");
    assert_eq!(index.templates[0].path, "templates/fullstack");
    assert_eq!(index.templates[1].name, "rust");
    assert_eq!(index.templates[1].path, "templates/rust-v2");
}

#[test]
fn normalized_index_sorts_by_name() {
    let index = TemplateIndex {
        version: 7,
        templates: vec![
            TemplateIndexEntry { name: "b".into(), path: "1".into() },
            TemplateIndexEntry { name: "a".into(), path: "2".into() },
            TemplateIndexEntry { name: "b".into(), path: "3".into() },
        ],
    };
    let n = TemplateIndexStorage::normalized(&index);
    assert_eq!(n.version, 1);
    let got: Vec<(String, String)> = n.templates.into_iter().map(|e| (e.name, e.path)).collect();
    assert_eq!(
        got,
        vec![
            ("a".to_string(), "2".to_string()),
            ("b".to_string(), "1".to_string()),
            ("b".to_string(), "3".to_string())
        ]
    );
}

#[test]
fn index_remove_drops_named_entries() {
    let storage = TemplateIndexStorage::new("root");
    let index = storage.upsert_template(TemplateIndex::default(), "a", "templates/a");
    let index = storage.upsert_template(index, "b", "templates/b");
    let index = storage.remove_templates(index, &vec!["a".to_string(), "zzz".to_string()]);
    assert_eq!(index.templates.len(), 1);
    assert_eq!(index.templates[0].name, "b");
}

#[test]
fn default_scope_reads_back_what_was_set() {
    let mut storage = ConfigStorage::new("config.toml", None).expect("storage");
    storage.try_set_value("user.name", "Alice").expect("set name");
    storage
        .try_set_value("templates.default_scope", "global")
        .expect("set scope");
    match storage.try_get_value("templates.default_scope").expect("scope") {
        ConfigValue::Text(s) => assert_eq!(s, "global"),
        _ => panic!("expected a string"),
    }
    match storage.try_get_value("user.name").expect("name") {
        ConfigValue::Text(s) => assert_eq!(s, "Alice"),
        _ => panic!("expected a string"),
    }
    assert!(matches!(
        storage.try_set_value("templates.default_scope", "elsewhere"),
        Err(ConfigError::UpdateFailed)
    ));
}
