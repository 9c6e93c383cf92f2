use forge::config::UserConfig;
use forge::scaffold::{gitignore_contents, manifest_contents, toml_escape};

#[test]
fn manifest_contents_without_profile() {
    let out = manifest_contents("webapp", "1.2.3", &UserConfig::default());
    assert!(out.contains("[package]"));
    assert!(!out.contains("[author]"));
}

#[test]
fn manifest_contents_with_profile() {
    let profile = UserConfig {
        name: "Test User".to_string(),
        email: "test@example.com".to_string(),
    };
    let out = manifest_contents("webapp", "1.2.3", &profile);
    assert!(out.contains("[author]"));
    assert!(out.contains("name = \"Test User\""));
    assert!(out.contains("email = \"test@example.com\""));
}

#[test]
fn initialize_forge_root_creates_package_dir_and_ignore_rules() {
    assert_eq!(gitignore_contents(""), "packages/*\ntrust.json\n");
}

#[test]
fn initialize_forge_root_preserves_existing_ignore_rules() {
    assert_eq!(
        gitignore_contents("index.json\npackages/*\n"),
        "index.json\npackages/*\ntrust.json\n"
    );
}

#[test]
fn gitignore_is_idempotent() {
    let once = gitignore_contents("target\n");
    assert_eq!(gitignore_contents(&once), once);
}

#[test]
fn gitignore_adds_missing_newline_before_entries() {
    assert_eq!(
        gitignore_contents("target"),
        "target\npackages/*\ntrust.json\n"
    );
}

#[test]
fn gitignore_matches_trimmed_lines() {
    assert_eq!(
        gitignore_contents("  packages/*  \ntrust.json\n"),
        "  packages/*  \ntrust.json\n"
    );
}

#[test]
fn toml_escape_escapes_quotes_and_backslashes() {
    assert_eq!(toml_escape("a\"b\\c"), "a\\\"b\\\\c");
    assert_eq!(toml_escape("plain"), "plain");
}

#[test]
fn manifest_contents_escapes_profile_values() {
    let profile = UserConfig {
        name: "A \"B\"".to_string(),
        email: String::new(),
    };
    let out = manifest_contents("webapp", "1.2.3", &profile);
    assert!(out.contains("name = \"A \\\"B\\\"\""));
    assert!(out.contains("min_forge_version = \"1.2.3\""));
    assert!(out.contains("name = \"webapp\""));
}
