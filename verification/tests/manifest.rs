use forge::manifest::{load_and_validate, parse_semver, required_binaries, Permission, Semver};

const RUNNING: &str = "0.1.0";

fn found(list: &[&str]) -> Vec<String> {
    list.iter().map(|s| s.to_string()).collect()
}

const FULL: &str = r#"
[package]
name = "fullstack"
version = "1.0.0"
description = "desc"
min_forge_version = "0.1.0"
repository = "https://example.com"

[author]
name = "Alice"

[tags]
values = ["fullstack", "web"]

[requires]
commands = ["cargo"]
programs = ["cargo"]
permissions = ["execution", "network", "read_env"]
"#;

#[test]
fn loads_valid_manifest() {
    let manifest = load_and_validate(FULL, Some("fullstack"), RUNNING, &found(&["cargo"]))
        .expect("valid manifest");
    assert_eq!(manifest.package.name, "fullstack");
    assert_eq!(manifest.package.version, "1.0.0");
    assert!(manifest.requires.is_some());
    let req = manifest.requires.unwrap();
    assert_eq!(
        req.permissions,
        vec![Permission::Execution, Permission::Network, Permission::ReadEnv]
    );
    assert_eq!(manifest.author.unwrap().name, Some("Alice".to_string()));
    assert_eq!(manifest.tags.unwrap().values, vec!["fullstack", "web"]);
}

#[test]
fn required_binaries_lists_commands_then_programs() {
    assert_eq!(required_binaries(FULL), vec!["cargo", "cargo"]);
    assert!(required_binaries("[package]\nname = \"x\"\n").is_empty());
}

#[test]
fn fails_on_missing_required_field() {
    let err = load_and_validate(
        "[package]\nname = \"basic\"\nversion = \"1.0.0\"\nmin_forge_version = \"0.1.0\"\n",
        Some("basic"),
        RUNNING,
        &found(&[]),
    )
    .expect_err("should fail");
    assert!(err.message().contains("missing required field: [package].description"));
}

#[test]
fn fails_on_name_dir_mismatch() {
    let err = load_and_validate(
        "[package]\nname = \"different\"\nversion = \"1.0.0\"\ndescription = \"desc\"\nmin_forge_version = \"0.1.0\"\n",
        Some("wrong-dir"),
        RUNNING,
        &found(&[]),
    )
    .expect_err("should fail");
    assert!(err.message().contains("must match template directory name"));
}

#[test]
fn fails_on_unknown_top_level_key() {
    let err = load_and_validate(
        "[package]\nname = \"basic\"\nversion = \"1.0.0\"\ndescription = \"desc\"\nmin_forge_version = \"0.1.0\"\n\n[unexpected]\nfoo = \"bar\"\n",
        Some("basic"),
        RUNNING,
        &found(&[]),
    )
    .expect_err("should fail");
    assert!(err.message().contains("unknown top-level key"));
    assert_eq!(err.message(), "unknown top-level key: [unexpected]");
}

#[test]
fn fails_on_invalid_permission() {
    let err = load_and_validate(
        "[package]\nname = \"basic\"\nversion = \"1.0.0\"\ndescription = \"desc\"\nmin_forge_version = \"0.1.0\"\n\n[requires]\npermissions = [\"root\"]\n",
        Some("basic"),
        RUNNING,
        &found(&[]),
    )
    .expect_err("should fail");
    assert!(err.message().contains("invalid [requires].permissions entry"));
}

#[test]
fn fails_on_missing_required_command() {
    let err = load_and_validate(
        "[package]\nname = \"basic\"\nversion = \"1.0.0\"\ndescription = \"desc\"\nmin_forge_version = \"0.1.0\"\n\n[requires]\ncommands = [\"forge_cmd_that_definitely_does_not_exist_123\"]\n",
        Some("basic"),
        RUNNING,
        &found(&[]),
    )
    .expect_err("should fail");
    assert!(err.message().contains("required command not found on PATH"));
}

#[test]
fn fails_on_missing_required_program() {
    let err = load_and_validate(
        "[package]\nname = \"basic\"\nversion = \"1.0.0\"\ndescription = \"desc\"\nmin_forge_version = \"0.1.0\"\n\n[requires]\nprograms = [\"forge_program_that_definitely_does_not_exist_123\"]\n",
        Some("basic"),
        RUNNING,
        &found(&[]),
    )
    .expect_err("should fail");
    assert!(err.message().contains("required program not found on PATH"));
}

#[test]
fn fails_when_min_forge_version_is_higher_than_running() {
    let err = load_and_validate(
        "[package]\nname = \"basic\"\nversion = \"1.0.0\"\ndescription = \"desc\"\nmin_forge_version = \"9999.0.0\"\n",
        Some("basic"),
        RUNNING,
        &found(&[]),
    )
    .expect_err("should fail");
    assert!(err.message().contains("template requires forge 9999.0.0"));
    assert_eq!(
        err.message(),
        "template requires forge 9999.0.0 but running version is 0.1.0"
    );
}

#[test]
fn manifest_errors_for_shape_and_types() {
    let base = "[package]\nname = \"basic\"\nversion = \"1.0.0\"\ndescription = \"desc\"\nmin_forge_version = \"0.1.0\"\n";
    let cases: Vec<(String, &str)> = vec![
        ("x = 1\n".to_string(), "unknown top-level key: [x]"),
        ("[author]\n".to_string(), "missing required section: [package]"),
        (format!("{}[tags]\nvalues = [\"Web\"]\n", base), "[tags].values entries must be lowercase words, got 'Web'"),
        (format!("{}[tags]\nvalues = \"web\"\n", base), "field must be an array of strings: [tags].values"),
        (format!("author = 3\n{}", base), "[author] must be a table"),
        (base.replace("\"desc\"", "\"  \""), "required field cannot be blank: [package].description"),
        (base.replace("\"desc\"", "5"), "field must be a string: [package].description"),
        (base.replace("\"1.0.0\"", "\"1.0\""), "[package].version must be MAJOR.MINOR.PATCH"),
        (base.replace("\"basic\"", "\"Basic\""), "[package].name must contain only lowercase letters, numbers, and hyphens"),
        (format!("requires = 1\n{}", base), "[requires] must be a table"),
        ("not toml = [".to_string(), "invalid manifest.toml: "),
    ];
    for (text, want) in cases {
        let err = load_and_validate(&text, Some("basic"), RUNNING, &found(&[])).expect_err(&text);
        assert!(err.message().starts_with(want), "{} => {}", text, err.message());
    }
}

#[test]
fn directory_name_must_be_utf8() {
    let err = load_and_validate(
        "[package]\nname = \"basic\"\nversion = \"1.0.0\"\ndescription = \"desc\"\nmin_forge_version = \"0.1.0\"\n",
        None,
        RUNNING,
        &found(&[]),
    )
    .expect_err("should fail");
    assert_eq!(err.message(), "template directory name is not valid UTF-8");
}

#[test]
fn semver_parsing() {
    assert_eq!(
        parse_semver("1.2.3", "v").expect("ok"),
        Semver { major: 1, minor: 2, patch: 3 }
    );
    assert_eq!(parse_semver("+1.02.3", "v").expect("ok").minor, 2);
    assert_eq!(parse_semver("1.2", "v").unwrap_err().message(), "v must be MAJOR.MINOR.PATCH");
    assert!(parse_semver("1.2.3.4", "v").is_err());
    assert!(parse_semver("1.-2.3", "v").is_err());
    assert!(parse_semver("18446744073709551616.0.0", "v").is_err());
    assert!(parse_semver("18446744073709551615.0.0", "v").is_ok());
}

#[test]
fn permission_from_str() {
    assert_eq!(Permission::from_str("escape_cwd").expect("ok"), Permission::EscapeCwd);
    assert_eq!(
        Permission::from_str("root").unwrap_err().message(),
        "invalid [requires].permissions entry: root"
    );
}
