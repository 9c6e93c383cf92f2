use forge::cli::{Cli, CliError, Commands, ConfigAction, FieldsAction, PackageAction, TrustAction};

fn parse(args: &[&str]) -> Cli {
    Cli::try_parse_from(args).expect("command line should parse")
}

#[test]
fn new_parses_template_and_name() {
    let cli = parse(&["forge", "new", "webapp", "my-app"]);
    match cli.command {
        Commands::New { template, name, default, .. } => {
            assert_eq!(template, "webapp");
            assert_eq!(name, "my-app");
            assert!(!default);
        }
        other => panic!("unexpected command: {:?}", other),
    }
}

#[test]
fn new_parses_default_flag() {
    let cli = parse(&["forge", "new", "webapp", "my-app", "--default"]);
    match cli.command {
        Commands::New { template, name, default, .. } => {
            assert_eq!(template, "webapp");
            assert_eq!(name, "my-app");
            assert!(default);
        }
        other => panic!("unexpected command: {:?}", other),
    }
}

#[test]
fn list_parses_global_flag() {
    let cli = parse(&["forge", "list", "--global"]);
    match cli.command {
        Commands::List { global, local } => {
            assert!(global);
            assert!(!local);
        }
        other => panic!("unexpected command: {:?}", other),
    }
}

#[test]
fn list_parses_local_flag() {
    let cli = parse(&["forge", "list", "--local"]);
    match cli.command {
        Commands::List { global, local } => {
            assert!(!global);
            assert!(local);
        }
        other => panic!("unexpected command: {:?}", other),
    }
}

#[test]
fn list_rejects_global_and_local_together() {
    assert!(Cli::try_parse_from(&["forge", "list", "--global", "--local"]).is_err());
}

#[test]
fn list_parses_global_short_flag() {
    let cli = parse(&["forge", "list", "-g"]);
    match cli.command {
        Commands::List { global, local } => {
            assert!(global);
            assert!(!local);
        }
        other => panic!("unexpected command: {:?}", other),
    }
}

#[test]
fn list_parses_local_short_flag() {
    let cli = parse(&["forge", "list", "-l"]);
    match cli.command {
        Commands::List { global, local } => {
            assert!(!global);
            assert!(local);
        }
        other => panic!("unexpected command: {:?}", other),
    }
}

#[test]
fn list_rejects_global_and_local_short_together() {
    assert!(Cli::try_parse_from(&["forge", "list", "-g", "-l"]).is_err());
}

#[test]
fn info_parses_template_name() {
    let cli = parse(&["forge", "info", "fullstack"]);
    match cli.command {
        Commands::Info { template, .. } => assert_eq!(template, "fullstack"),
        other => panic!("unexpected command: {:?}", other),
    }
}

#[test]
fn create_parses_name_and_global_flag() {
    let cli = parse(&["forge", "create", "my-template", "--global"]);
    match cli.command {
        Commands::Create { name, global, .. } => {
            assert_eq!(name, "my-template");
            assert!(global);
        }
        other => panic!("unexpected command: {:?}", other),
    }
}

#[test]
fn create_parses_name_and_global_short_flag() {
    let cli = parse(&["forge", "create", "my-template", "-g"]);
    match cli.command {
        Commands::Create { name, global, .. } => {
            assert_eq!(name, "my-template");
            assert!(global);
        }
        other => panic!("unexpected command: {:?}", other),
    }
}

#[test]
fn check_parses_template_and_global_flag() {
    let cli = parse(&["forge", "check", "webapp", "--global"]);
    match cli.command {
        Commands::Check { template, global, .. } => {
            assert_eq!(template, "webapp");
            assert!(global);
        }
        other => panic!("unexpected command: {:?}", other),
    }
}

#[test]
fn remove_parses_one_or_more_names() {
    let one = parse(&["forge", "remove", "webapp"]);
    assert!(matches!(
        one.command,
        Commands::Remove { names, .. } if names == vec!["webapp".to_string()]
    ));

    let many = parse(&["forge", "remove", "webapp", "fullstack"]);
    assert!(matches!(
        many.command,
        Commands::Remove { names, .. }
            if names == vec!["webapp".to_string(), "fullstack".to_string()]
    ));
}

#[test]
fn check_parses_template_and_global_short_flag() {
    let cli = parse(&["forge", "check", "webapp", "-g"]);
    match cli.command {
        Commands::Check { template, global, .. } => {
            assert_eq!(template, "webapp");
            assert!(global);
        }
        other => panic!("unexpected command: {:?}", other),
    }
}

#[test]
fn trust_add_parses_template_and_global_flag() {
    let cli = parse(&["forge", "trust", "add", "webapp", "--global"]);
    match cli.command {
        Commands::Trust { action: TrustAction::Add { template, global, .. } } => {
            assert_eq!(template, "webapp");
            assert!(global);
        }
        other => panic!("unexpected command: {:?}", other),
    }
}

#[test]
fn trust_add_parses_template_and_global_short_flag() {
    let cli = parse(&["forge", "trust", "add", "webapp", "-g"]);
    match cli.command {
        Commands::Trust { action: TrustAction::Add { template, global, .. } } => {
            assert_eq!(template, "webapp");
            assert!(global);
        }
        other => panic!("unexpected command: {:?}", other),
    }
}

#[test]
fn trust_remove_parses_template() {
    let cli = parse(&["forge", "trust", "remove", "webapp"]);
    match cli.command {
        Commands::Trust { action: TrustAction::Remove { template, .. } } => {
            assert_eq!(template, "webapp")
        }
        other => panic!("unexpected command: {:?}", other),
    }
}

#[test]
fn trust_list_parses() {
    let cli = parse(&["forge", "trust", "list"]);
    assert!(matches!(cli.command, Commands::Trust { action: TrustAction::List }));
}

#[test]
fn config_set_parses_key_and_value() {
    let cli = parse(&["forge", "config", "set", "user.name", "Alice"]);
    assert!(matches!(
        cli.command,
        Commands::Config { action: ConfigAction::SetValue { key, value } }
            if key == "user.name" && value == "Alice"
    ));
}

#[test]
fn config_get_parses_key() {
    let cli = parse(&["forge", "config", "get", "user.email"]);
    assert!(matches!(
        cli.command,
        Commands::Config { action: ConfigAction::Get { key } } if key == "user.email"
    ));
}

#[test]
fn config_list_parses() {
    let cli = parse(&["forge", "config", "list"]);
    assert!(matches!(cli.command, Commands::Config { action: ConfigAction::List }));
}

#[test]
fn config_edit_parses() {
    let cli = parse(&["forge", "config", "edit"]);
    assert!(matches!(cli.command, Commands::Config { action: ConfigAction::Edit }));
}

#[test]
fn package_probe_parses_repo() {
    let cli = parse(&[
        "forge",
        "package",
        "probe",
        "https://github.com/alice/forge-templates.git",
    ]);
    assert!(matches!(
        cli.command,
        Commands::Package { action: PackageAction::Probe { repo } }
            if repo == "https://github.com/alice/forge-templates.git"
    ));
}

#[test]
fn package_install_parses_repo_templates_and_interactive() {
    let cli = parse(&[
        "forge",
        "package",
        "install",
        "https://github.com/alice/forge-templates.git",
        "fullstack",
        "rust",
        "--interactive",
    ]);
    assert!(matches!(
        cli.command,
        Commands::Package { action: PackageAction::Install { repo, templates, interactive } }
            if repo == "https://github.com/alice/forge-templates.git"
                && templates == vec!["fullstack".to_string(), "rust".to_string()]
                && interactive
    ));
}

#[test]
fn package_remove_and_update_parse_optional_names() {
    let remove_cli = parse(&["forge", "package", "remove", "fullstack", "rust"]);
    assert!(matches!(
        remove_cli.command,
        Commands::Package { action: PackageAction::Remove { names } }
            if names == vec!["fullstack".to_string(), "rust".to_string()]
    ));

    let update_cli = parse(&["forge", "package", "update"]);
    assert!(matches!(
        update_cli.command,
        Commands::Package { action: PackageAction::Update { names } } if names.is_empty()
    ));
}

// ----- further cases of the grammar -----

#[test]
fn fields_set_parses_assignment() {
    let cli = parse(&["forge", "fields", "set", "github.username=alice"]);
    assert!(matches!(
        cli.command,
        Commands::Fields { action: FieldsAction::SetField { assignment } }
            if assignment == "github.username=alice"
    ));
}

#[test]
fn missing_subcommand_is_refused() {
    assert!(matches!(Cli::try_parse_from(&["forge"]), Err(CliError::MissingSubcommand)));
    assert!(matches!(Cli::try_parse_from(&["forge", "trust"]), Err(CliError::MissingSubcommand)));
}

#[test]
fn unknown_subcommand_is_named() {
    assert!(matches!(
        Cli::try_parse_from(&["forge", "frobnicate"]),
        Err(CliError::UnknownSubcommand(s)) if s == "frobnicate"
    ));
}

#[test]
fn unknown_flag_and_extra_positional_are_unexpected() {
    assert!(matches!(
        Cli::try_parse_from(&["forge", "list", "--verbose"]),
        Err(CliError::UnexpectedArgument(s)) if s == "--verbose"
    ));
    assert!(matches!(
        Cli::try_parse_from(&["forge", "info", "a", "b"]),
        Err(CliError::UnexpectedArgument(s)) if s == "b"
    ));
    assert!(matches!(
        Cli::try_parse_from(&["forge", "list", "--interactive"]),
        Err(CliError::UnexpectedArgument(_))
    ));
}

#[test]
fn repeated_flag_is_refused() {
    assert!(matches!(
        Cli::try_parse_from(&["forge", "new", "a", "b", "--default", "--default"]),
        Err(CliError::DuplicateFlag(s)) if s == "--default"
    ));
}

#[test]
fn missing_positional_is_refused() {
    assert!(matches!(
        Cli::try_parse_from(&["forge", "new", "webapp"]),
        Err(CliError::MissingArgument)
    ));
    assert!(matches!(Cli::try_parse_from(&["forge", "remove"]), Err(CliError::MissingArgument)));
}

#[test]
fn conflicting_scope_is_refused_for_new() {
    assert!(matches!(
        Cli::try_parse_from(&["forge", "new", "a", "b", "-l", "-g"]),
        Err(CliError::ConflictingScope)
    ));
}

#[test]
fn flags_may_precede_positionals() {
    let cli = parse(&["forge", "new", "--local", "webapp", "app"]);
    assert!(matches!(
        cli.command,
        Commands::New { template, name, local: true, global: false, default: false }
            if template == "webapp" && name == "app"
    ));
}

fn help_path(args: &[&str]) -> Option<Vec<String>> {
    match Cli::try_parse_from(args) {
        Err(CliError::DisplayHelp(p)) => Some(p),
        _ => None,
    }
}

#[test]
fn help_flags_and_subcommand_ask_for_help() {
    assert_eq!(help_path(&["forge", "--help"]), Some(vec![]));
    assert_eq!(help_path(&["forge", "-h"]), Some(vec![]));
    assert_eq!(help_path(&["forge", "help"]), Some(vec![]));
    assert_eq!(help_path(&["forge", "new", "--help"]), Some(vec!["new".to_string()]));
    assert_eq!(help_path(&["forge", "new", "-l", "-g", "-h"]), Some(vec!["new".to_string()]));
    assert_eq!(help_path(&["forge", "trust", "--help"]), Some(vec!["trust".to_string()]));
    assert_eq!(
        help_path(&["forge", "trust", "add", "-h"]),
        Some(vec!["trust".to_string(), "add".to_string()])
    );
    assert_eq!(
        help_path(&["forge", "help", "config", "set"]),
        Some(vec!["config".to_string(), "set".to_string()])
    );
    assert_eq!(help_path(&["forge", "package", "help"]), Some(vec!["package".to_string()]));
    assert!(matches!(
        Cli::try_parse_from(&["forge", "help", "bogus"]),
        Err(CliError::UnknownSubcommand(s)) if s == "bogus"
    ));
    assert!(matches!(
        Cli::try_parse_from(&["forge", "info", "a", "b", "--help"]),
        Err(CliError::UnexpectedArgument(s)) if s == "b"
    ));
}

#[test]
fn version_flags_show_the_version() {
    assert!(matches!(Cli::try_parse_from(&["forge", "--version"]), Err(CliError::DisplayVersion)));
    assert!(matches!(Cli::try_parse_from(&["forge", "-V"]), Err(CliError::DisplayVersion)));
    assert!(matches!(
        Cli::try_parse_from(&["forge", "list", "--version"]),
        Err(CliError::UnexpectedArgument(s)) if s == "--version"
    ));
}

#[test]
fn double_dash_ends_the_options() {
    match Cli::try_parse_from(&["forge", "new", "--", "-tpl", "--help"]).expect("parse") {
        Cli { command: Commands::New { template, name, .. } } => {
            assert_eq!(template, "-tpl");
            assert_eq!(name, "--help");
        }
        _ => panic!("unexpected command"),
    }
    assert!(matches!(
        Cli::try_parse_from(&["forge", "list", "--", "-l"]),
        Err(CliError::UnexpectedArgument(s)) if s == "-l"
    ));
}
