use forge::lua::{
    cargo_argv, check_exec, dotnet_new_argv, dotnet_restore_argv, dotnet_sln_add_argv,
    exec_outcome, finish_arg, git_add_argv, git_commit_argv, git_init_argv, plan_arg,
    validate_step, validation_failed, ArgDefault, ArgStep, ArgValue, CargoCommand, DefaultPrompts,
    DotnetNewOptions, ErrorKind, ExecMode, ExecOptions, ExecResult, LuaError, PromptConfirmOptions,
    PromptInputOptions, PromptProvider, PromptSelectOptions, RunFlags, RuntimeConfig, ValidateResult,
    ValidateStep,
};
use forge::manifest::Permission;
use forge::paths::{check_project_rel, check_project_within, check_template_rel, check_template_within};
use forge::render::{render_text, tokenize, Segment};

fn base_cfg() -> RuntimeConfig {
    RuntimeConfig {
        project_name: "my-app".to_string(),
        project_dir: "/tmp/x/out".to_string(),
        template_name: "basic".to_string(),
        template_dir: "/tmp/x/template".to_string(),
        env_allowlist: Vec::new(),
        allowed_commands: Vec::new(),
        allowed_programs: Vec::new(),
        permissions: Vec::new(),
        fields: Vec::new(),
    }
}

fn strings(v: &[&str]) -> Vec<String> {
    v.iter().map(|s| s.to_string()).collect()
}

fn render(input: &str, vals: &[&str]) -> Result<String, String> {
    render_text(input, "t.tpl", &strings(vals))
}

fn exprs(input: &str) -> Vec<String> {
    tokenize(input)
        .expect("tokenize")
        .into_iter()
        .filter_map(|s| match s {
            Segment::Expr(e) => Some(e),
            Segment::Text(_) => None,
        })
        .collect()
}

#[test]
fn render_interpolates_template_vars() {
    assert_eq!(exprs("{{ forge.project.name }}"), vec!["forge.project.name"]);
    assert_eq!(render("{{ forge.project.name }}", &["my-app"]).expect("render"), "my-app");
}

#[test]
fn render_expression_uses_forge_helpers_and_nil_is_empty() {
    assert_eq!(
        exprs("{{ forge.str.upper('forge') }}::{{ missing_value }}{{ forge.project.name }}"),
        vec!["forge.str.upper('forge')", "missing_value", "forge.project.name"]
    );
    assert_eq!(
        render("{{ a }}::{{ b }}{{ c }}", &["FORGE", "", "my-app"]).expect("render"),
        "FORGE::my-app"
    );
}

#[test]
fn fields_get_reads_configured_fields() {
    let mut cfg = base_cfg();
    cfg.fields = vec![
        ("email".to_string(), "alice@example.com".to_string()),
        ("github.username".to_string(), "alice".to_string()),
    ];
    assert_eq!(cfg.field("github.username").expect("field"), "alice");
    assert_eq!(cfg.field("email").expect("field"), "alice@example.com");
}

#[test]
fn fields_get_errors_when_field_is_missing() {
    let err = base_cfg().field("missing").expect_err("missing");
    assert!(err.message().contains("field not found: missing"));
}

#[test]
fn render_percent_literal_blocks_emit_raw_delimiters() {
    let out = render(
        "run *args: %{{args}}% and %{{version}}% and {{ forge.project.name }}",
        &["my-app"],
    )
    .expect("render");
    assert_eq!(out, "run *args: {{args}} and {{version}} and my-app");
}

#[test]
fn render_expression_allows_right_brace_in_string_literal() {
    assert_eq!(exprs("{{ \"x}y\" }}"), vec!["\"x}y\""]);
    assert_eq!(render("{{ \"x}y\" }}", &["x}y"]).expect("render"), "x}y");
}

#[test]
fn render_unterminated_percent_literal_block_errors() {
    let err = render("broken %{{version}}", &[]).expect_err("error");
    assert!(err.contains("unterminated literal block"));
}

#[test]
fn render_keeps_unclosed_and_empty_blocks_as_text_and_rejects_pipes() {
    assert_eq!(render("a {{ b", &[]).expect("unclosed"), "a {{ b");
    assert_eq!(render("x {{}} y", &[]).expect("empty"), "x {{}} y");
    assert_eq!(exprs("{{}}{{ a }}"), vec!["a"]);
    assert_eq!(
        render("{{ name | upper }}", &[]).unwrap_err(),
        "failed to render block {{ name | upper }} in t.tpl: pipe helpers are no longer supported; use Lua expressions"
    );
    assert_eq!(render("{{ 'a\\'}}' }}", &["v"]).expect("escaped quote"), "v");
}

#[test]
fn render_rejects_template_path_escape() {
    let err = check_template_rel("../outside.txt").expect_err("escape");
    assert!(err.message().contains("path escapes template files dir"));
    assert_eq!(err.kind, ErrorKind::SandboxViolation);
    assert!(check_template_rel("/etc/passwd").is_err());
    assert!(check_template_rel("nested/ok.txt").is_ok());
    let err = check_template_within("/t/files/x", "/t/files", "x", true).expect_err("symlink");
    assert_eq!(err.message(), "template symlinks are not allowed: x");
    assert!(check_template_within("/t/filesx/x", "/t/files", "x", false).is_err());
}

#[test]
fn fs_write_rejects_symlink_parent_escape() {
    // The resolved target lies outside the project directory.
    let err = check_project_within("/tmp/outside/owned.txt", "/tmp/x/out", "link/owned.txt", false)
        .expect_err("escape");
    assert!(err.message().contains("path escapes project dir"));
    assert!(check_project_within("/tmp/outside/owned.txt", "/tmp/x/out", "link/owned.txt", true).is_ok());
    assert!(check_project_within("/tmp/x/out", "/tmp/x/out", ".", false).is_ok());
    assert!(check_project_within("/tmp/x/out/a/b", "/tmp/x/out/", "a/b", false).is_ok());
    assert!(check_project_within("/tmp/x/outer", "/tmp/x/out", "../outer", false).is_err());
    assert!(check_project_rel("../x", false).is_err());
    assert!(check_project_rel("a/../x", true).is_ok());
    assert!(check_project_rel("a/..b", false).is_ok());
}

#[test]
fn exec_requires_declared_command() {
    let mut cfg = base_cfg();
    cfg.permissions = vec![Permission::Execution];
    let err = check_exec(&cfg, &strings(&["echo", "hello"]), ExecMode::Raw).expect_err("declared");
    assert!(err.message().contains("command not declared in [requires].commands"));
    cfg.allowed_commands = strings(&["echo"]);
    assert!(check_exec(&cfg, &strings(&["/bin/echo", "hi"]), ExecMode::Raw).is_ok());
}

#[test]
fn exec_clears_undeclared_environment() {
    let cfg = base_cfg();
    assert!(!cfg.has_permission(Permission::ReadEnv));
    assert_eq!(cfg.effective_env_allowlist(), strings(&["HOME", "USER", "PATH", "SHELL"]));
}

#[test]
fn exec_can_inherit_environment_with_read_env_permission() {
    let mut cfg = base_cfg();
    cfg.permissions = vec![Permission::Execution, Permission::ReadEnv];
    cfg.env_allowlist = strings(&["FORGE_ONLY"]);
    assert!(cfg.has_permission(Permission::ReadEnv));
    assert_eq!(cfg.effective_env_allowlist(), strings(&["FORGE_ONLY"]));
}

#[test]
fn exec_requires_execution_permission() {
    let mut cfg = base_cfg();
    cfg.allowed_commands = strings(&["echo"]);
    let err = check_exec(&cfg, &strings(&["echo", "hello"]), ExecMode::Raw).expect_err("permission");
    assert!(err.message().contains("requires [requires].permissions to include execution"));
    let err = check_exec(&cfg, &Vec::new(), ExecMode::Raw).expect_err("empty");
    assert_eq!(err.message(), "empty command");
}

#[test]
fn prog_git_init_requires_program_allowlist() {
    let cfg = base_cfg();
    let err = check_exec(&cfg, &git_init_argv(), ExecMode::Program).expect_err("allowlist");
    assert!(err.message().contains("program not declared in [requires].programs: git"));
}

#[test]
fn prog_git_init_does_not_require_execution_permission() {
    let mut cfg = base_cfg();
    cfg.allowed_commands = strings(&["git"]);
    let err = check_exec(&cfg, &git_init_argv(), ExecMode::Program).expect_err("allowlist");
    assert!(err.message().contains("program not declared in [requires].programs: git"));
    cfg.allowed_programs = strings(&["git"]);
    assert!(check_exec(&cfg, &git_init_argv(), ExecMode::Program).is_ok());
}

#[test]
fn prog_git_add_requires_arguments() {
    let err = git_add_argv(&Vec::new()).expect_err("must fail");
    assert!(err.message().contains("forge.prog.git.add requires at least one argument"));
    assert_eq!(git_add_argv(&strings(&["."])).expect("argv"), strings(&["git", "add", "."]));
}

#[test]
fn prog_git_commit_requires_message() {
    let err = git_commit_argv("   ").expect_err("must fail");
    assert!(err.message().contains("forge.prog.git.commit requires a non-empty message"));
    assert_eq!(
        git_commit_argv("init").expect("argv"),
        strings(&["git", "commit", "-m", "init"])
    );
}

fn cargo(cmd: CargoCommand, args: &[&str]) -> Vec<String> {
    cargo_argv(cmd, &strings(args)).expect("argv")
}

#[test]
fn prog_cargo_commands_emit_expected_argv() {
    let calls = vec![
        cargo(CargoCommand::Init, &["--bin"]),
        cargo(CargoCommand::New, &["cli-tool", "--bin"]),
        cargo(CargoCommand::Add, &["anyhow"]),
        cargo(CargoCommand::Build, &["--release"]),
        cargo(CargoCommand::Check, &[]),
        cargo(CargoCommand::Test, &["--all"]),
        cargo(CargoCommand::Run, &["--", "--help"]),
        cargo(CargoCommand::Fmt, &["--all"]),
        cargo(CargoCommand::Clippy, &["--all-targets"]),
        cargo(CargoCommand::GenLockfile, &[]),
    ];
    assert_eq!(
        calls,
        vec![
            vec!["cargo", "init", "--bin"],
            vec!["cargo", "new", "cli-tool", "--bin"],
            vec!["cargo", "add", "anyhow"],
            vec!["cargo", "build", "--release"],
            vec!["cargo", "check"],
            vec!["cargo", "test", "--all"],
            vec!["cargo", "run", "--", "--help"],
            vec!["cargo", "fmt", "--all"],
            vec!["cargo", "clippy", "--all-targets"],
            vec!["cargo", "generate-lockfile"],
        ]
    );
    let names: Vec<&str> = CargoCommand::all().iter().map(|c| c.lua_name()).collect();
    assert_eq!(names.len(), 10);
    assert!(names.contains(&"gen_lockfile"));
}

#[test]
fn prog_dotnet_commands_emit_expected_argv() {
    let sln = DotnetNewOptions {
        name: Some("my-app".into()),
        output: None,
        format: Some("slnx".into()),
        no_restore: false,
    };
    let console = DotnetNewOptions {
        name: Some("app".into()),
        output: Some("src/app".into()),
        format: None,
        no_restore: true,
    };
    let calls = vec![
        dotnet_new_argv("sln", Some(&sln)).expect("new sln"),
        dotnet_new_argv("console", Some(&console)).expect("new console"),
        dotnet_sln_add_argv("my-app.slnx", "src/app/app.csproj").expect("sln add"),
        dotnet_restore_argv("my-app.slnx", true).expect("restore"),
    ];
    assert_eq!(
        calls,
        vec![
            vec!["dotnet", "new", "sln", "--name", "my-app", "--format", "slnx"],
            vec!["dotnet", "new", "console", "--name", "app", "--output", "src/app", "--no-restore"],
            vec!["dotnet", "sln", "my-app.slnx", "add", "src/app/app.csproj"],
            vec!["dotnet", "restore", "my-app.slnx", "--use-lock-file"],
        ]
    );
}

#[test]
fn prog_dotnet_rejects_blank_values() {
    assert_eq!(
        dotnet_new_argv(" ", None).unwrap_err().message(),
        "forge.prog.dotnet.new requires a non-empty template"
    );
    let bad = DotnetNewOptions { name: Some(" ".into()), output: None, format: None, no_restore: false };
    assert_eq!(
        dotnet_new_argv("web", Some(&bad)).unwrap_err().message(),
        "forge.prog.dotnet.new option `name` must not be empty"
    );
    assert_eq!(
        dotnet_sln_add_argv("a.sln", "").unwrap_err().message(),
        "forge.prog.dotnet.sln_add requires a non-empty project"
    );
    assert_eq!(
        dotnet_restore_argv("", false).unwrap_err().message(),
        "forge.prog.dotnet.restore requires a non-empty solution"
    );
}

#[test]
fn prog_cargo_requires_program_allowlist() {
    let cfg = base_cfg();
    let argv = cargo(CargoCommand::Build, &[]);
    let err = check_exec(&cfg, &argv, ExecMode::Program).expect_err("allowlist");
    assert!(err.message().contains("program not declared in [requires].programs: cargo"));
}

#[test]
fn prog_cargo_new_requires_arguments() {
    let err = cargo_argv(CargoCommand::New, &strings(&[" ", ""])).expect_err("must fail");
    assert!(err.message().contains("forge.prog.cargo.new requires at least one argument"));
    assert_eq!(err.kind, ErrorKind::Exec);
}

#[test]
fn failed_commands_abort_unless_allowed() {
    let res = ExecResult { ok: false, code: 2, stdout: String::new(), stderr: "boom".into() };
    let err = exec_outcome(res.clone(), false).expect_err("abort");
    assert_eq!(err.kind, ErrorKind::Abort);
    assert_eq!(err.message(), "boom");
    assert_eq!(exec_outcome(res, true).expect("allowed").code, 2);
    let opts = ExecOptions::new();
    assert!(!opts.allow_fail && !opts.passthrough && opts.cwd.is_empty());
}

#[test]
fn default_prompts_answer_defaults() {
    let p = DefaultPrompts;
    assert_eq!(p.input("q", PromptInputOptions { default: "d".into() }).expect("input"), "d");
    assert!(p.confirm("q", PromptConfirmOptions { default: true }).expect("confirm"));
    let sel = PromptSelectOptions { message: "m".into(), options: strings(&["a", "b"]), default: String::new() };
    assert_eq!(p.select(sel).expect("select"), "a");
    let none = PromptSelectOptions { message: "m".into(), options: Vec::new(), default: String::new() };
    assert_eq!(
        p.select(none).unwrap_err().message(),
        "select prompt has no default and no options"
    );
}

#[test]
fn args_follow_their_schema() {
    let nil = ArgDefault { is_nil: true, is_true: false, text: String::new() };
    let text = ArgDefault { is_nil: false, is_true: false, text: "dflt".into() };
    assert!(matches!(plan_arg("n", "string", "Name", &text, None, false), Ok(ArgStep::UseDefault)));
    assert_eq!(
        plan_arg("n", "string", "Name", &nil, None, false).unwrap_err().message(),
        "missing prompt provider and no default for \"n\""
    );
    match plan_arg("n", "number", "Count", &text, None, true).expect("step") {
        ArgStep::Input { message, default } => {
            assert_eq!(message, "Count");
            assert_eq!(default, "dflt");
        }
        _ => panic!("expected input"),
    }
    assert_eq!(
        plan_arg("n", "select", "Pick", &nil, Some(&Vec::new()), true).unwrap_err().message(),
        "select arg \"n\" missing options"
    );
    assert_eq!(
        plan_arg("n", "color", "Pick", &nil, None, true).unwrap_err().message(),
        "unsupported arg type \"color\""
    );
    assert!(matches!(finish_arg("n", "string", "", &text, &Vec::new()), Ok(ArgValue::UseDefault)));
    assert!(matches!(finish_arg("n", "number", "3", &text, &Vec::new()), Ok(ArgValue::Number(s)) if s == "3"));
    assert_eq!(
        finish_arg("n", "select", "z", &nil, &strings(&["a"])).unwrap_err().message(),
        "invalid option \"z\" for \"n\""
    );
    assert!(matches!(finish_arg("n", "select", "a", &nil, &strings(&["a"])), Ok(ArgValue::Text(s)) if s == "a"));
    assert_eq!(validation_failed("n").message(), "validation failed for \"n\"");
}

#[test]
fn args_may_be_declared_once_and_init_runs_once() {
    let mut flags = RunFlags::new();
    assert!(flags.begin_init());
    assert!(!flags.begin_init());
    assert!(flags.declare_args().is_ok());
    assert_eq!(
        flags.declare_args().unwrap_err().message(),
        "forge.args may only be called once"
    );
    let e: LuaError = flags.abort("stop");
    assert!(flags.aborted);
    assert_eq!(e.message(), "stop");
}

#[test]
fn env_keys_follow_read_env_permission() {
    let mut cfg = base_cfg();
    let process = strings(&["HOME", "SECRET_TOKEN", "PATH"]);
    assert_eq!(
        cfg.visible_env_keys(process.clone()),
        strings(&["HOME", "USER", "PATH", "SHELL"])
    );
    cfg.env_allowlist = strings(&["FORGE_ONLY"]);
    assert_eq!(cfg.visible_env_keys(process.clone()), strings(&["FORGE_ONLY"]));
    cfg.permissions = vec![Permission::ReadEnv];
    assert_eq!(cfg.visible_env_keys(process.clone()), process);
}

#[test]
fn validate_results_keep_reprompt_or_stop() {
    assert!(matches!(validate_step("port", ValidateResult::Pass, true), ValidateStep::Accept));
    match validate_step("port", ValidateResult::Message("Must be between 1025 and 65535".to_string()), true) {
        ValidateStep::Reprompt(m) => assert_eq!(m, "Must be between 1025 and 65535"),
        other => panic!("unexpected {:?}", other),
    }
    match validate_step("port", ValidateResult::Message("too small".to_string()), false) {
        ValidateStep::Fail(e) => assert_eq!(e.msg, "validation failed for \"port\""),
        other => panic!("unexpected {:?}", other),
    }
    assert!(matches!(validate_step("port", ValidateResult::Message(String::new()), true), ValidateStep::Fail(_)));
    assert!(matches!(validate_step("port", ValidateResult::Other, true), ValidateStep::Fail(_)));
}

#[test]
fn text_and_literal_blocks_compose() {
    assert_eq!(
        render("pre %{{a}}% mid {{ n }} post", &["N"]).expect("render"),
        "pre {{a}} mid N post"
    );
    assert_eq!(exprs("pre %{{a}}% mid {{ n }} post"), vec!["n"]);
}

#[test]
fn pipe_blocks_are_reported_in_order_with_block_and_file() {
    assert_eq!(
        render("{{ a }} {{ b | c }} {{ d | e }}", &["A"]).unwrap_err(),
        "failed to render block {{ b | c }} in t.tpl: pipe helpers are no longer supported; use Lua expressions"
    );
    assert_eq!(exprs("{{ a }} {{ b | c }}"), vec!["a", "b | c"]);
    assert!(forge::render::check_block("x.tpl", "a").is_ok());
    assert_eq!(
        forge::render::check_block("x.tpl", "a|b").unwrap_err(),
        "failed to render block {{ a|b }} in x.tpl: pipe helpers are no longer supported; use Lua expressions"
    );
}
