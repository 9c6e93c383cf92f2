use forge::config::ConfigStorage;
use forge::manifest::{load_and_validate, Manifest, Permission};
use forge::paths::PathLayout;
use forge::templates::{trust_step, TrustStep, 
    check_run_start, list_sources, needs_trust, parse_trust_answer, permission_summary,
    removal_check, resolve, runtime_config, scan_render_refs, scope_from_flags, source_label,
    validation_errors, DirFacts, ResolveScope, TemplateRecord, TemplateResolver, TemplateSource,
    TrustChoice,
};

fn layout() -> PathLayout {
    PathLayout::discover("/root/project", Some("/root/home")).expect("layout")
}

fn manifest(name: &str, description: &str) -> Manifest {
    let text = format!(
        "[package]\nname = \"{}\"\nversion = \"1.0.0\"\ndescription = \"{}\"\nmin_forge_version = \"0.1.0\"\n",
        name, description
    );
    load_and_validate(&text, Some(name), "0.1.0", &Vec::new()).expect("manifest")
}

fn record(name: &str, source: TemplateSource) -> TemplateRecord {
    TemplateRecord {
        name: name.to_string(),
        dir: format!("/t/{}", name),
        source,
        manifest: manifest(name, "d"),
    }
}

const ONLY_PACKAGE: DirFacts = DirFacts { local: false, global: false, package: true };

#[test]
fn preferred_resolution_falls_back_to_package_templates() {
    let rec = TemplateResolver::new(layout())
        .resolve_preferred("webapp", ResolveScope::Local, &ONLY_PACKAGE)
        .expect("resolve package fallback");
    assert_eq!(rec.source, TemplateSource::Package);
    assert_eq!(rec.dir, "/root/home/.forge/packages/webapp");
}

#[test]
fn explicit_scoped_resolution_does_not_fall_back_to_package_templates() {
    let err = TemplateResolver::new(layout())
        .resolve_scoped("webapp", ResolveScope::Local, &ONLY_PACKAGE)
        .expect_err("local should not fall back to package");
    assert!(err.contains("template 'webapp' not found"));
}

#[test]
fn list_includes_package_templates_when_requested() {
    let records = TemplateResolver::new(layout()).list(
        true,
        false,
        true,
        vec![record("local-template", TemplateSource::Local)],
        vec![record("global-template", TemplateSource::Global)],
        vec![record("package-template", TemplateSource::Package)],
    );
    let sources: Vec<_> = records.iter().map(|rec| rec.source).collect();
    assert_eq!(records.len(), 2);
    assert!(sources.contains(&TemplateSource::Local));
    assert!(sources.contains(&TemplateSource::Package));
    assert_eq!(records[0].name, "local-template");
}

#[test]
fn resolve_prefers_local_then_global_then_package() {
    let r = TemplateResolver::new(layout());
    let all = DirFacts { local: true, global: true, package: true };
    assert_eq!(r.resolve("web", false, &all).expect("local").dir, "/root/project/.forge/templates/web");
    assert_eq!(r.resolve("web", true, &all).expect("global").source, TemplateSource::Global);
    let no_local = DirFacts { local: false, global: true, package: true };
    assert_eq!(r.resolve("web", false, &no_local).expect("global").dir, "/root/home/.forge/templates/web");
    assert_eq!(r.resolve("web", false, &ONLY_PACKAGE).expect("package").source, TemplateSource::Package);
    let none = DirFacts { local: false, global: false, package: false };
    assert_eq!(r.resolve("web", false, &none).unwrap_err(), "template 'web' not found");
    assert_eq!(r.resolve("web", true, &ONLY_PACKAGE).unwrap_err(), "template 'web' not found");
}

#[test]
fn layout_paths() {
    let l = layout();
    assert_eq!(l.local_root, "/root/project/.forge");
    assert_eq!(l.local_templates, "/root/project/.forge/templates");
    assert_eq!(l.trust_file, "/root/home/.forge/trust.json");
    assert_eq!(l.config_file, "/root/home/.forge/config.toml");
    assert_eq!(l.fields_file, "/root/home/.forge/fields.json");
    assert_eq!(PathLayout::discover("/x", None).unwrap_err(), "HOME is not set");
}

#[test]
fn scope_comes_from_flags_then_config() {
    assert_eq!(scope_from_flags(true, true), Some(ResolveScope::Local));
    assert_eq!(scope_from_flags(false, true), Some(ResolveScope::Global));
    assert_eq!(scope_from_flags(false, false), None);
    let cfg = ConfigStorage::new("c.toml", Some("[templates]\ndefault_scope = \"global\"\n")).expect("cfg");
    assert_eq!(resolve(false, false, &cfg), ResolveScope::Global);
    assert_eq!(resolve(true, false, &cfg), ResolveScope::Local);
    let dflt = ConfigStorage::new("c.toml", None).expect("cfg");
    assert_eq!(resolve(false, false, &dflt), ResolveScope::Local);
}

#[test]
fn missing_main_lua_does_not_create_project_dir() {
    let err = check_run_start("/tmp/app", false, false).expect_err("missing main.lua");
    assert!(err.contains("template is missing main.lua"));
    assert_eq!(
        check_run_start("/tmp/app", true, true).unwrap_err(),
        "output directory already exists: /tmp/app"
    );
    assert!(check_run_start("/tmp/app", false, true).is_ok());
}

#[test]
fn trust_is_needed_for_permissions_or_programs() {
    let plain = manifest("basic", "d");
    assert!(!needs_trust(&plain));
    let text = "[package]\nname = \"basic\"\nversion = \"1.0.0\"\ndescription = \"d\"\nmin_forge_version = \"0.1.0\"\n[requires]\nprograms = [\"git\"]\n";
    let m = load_and_validate(text, Some("basic"), "0.1.0", &vec!["git".to_string()]).expect("m");
    assert!(needs_trust(&m));
    let rec = TemplateRecord { name: "basic".into(), dir: "/t/basic".into(), source: TemplateSource::Local, manifest: m };
    let cfg = runtime_config(&rec, "app", "/w/app", vec![("k".into(), "v".into())]);
    assert_eq!(cfg.allowed_programs, vec!["git"]);
    assert!(cfg.allowed_commands.is_empty());
    assert_eq!(cfg.project_dir, "/w/app");
    assert_eq!(cfg.template_dir, "/t/basic");
    assert_eq!(cfg.fields.len(), 1);
}

#[test]
fn permission_summary_lines() {
    let lines = permission_summary(
        "fullstack",
        &vec![Permission::Execution, Permission::Network],
        &vec!["git".to_string(), "docker".to_string()],
        &vec!["cargo".to_string()],
    );
    assert_eq!(
        lines,
        vec![
            "Template \"fullstack\" is requesting elevated permissions:\n",
            "  • exec        — may execute external commands: git, docker",
            "  • network     — may make network requests",
            "  • program     — use the following program APIs: cargo",
        ]
    );
}

#[test]
fn trust_answers() {
    assert_eq!(parse_trust_answer(" Y \n"), Some(TrustChoice::Trust));
    assert_eq!(parse_trust_answer("yes"), Some(TrustChoice::Trust));
    assert_eq!(parse_trust_answer("NO"), Some(TrustChoice::RunOnce));
    assert_eq!(parse_trust_answer("q"), Some(TrustChoice::Quit));
    assert_eq!(parse_trust_answer("Quit"), Some(TrustChoice::Quit));
    assert_eq!(parse_trust_answer("maybe"), None);
}

#[test]
fn render_refs_are_found() {
    let refs = scan_render_refs("forge.render('a.tpl')\nforge.render_to( \"dir/b.txt\", 'x')\nforge.render(name)");
    assert_eq!(refs, vec!["a.tpl", "dir/b.txt"]);
}

#[test]
fn validation_error_lists() {
    assert_eq!(validation_errors(false, None, &vec![], &vec![]), vec!["main.lua missing"]);
    assert_eq!(
        validation_errors(true, Some("bad"), &vec!["a".into(), "b".into()], &vec![true, false]),
        vec!["main.lua syntax error: bad", "referenced file not found: files/b"]
    );
    assert!(validation_errors(true, None, &vec!["a".into()], &vec![true]).is_empty());
}

#[test]
fn removal_reports_missing_sorted() {
    let names = vec!["z".to_string(), "a".to_string(), "m".to_string(), "z".to_string()];
    assert_eq!(
        removal_check(&names, &vec![false, false, true, false], ResolveScope::Global).unwrap_err(),
        "global template(s) not found: a, z, z"
    );
    assert_eq!(
        removal_check(&names, &vec![true; 4], ResolveScope::Local).unwrap(),
        vec!["a".to_string(), "m".to_string(), "z".to_string(), "z".to_string()]
    );
}

#[test]
fn list_flags_and_labels() {
    assert_eq!(list_sources(false, true), (true, false, false));
    assert_eq!(list_sources(true, false), (false, true, false));
    assert_eq!(list_sources(false, false), (true, true, true));
    assert_eq!(source_label(TemplateSource::Package), "package");
}

#[test]
fn trust_steps_follow_the_answers() {
    assert_eq!(trust_step(false, false, false, None), TrustStep::Run);
    assert_eq!(trust_step(true, true, false, None), TrustStep::Run);
    assert_eq!(trust_step(true, false, true, None), TrustStep::RunOnce { by_default: true });
    assert_eq!(trust_step(true, false, false, None), TrustStep::Ask);
    assert_eq!(trust_step(true, false, false, Some(" Y\n")), TrustStep::TrustAndRun);
    assert_eq!(trust_step(true, false, false, Some("no")), TrustStep::RunOnce { by_default: false });
    assert_eq!(trust_step(true, false, false, Some("q")), TrustStep::Quit);
    assert_eq!(trust_step(true, false, false, Some("maybe")), TrustStep::Ask);
}
