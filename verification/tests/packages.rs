use forge::checksum::{checksum_files, FileContent};
use forge::packages::{
    needs_selection, parse_selection, probed_package, repo_display_name, update_targets,
    InstalledTemplate, PackageIndex, PackageManager, PackageRecord, ProbedTemplate,
};

fn template(name: &str) -> ProbedTemplate {
    ProbedTemplate {
        name: name.to_string(),
        path: name.to_string(),
        full_path: format!("/repo/{}", name),
        version: "1.0.0".to_string(),
        description: "desc".to_string(),
    }
}

fn manager() -> PackageManager {
    PackageManager::global(Some("/home/u")).expect("manager")
}

fn install(
    m: &PackageManager,
    index: &mut PackageIndex,
    repo: &str,
    templates: Vec<ProbedTemplate>,
    names: &[&str],
) -> Result<Vec<String>, String> {
    let probed = probed_package("/repo", templates);
    let names: Vec<String> = names.iter().map(|s| s.to_string()).collect();
    let plan = m.plan_install(repo, &probed, &names, index)?;
    if let Some(conflict) = plan.conflict {
        return Err(conflict);
    }
    let mut done = Vec::new();
    for t in plan.install {
        PackageManager::record_install(index, &t.name, repo, "2024-01-01T00:00:00Z", "abc");
        done.push(t.name);
    }
    Ok(done)
}

#[test]
fn install_templates_rejects_conflicting_repo() {
    let m = manager();
    let mut index = PackageIndex::empty();
    install(&m, &mut index, "https://example.com/a.git", vec![template("fullstack")], &["fullstack"])
        .expect("first install");
    let err = install(&m, &mut index, "https://example.com/b.git", vec![template("fullstack")], &["fullstack"])
        .expect_err("conflict");
    assert!(err.contains("already installed"));
    assert_eq!(
        err,
        "template 'fullstack' is already installed from 'https://example.com/a.git'"
    );
}

#[test]
fn reinstall_from_same_repo_is_allowed() {
    let m = manager();
    let mut index = PackageIndex::empty();
    install(&m, &mut index, "r", vec![template("x")], &["x"]).expect("first");
    assert_eq!(install(&m, &mut index, "r", vec![template("x")], &["x"]).expect("again"), vec!["x"]);
}

#[test]
fn install_requires_a_known_selection() {
    let m = manager();
    let mut index = PackageIndex::empty();
    assert_eq!(
        install(&m, &mut index, "r", vec![template("a")], &[]).unwrap_err(),
        "template selection cannot be empty"
    );
    assert_eq!(
        install(&m, &mut index, "r", vec![template("a")], &["zeta", "b", "zeta", "a"]).unwrap_err(),
        "unknown template selection: b, zeta"
    );
}

#[test]
fn install_stops_at_first_conflict() {
    let m = manager();
    let mut index = PackageIndex::empty();
    install(&m, &mut index, "old", vec![template("b")], &["b"]).expect("seed");
    let probed = probed_package("/repo", vec![template("c"), template("b"), template("a")]);
    let names = vec!["a".to_string(), "b".to_string(), "c".to_string()];
    let plan = m.plan_install("new", &probed, &names, &index).expect("plan");
    let first: Vec<String> = plan.install.into_iter().map(|t| t.name).collect();
    assert_eq!(first, vec!["a"]);
    assert_eq!(plan.conflict.unwrap(), "template 'b' is already installed from 'old'");
}

#[test]
fn probe_repo_reads_templates_and_manifests() {
    let probed = probed_package("/repo", vec![template("rust"), template("fullstack")]);
    assert_eq!(probed.templates.len(), 2);
    assert_eq!(probed.templates[0].name, "fullstack");
    assert_eq!(probed.templates[1].name, "rust");
}

#[test]
fn probe_missing_directory_message() {
    assert_eq!(
        forge::packages::missing_directory_message("fullstack", "/r/templates/fullstack"),
        "template 'fullstack' points to missing directory '/r/templates/fullstack'"
    );
}

#[test]
fn list_and_remove_templates() {
    let m = manager();
    let mut index = PackageIndex::empty();
    install(&m, &mut index, "r", vec![template("b"), template("a"), template("c")], &["a", "b", "c"])
        .expect("install");
    let listed: Vec<String> = m.list(&index).into_iter().map(|(n, _)| n).collect();
    assert_eq!(listed, vec!["a", "b", "c"]);
    let removed = m.remove_templates(&mut index, &vec!["c".into(), "x".into(), "a".into(), "c".into()]);
    assert_eq!(removed, vec!["a", "c"]);
    assert_eq!(m.list(&index).len(), 1);
    let rest = m.remove_all(&mut index);
    assert_eq!(rest, vec!["b"]);
    assert!(m.list(&index).is_empty());
}

#[test]
fn records_hold_install_details() {
    let mut index = PackageIndex::empty();
    PackageManager::record_install(&mut index, "web", "repo", "now", "sum");
    let m = manager();
    let (name, rec) = m.list(&index).into_iter().next().expect("one");
    assert_eq!(name, "web");
    assert_eq!(rec.repo, "repo");
    assert_eq!(rec.ref_name, "main");
    assert_eq!(rec.installed_at, "now");
    assert_eq!(rec.checksum, "sum");
}

#[test]
fn manager_paths_and_home() {
    let m = manager();
    assert_eq!(m.forge_root, "/home/u/.forge");
    assert_eq!(m.packages_root, "/home/u/.forge/packages");
    assert_eq!(m.index_path, "/home/u/.forge/packages.json");
    assert_eq!(m.destination("web"), "/home/u/.forge/packages/web");
    assert_eq!(PackageManager::global(None).err().unwrap(), "HOME is not set");
}

#[test]
fn installed_are_sorted_by_name() {
    let v = PackageManager::sort_installed(vec![
        InstalledTemplate { name: "z".into(), destination: "1".into(), checksum: "c".into() },
        InstalledTemplate { name: "m".into(), destination: "2".into(), checksum: "c".into() },
    ]);
    assert_eq!(v[0].name, "m");
}

#[test]
fn command_helpers() {
    assert_eq!(repo_display_name("https://github.com/acme/templates.git"), "templates");
    assert_eq!(repo_display_name("local"), "local");
    assert_eq!(needs_selection(&vec![], false).unwrap_err(), "provide at least one template or use --interactive");
    assert_eq!(needs_selection(&vec![], true), Ok(true));
    assert_eq!(needs_selection(&vec!["a".into()], false), Ok(false));
    assert_eq!(parse_selection(" a, ,b ,").expect("names"), vec!["a", "b"]);
    assert_eq!(parse_selection(" , ").unwrap_err(), "no templates selected");
}

#[test]
fn update_covers_wanted_or_all() {
    let mut index = PackageIndex::empty();
    PackageManager::record_install(&mut index, "b", "r", "t", "c");
    PackageManager::record_install(&mut index, "a", "r", "t", "c");
    let m = manager();
    let entries = m.list(&index);
    let pair = |n: &str| (n.to_string(), "r".to_string());
    assert_eq!(update_targets(&entries, &vec![]), vec![pair("a"), pair("b")]);
    assert_eq!(update_targets(&entries, &vec!["b".into(), "q".into()]), vec![pair("b")]);
}

#[test]
fn index_from_entries_last_wins() {
    let rec = |r: &str| PackageRecord {
        repo: r.into(),
        ref_name: "main".into(),
        installed_at: "t".into(),
        checksum: "c".into(),
    };
    let index = PackageIndex::from_entries(1, vec![("x".into(), rec("one")), ("x".into(), rec("two"))]);
    let m = manager();
    let list = m.list(&index);
    assert_eq!(list.len(), 1);
    assert_eq!(list[0].1.repo, "two");
}

#[test]
fn checksum_changes_when_file_changes() {
    let one = vec![FileContent { rel: "a.txt".to_string(), bytes: b"one".to_vec() }];
    let two = vec![FileContent { rel: "a.txt".to_string(), bytes: b"two".to_vec() }];
    let c1 = checksum_files(one);
    let c2 = checksum_files(two);
    assert_ne!(c1, c2);
}
