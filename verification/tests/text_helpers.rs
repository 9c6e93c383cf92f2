use forge::casing::{to_camel, to_kebab, to_pascal, to_snake, words};
use forge::lua::file_name;
use forge::order::str_less;
use forge::paths::{command_candidates, has_parent_component, join_path, path_components, path_within};
use forge::stdlib::{path_basename, path_ext, path_stem, split_str, str_ends_with, str_starts_with};
use forge::render::{default_destination, dir_item, trim_end_matches, walk_order, DirItem, WalkEntry};

fn word_strings(s: &str) -> Vec<String> {
    words(s).into_iter().map(|w| w.into_iter().collect()).collect()
}

#[test]
fn casing_splits_words() {
    assert_eq!(word_strings("hello-world_again now"), vec!["hello", "world", "again", "now"]);
    assert_eq!(word_strings("HelloWorld"), vec!["hello", "world"]);
    assert_eq!(word_strings("  "), Vec::<String>::new());
}

#[test]
fn casing_conversions() {
    assert_eq!(to_snake("HelloWorld"), "hello_world");
    assert_eq!(to_kebab("my_app name"), "my-app-name");
    assert_eq!(to_pascal("my-app"), "MyApp");
    assert_eq!(to_camel("my-app"), "myApp");
    assert_eq!(to_camel(""), "");
}

#[test]
fn snake_and_kebab_convert_into_each_other() {
    for s in ["My Fancy-app", "already_snake", "kebab-case-here", "x"] {
        assert_eq!(to_kebab(&to_snake(s)), to_kebab(s));
        assert_eq!(to_snake(&to_kebab(s)), to_snake(s));
    }
}

#[test]
fn path_helpers() {
    assert_eq!(join_path("/a", "b"), "/a/b");
    assert_eq!(join_path("/a/", "b"), "/a/b");
    assert_eq!(join_path("/a", "/b"), "/b");
    assert_eq!(join_path("", "b"), "b");
    assert!(has_parent_component("a/../b"));
    assert!(!has_parent_component("a/..b"));
    assert_eq!(path_components("/a//b/./c/"), vec!["/", "a", "b", "c"]);
    assert_eq!(path_components("./a"), vec![".", "a"]);
    assert!(path_within("/a/b", "/a"));
    assert!(!path_within("/ab", "/a"));
    assert_eq!(file_name("/usr/bin/git"), Some("git".to_string()));
    assert_eq!(file_name("a/.."), None);
    assert_eq!(file_name("dir/./"), Some("dir".to_string()));
    assert_eq!(file_name("/"), None);
}

#[test]
fn string_order_is_code_point_order() {
    assert!(str_less("a", "b"));
    assert!(str_less("a", "ab"));
    assert!(!str_less("b", "ab"));
    assert!(!str_less("x", "x"));
    assert!(str_less("Z", "a"));
}

#[test]
fn render_destinations() {
    assert_eq!(default_destination("README.md.tpl"), "README.md");
    assert_eq!(default_destination("a.tpl.tpl"), "a");
    assert_eq!(trim_end_matches("dir///", "/"), "dir");
    match dir_item("src/", "out/", "a/b.txt.tpl") {
        DirItem::Render { src, dst } => {
            assert_eq!(src, "src/a/b.txt.tpl");
            assert_eq!(dst, "out/a/b.txt");
        }
        _ => panic!("expected render"),
    }
    match dir_item("src", ".", "x.bin") {
        DirItem::Copy { dst } => assert_eq!(dst, "x.bin"),
        _ => panic!("expected copy"),
    }
    let order = walk_order(vec![
        WalkEntry { path: "/t/b".into(), rel: "b".into() },
        WalkEntry { path: "/t/a/z".into(), rel: "a/z".into() },
    ]);
    assert_eq!(order[0].rel, "a/z");
    assert_eq!(
        forge::render::missing_source_dir("x"),
        "source directory not found: x"
    );
}

#[test]
fn render_error_message() {
    assert_eq!(
        forge::render::render_err("a.tpl", "x", "boom"),
        "failed to render block {{ x }} in a.tpl: boom"
    );
}

#[test]
fn casing_doc_examples() {
    assert_eq!(to_camel("hello-world"), "helloWorld");
    assert_eq!(to_pascal("hello-world"), "HelloWorld");
    assert_eq!(to_snake("hello-world"), "hello_world");
    assert_eq!(to_kebab("helloWorld"), "hello-world");
}

#[test]
fn case_conversions_are_idempotent() {
    for s in ["helloWorld", "Hello World", "a-b_c"] {
        assert_eq!(to_snake(&to_snake(s)), to_snake(s));
        assert_eq!(to_kebab(&to_kebab(s)), to_kebab(s));
    }
}

#[test]
fn command_candidates_follow_path() {
    assert_eq!(
        command_candidates("git", Some("/usr/bin:/bin/")),
        vec!["/usr/bin/git".to_string(), "/bin/git".to_string()]
    );
    assert_eq!(command_candidates("./tool", Some("/usr/bin")), vec!["./tool".to_string()]);
    assert!(command_candidates("  ", Some("/usr/bin")).is_empty());
    assert!(command_candidates("git", None).is_empty());
}

#[test]
fn stdlib_string_helpers() {
    assert_eq!(split_str("a,b,c", ","), vec!["a", "b", "c"]);
    assert_eq!(split_str("a::b::", "::"), vec!["a", "b", ""]);
    assert_eq!(split_str("aaa", "aa"), vec!["", "a"]);
    assert_eq!(split_str("abc", ""), vec!["abc"]);
    assert_eq!(split_str("", ","), vec![""]);
    assert!(str_starts_with("forge", "for"));
    assert!(!str_starts_with("fo", "for"));
    assert!(str_ends_with("forge", "rge"));
    assert!(!str_ends_with("forge", "for"));
    assert!(str_ends_with("forge", ""));
}

#[test]
fn stdlib_path_helpers() {
    assert_eq!(path_basename("src/main.rs"), "main.rs");
    assert_eq!(path_basename("src/.."), "");
    assert_eq!(path_stem("main.rs"), "main");
    assert_eq!(path_stem("archive.tar.gz"), "archive.tar");
    assert_eq!(path_stem(".bashrc"), ".bashrc");
    assert_eq!(path_ext("main.rs"), "rs");
    assert_eq!(path_ext("archive.tar.gz"), "gz");
    assert_eq!(path_ext(".bashrc"), "");
    assert_eq!(path_ext("Makefile"), "");
    assert_eq!(path_ext("dir/file."), "");
}
