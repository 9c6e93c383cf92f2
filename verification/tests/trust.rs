use forge::checksum::{checksum_files, FileContent};
use forge::trust::{TrustError, TrustManager, TrustedEntry};

fn file(rel: &str, body: &str) -> FileContent {
    FileContent { rel: rel.to_string(), bytes: body.as_bytes().to_vec() }
}

fn sum(files: &[(&str, &str)]) -> String {
    checksum_files(files.iter().map(|(r, b)| file(r, b)).collect())
}

#[test]
fn trusts_and_validates_directory() {
    let mut tm = TrustManager::new("trust/trusted.json", Vec::new());
    let c = sum(&[("a.txt", "hello")]);
    tm.trust_dir("/t/template", &c);
    assert!(tm.is_dir_trusted("/t/template", &c));
}

#[test]
fn invalidates_when_contents_change() {
    let mut tm = TrustManager::new("trust/trusted.json", Vec::new());
    tm.trust_dir("/t/template", &sum(&[("a.txt", "hello")]));
    assert!(!tm.is_dir_trusted("/t/template", &sum(&[("a.txt", "changed")])));
    assert!(tm.list_entries().is_empty());
}

#[test]
fn invalidates_when_file_set_changes() {
    let mut tm = TrustManager::new("trust/trusted.json", Vec::new());
    tm.trust_dir("/t/template", &sum(&[("a.txt", "hello")]));
    assert!(!tm.is_dir_trusted("/t/template", &sum(&[("a.txt", "hello"), ("b.txt", "new")])));
}

#[test]
fn revoke_removes_entry() {
    let mut tm = TrustManager::new("trust/trusted.json", Vec::new());
    let c = sum(&[("a.txt", "hello")]);
    tm.trust_dir("/t/template", &c);
    assert!(tm.revoke_dir("/t/template"));
    assert!(!tm.revoke_dir("/t/template"));
    assert!(!tm.is_dir_trusted("/t/template", &c));
}

#[test]
fn missing_store_is_empty() {
    let mut tm = TrustManager::new("trust/trusted.json", Vec::new());
    assert!(!tm.is_dir_trusted("/t/template", &sum(&[("a.txt", "hello")])));
}

#[test]
fn deterministic_checksum_across_rechecks() {
    let mut tm = TrustManager::new("trust/trusted.json", Vec::new());
    let c = sum(&[("nested/b.txt", "world"), ("a.txt", "hello")]);
    tm.trust_dir("/t/template", &c);
    assert!(tm.is_dir_trusted("/t/template", &sum(&[("a.txt", "hello"), ("nested/b.txt", "world")])));
    assert!(tm.is_dir_trusted("/t/template", &c));
}

#[test]
fn checksum_ignores_file_order_and_is_hex() {
    let a = sum(&[("a.txt", "1"), ("b.txt", "2")]);
    let b = sum(&[("b.txt", "2"), ("a.txt", "1")]);
    assert_eq!(a, b);
    assert_eq!(a.len(), 64);
    assert!(a.chars().all(|c| c.is_ascii_hexdigit() && !c.is_ascii_uppercase()));
    assert_ne!(a, sum(&[("a.txt", "12"), ("b.txt", "")]));
}

#[test]
fn checksum_of_empty_directory_is_sha256_of_nothing() {
    assert_eq!(
        sum(&[]),
        "e3b0c44298fc1c149afbf4c8996fb92427ae41e4649b934ca495991b7852b855"
    );
}

#[test]
fn checksum_hashes_path_zero_contents_zero() {
    // SHA-256 of "a\0x\0".
    assert_eq!(
        sum(&[("a", "x")]),
        "9702daf1994748818090bc1579c00984a67885e04aea8046fb1f1c5826564acb"
    );
}

#[test]
fn entries_are_listed_by_path_and_loaded_last_wins() {
    let tm = TrustManager::new(
        "trust.json",
        vec![
            TrustedEntry { path: "/b".into(), checksum: "1".into() },
            TrustedEntry { path: "/a".into(), checksum: "2".into() },
            TrustedEntry { path: "/b".into(), checksum: "3".into() },
        ],
    );
    let listed: Vec<(String, String)> =
        tm.list_entries().into_iter().map(|e| (e.path, e.checksum)).collect();
    assert_eq!(
        listed,
        vec![("/a".to_string(), "2".to_string()), ("/b".to_string(), "3".to_string())]
    );
    assert_eq!(tm.store_path(), "trust.json");
}

#[test]
fn trust_error_messages() {
    assert_eq!(TrustError::InvalidPath("x".into()).message(), "x");
    assert_eq!(TrustError::Json("bad".into()).message(), "bad");
}

#[test]
fn trust_of_one_directory_leaves_others_alone() {
    let mut tm = TrustManager::new("trust/trusted.json", Vec::new());
    let a = sum(&[("a.txt", "hello")]);
    let b = sum(&[("b.txt", "world")]);
    tm.trust_dir("/t/a", &a);
    tm.trust_dir("/t/b", &b);
    assert!(tm.revoke_dir("/t/a"));
    assert!(tm.is_dir_trusted("/t/b", &b));
    assert!(!tm.is_dir_trusted("/t/a", &a));
}

#[test]
fn entries_are_known_until_revoked() {
    let mut tm = TrustManager::new("trust/trusted.json", Vec::new());
    assert!(!tm.has_entry("/t/a"));
    tm.trust_dir("/t/a", &sum(&[("a.txt", "hello")]));
    assert!(tm.has_entry("/t/a"));
    tm.revoke_dir("/t/a");
    assert!(!tm.has_entry("/t/a"));
}
