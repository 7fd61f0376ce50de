use enact_core::path_sanitizer::{
    check_within, jail_of, prefix_decision, safe_resolve, safe_resolve_within, within_decision, Probe,
};
use std::path::{Path, PathBuf};

fn text(p: &Path) -> String {
    p.to_string_lossy().to_string()
}

fn subdir(parent: &Path, name: &str) -> tempfile::TempDir {
    tempfile::Builder::new().prefix(name).rand_bytes(0).tempdir_in(parent).unwrap()
}

#[test]
fn test_simple_path() {
    let base = Path::new("/tmp");
    let result = safe_resolve(base.to_str().unwrap(), "foo/bar.txt").unwrap();
    assert_eq!(PathBuf::from(result), PathBuf::from("/tmp/foo/bar.txt"));
}

#[test]
fn test_reject_parent_dir() {
    let base = Path::new("/tmp");
    let err = safe_resolve(base.to_str().unwrap(), "../etc/passwd").unwrap_err();
    assert!(err.to_string().contains("path traversal"));
}

#[test]
fn test_reject_hidden_traversal() {
    let base = Path::new("/tmp");
    let err = safe_resolve(base.to_str().unwrap(), "foo/../../etc/passwd").unwrap_err();
    assert!(err.to_string().contains("path traversal"));
}

#[test]
fn test_reject_absolute_path() {
    let base = Path::new("/tmp");
    let err = safe_resolve(base.to_str().unwrap(), "/etc/passwd").unwrap_err();
    assert!(err.to_string().contains("path traversal"));
}

#[test]
fn test_existing_path() {
    let base = Path::new("/tmp");
    let result = safe_resolve(base.to_str().unwrap(), "nonexistent_safe_file.txt").unwrap();
    assert!(result.contains("nonexistent_safe_file"));
}

#[test]
fn traversal_messages_name_the_path() {
    let err = safe_resolve("/tmp", "/etc/passwd").unwrap_err();
    assert_eq!(err.to_string(), "path traversal attempt: /etc/passwd");
    let err = safe_resolve("/tmp", "a/../b").unwrap_err();
    assert_eq!(err.to_string(), "path traversal attempt: a/../b");
}

#[test]
fn within_allows_relative_and_refuses_outside_absolute() {
    let roots = vec!["/tmp".to_string()];
    let ok = safe_resolve_within("/tmp", "rel_enact_file", &roots).unwrap();
    assert!(ok.ends_with("rel_enact_file"));
    let err = safe_resolve_within("/tmp", "/etc/passwd", &roots).unwrap_err();
    assert_eq!(err.to_string(), "path traversal attempt: '/etc/passwd' is not under any allowed root");
    assert!(safe_resolve_within("/tmp", "/tmp", &[]).is_err());
}

#[test]
fn test_safe_resolve_within_allows_absolute_under_root() {
    let root = tempfile::tempdir().unwrap();
    let sub = subdir(root.path(), "actions");
    let abs_path = text(sub.path());
    let result = safe_resolve_within(&text(root.path()), &abs_path, &[text(root.path())]);
    assert!(result.is_ok());
}

#[test]
fn within_allows_a_new_absolute_path_under_a_root() {
    let root = tempfile::tempdir().unwrap();
    let canonical = root.path().canonicalize().unwrap();
    let new_path = text(&canonical.join("new"));
    let result = safe_resolve_within(&text(root.path()), &new_path, &[text(root.path())]);
    assert_eq!(result.ok(), Some(new_path));
}

#[test]
fn within_refuses_a_new_absolute_path_under_no_root() {
    let root = tempfile::tempdir().unwrap();
    let other = tempfile::tempdir().unwrap();
    let new_path = text(&other.path().canonicalize().unwrap().join("new"));
    let err = safe_resolve_within(&text(root.path()), &new_path, &[text(root.path())]).unwrap_err();
    assert_eq!(err.to_string(), format!("path traversal attempt: '{}' is not under any allowed root", new_path));
}

#[test]
fn existing_path_resolves_to_its_canonical_form_under_the_jail() {
    let jail = tempfile::tempdir().unwrap();
    let sub = subdir(jail.path(), "inner");
    let result = safe_resolve(&text(jail.path()), "inner").unwrap();
    assert_eq!(PathBuf::from(result), sub.path().canonicalize().unwrap());
    let result = safe_resolve(&text(jail.path()), "inner/./missing.txt").unwrap();
    assert_eq!(PathBuf::from(result), jail.path().join("inner/./missing.txt"));
}

#[test]
fn decisions_on_file_system_answers() {
    assert_eq!(jail_of("/b", Probe::Missing).ok(), Some("/b".to_string()));
    assert_eq!(jail_of("/b", Probe::Resolved("/real/b".into())).ok(), Some("/real/b".to_string()));
    let e = jail_of("/b", Probe::Unresolved("denied".into())).unwrap_err();
    assert_eq!(e.to_string(), "path traversal attempt: cannot resolve base '/b': denied");

    assert_eq!(prefix_decision("/j/a".into(), Probe::Missing, "/j", "a/x", "/b").ok(), Some("/j/a".to_string()));
    assert_eq!(
        prefix_decision("/j/a".into(), Probe::Resolved("/j/real".into()), "/j", "a/x", "/b").ok(),
        Some("/j/real".to_string())
    );
    let e = prefix_decision("/j/a".into(), Probe::Resolved("/elsewhere".into()), "/j", "a/x", "/b").unwrap_err();
    assert_eq!(e.to_string(), "path traversal attempt: 'a/x' resolves outside of '/b'");
    let e = prefix_decision("/j/a".into(), Probe::Unresolved("loop".into()), "/j", "a/x", "/b").unwrap_err();
    assert_eq!(e.to_string(), "path traversal attempt: cannot resolve '/j/a': loop");

    assert_eq!(check_within("/j/x".into(), "/j", "x", "/b").ok(), Some("/j/x".to_string()));
    assert!(check_within("/jx".into(), "/j", "x", "/b").is_err());

    let roots = vec![Err("gone".to_string()), Ok("/r".to_string())];
    assert_eq!(within_decision("/r/a", Probe::Missing, true, &roots).ok(), Some("/r/a".to_string()));
    assert!(within_decision("/r/a", Probe::Missing, false, &roots).is_err());
    assert_eq!(within_decision("/r/a", Probe::Resolved("/r/b".into()), false, &roots).ok(), Some("/r/b".to_string()));
    let e = within_decision("/q/a", Probe::Missing, true, &roots).unwrap_err();
    assert_eq!(e.to_string(), "path traversal attempt: '/q/a' is not under any allowed root");
    let e = within_decision("/r/a", Probe::Unresolved("bad".into()), true, &roots).unwrap_err();
    assert_eq!(e.to_string(), "path traversal attempt: cannot resolve '/r/a': bad");
}

#[test]
fn test_safe_resolve_within_rejects_absolute_outside_roots() {
    let root = "/tmp";
    let result = safe_resolve_within(root, "/etc/passwd", &[root.to_string()]);
    assert!(result.is_err());
}

#[test]
fn relative_paths_resolve_alike_within_roots() {
    let jail = tempfile::tempdir().unwrap();
    let _sub = subdir(jail.path(), "inner");
    let base = text(jail.path());
    for p in ["inner", "inner/new.txt", "new/deeper", "a/../b"] {
        let one = safe_resolve(&base, p);
        let two = safe_resolve_within(&base, p, &[String::from("/nowhere")]);
        assert_eq!(one.ok(), two.ok());
    }
}

#[test]
fn accepted_absolute_path_lies_under_a_canonical_root() {
    let root = tempfile::tempdir().unwrap();
    let sub = subdir(root.path(), "actions");
    let accepted = safe_resolve_within("/", &text(sub.path()), &[text(root.path())]).unwrap();
    assert!(Path::new(&accepted).starts_with(root.path().canonicalize().unwrap()));
}
