use enact_core::action_resolver::{
    local_decision, parse_action_ref, remote_decision, resolve_action, split_subpath, validate_path_component, ActionRef,
    ActionRequest,
};

#[test]
fn test_parse_action_ref() {
    let (repo, version) = parse_action_ref("actions/checkout@v4").unwrap();
    assert_eq!(repo, "actions/checkout");
    assert_eq!(version, "v4");
}

#[test]
fn test_split_subpath() {
    let (repo, sub) = split_subpath("actions/cache/restore");
    assert_eq!(repo, "actions/cache");
    assert_eq!(sub.as_deref(), Some("restore"));
}

#[test]
fn test_split_no_subpath() {
    let (repo, sub) = split_subpath("actions/checkout");
    assert_eq!(repo, "actions/checkout");
    assert_eq!(sub, None);
}

#[test]
fn test_parse_action_ref_missing_version() {
    let err = parse_action_ref("actions/checkout").unwrap_err();
    assert!(err.to_string().contains("missing @version"));
}

#[test]
fn parse_action_ref_splits_at_first_at() {
    let (repo, version) = parse_action_ref("a/b@v1@x").unwrap();
    assert_eq!(repo, "a/b");
    assert_eq!(version, "v1@x");
}

#[test]
fn split_subpath_keeps_deeper_paths() {
    let (repo, sub) = split_subpath("o/r/a/b");
    assert_eq!(repo, "o/r");
    assert_eq!(sub.as_deref(), Some("a/b"));
}

#[test]
fn invalid_components_are_refused() {
    for bad in ["", ".", "..", "a\\b"] {
        let err = validate_path_component(bad, "x@y").unwrap_err();
        assert_eq!(
            err.to_string(),
            format!("action 'x@y' error: invalid path component in action reference: '{bad}'")
        );
    }
    assert!(validate_path_component("v1.2", "x").is_ok());
}

#[test]
fn prefix_refusals() {
    let err = resolve_action("../evil", "/ws", "/cache").err().unwrap();
    assert!(err.to_string().contains("relative parent paths (../) are not allowed"));
    let err = resolve_action("docker://alpine", "/ws", "/cache").err().unwrap();
    assert!(err.to_string().contains("docker:// actions not yet supported"));
    let err = resolve_action("actions/checkout", "/ws", "/cache").err().unwrap();
    assert!(err.to_string().contains("missing @version"));
    let err = resolve_action("o/r@..", "/ws", "/cache").err().unwrap();
    assert!(err.to_string().contains("invalid path component in action reference: '..'"));
    let err = resolve_action("o/r/a//b@v1", "/ws", "/cache").err().unwrap();
    assert!(err.to_string().contains("invalid path component in action reference: ''"));
}

#[test]
fn missing_cache_asks_for_a_clone() {
    let req = resolve_action(
        "owner/repo/sub@v1",
        "/nonexistent_ws_enact",
        "/nonexistent_cache_enact",
    )
    .ok()
    .unwrap();
    match req {
        ActionRequest::Clone { owner_repo, version, cache_dir, action_dir } => {
            assert_eq!(owner_repo, "owner/repo");
            assert_eq!(version, "v1");
            assert_eq!(cache_dir, "/nonexistent_cache_enact/owner_repo/v1");
            assert_eq!(action_dir, "/nonexistent_cache_enact/owner_repo/v1/sub");
        }
        ActionRequest::Resolved(_) => panic!("expected a clone request"),
    }
}

#[test]
fn missing_local_action_is_reported() {
    let err = resolve_action("./nope", "/nonexistent_ws_enact", "/c").err().unwrap();
    assert!(err.to_string().contains("local action not found"));
    let _ = ActionRef::Local(String::new());
}

fn text(p: &std::path::Path) -> String {
    p.to_string_lossy().to_string()
}

fn subdir(parent: &std::path::Path, name: &str) -> tempfile::TempDir {
    tempfile::Builder::new().prefix(name).rand_bytes(0).tempdir_in(parent).unwrap()
}

#[test]
fn local_action_resolves_to_its_canonical_directory() {
    let ws = tempfile::tempdir().unwrap();
    let act = subdir(ws.path(), "act");
    match resolve_action("./act", &text(ws.path()), "/c").ok().unwrap() {
        ActionRequest::Resolved(ActionRef::Local(p)) => {
            assert_eq!(std::path::PathBuf::from(p), act.path().canonicalize().unwrap());
        }
        _ => panic!("expected a local action"),
    }
}

#[test]
fn cached_remote_action_is_resolved_in_place() {
    let cache = tempfile::tempdir().unwrap();
    let repo = subdir(cache.path(), "o_r");
    let ver = subdir(repo.path(), "v1");
    match resolve_action("o/r@v1", "/ws", &text(cache.path())).ok().unwrap() {
        ActionRequest::Resolved(ActionRef::Remote { dir, owner_repo, version }) => {
            assert_eq!(dir, text(ver.path()));
            assert_eq!(owner_repo, "o/r");
            assert_eq!(version, "v1");
        }
        _ => panic!("expected a resolved remote action"),
    }
}

#[test]
fn local_decisions_on_file_system_answers() {
    match local_decision("./a", "/w/./a", Ok("/w/a".into()), Ok("/w".into())).ok().unwrap() {
        ActionRequest::Resolved(ActionRef::Local(p)) => assert_eq!(p, "/w/a"),
        _ => panic!("expected a local action"),
    }
    let e = local_decision("./a", "/w/./a", Ok("/elsewhere".into()), Ok("/w".into())).err().unwrap();
    assert!(e.to_string().contains("local action './a' resolves outside the workspace"));
    let e = local_decision("./a", "/w/./a", Err("no".into()), Ok("/w".into())).err().unwrap();
    assert!(e.to_string().contains("local action not found: /w/./a"));
    let e = local_decision("./a", "/w/./a", Ok("/w/a".into()), Err("denied".into())).err().unwrap();
    assert!(e.to_string().contains("cannot resolve workspace: denied"));
}

#[test]
fn remote_decisions_on_file_system_answers() {
    let ok = |d: bool, c: Result<String, String>, k: Result<String, String>| {
        remote_decision("o/r@v", "o/r".into(), "v".into(), "/c/o_r/v".into(), d, c, k)
    };
    match ok(false, Err(String::new()), Err(String::new())).ok().unwrap() {
        ActionRef::Remote { dir, .. } => assert_eq!(dir, "/c/o_r/v"),
        ActionRef::Local(_) => panic!("expected a remote action"),
    }
    assert!(ok(true, Ok("/c/o_r/v".into()), Ok("/c".into())).is_ok());
    let e = ok(true, Ok("/etc".into()), Ok("/c".into())).err().unwrap();
    assert!(e.to_string().contains("action path escapes the actions cache directory"));
    let e = ok(true, Err("x".into()), Ok("/c".into())).err().unwrap();
    assert!(e.to_string().contains("cannot resolve action dir: x"));
    let e = ok(true, Ok("/c/o_r/v".into()), Err("y".into())).err().unwrap();
    assert!(e.to_string().contains("cannot resolve actions cache: y"));
}
