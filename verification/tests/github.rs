use enact_core::github::{
    build_github_context, build_github_env, detect_arch, detect_git_info, detect_os,
    extract_repo_from_url, ref_name, ref_type,
};
use enact_core::value::Value;

#[test]
fn test_extract_repo_ssh() {
    assert_eq!(
        extract_repo_from_url("git@github.com:owner/repo.git"),
        Some("owner/repo".to_string())
    );
}

#[test]
fn test_extract_repo_https() {
    assert_eq!(
        extract_repo_from_url("https://github.com/owner/repo.git"),
        Some("owner/repo".to_string())
    );
}

#[test]
fn test_ref_name() {
    assert_eq!(ref_name("refs/heads/main"), "main");
    assert_eq!(ref_name("refs/tags/v1.0"), "v1.0");
}

#[test]
fn test_ref_type() {
    assert_eq!(ref_type("refs/heads/main"), "branch");
    assert_eq!(ref_type("refs/tags/v1.0"), "tag");
}

#[test]
fn extract_repo_edge_cases() {
    assert_eq!(extract_repo_from_url("git@github.com"), None);
    assert_eq!(extract_repo_from_url("https://gitlab.com/a/b"), None);
    assert_eq!(
        extract_repo_from_url("https://github.com/o/r.git.git"),
        Some("o/r".to_string())
    );
    assert_eq!(extract_repo_from_url("git@h:o/r:extra"), Some("o/r".to_string()));
    assert_eq!(
        extract_repo_from_url("https://github.com/owner/repo"),
        Some("owner/repo".to_string())
    );
}

#[test]
fn ref_name_keeps_other_refs() {
    assert_eq!(ref_name("refs/pull/1/merge"), "refs/pull/1/merge");
    assert_eq!(ref_type("refs/pull/1/merge"), "branch");
}

#[test]
fn git_info_defaults() {
    let (repo, sha, r) = detect_git_info(None, None, None);
    assert_eq!(repo, "local/repo");
    assert_eq!(sha, "0000000000000000000000000000000000000000");
    assert_eq!(r, "refs/heads/main");
    let (repo, sha, r) = detect_git_info(
        Some("git@github.com:me/proj.git".to_string()),
        Some("abc".to_string()),
        Some("refs/heads/dev".to_string()),
    );
    assert_eq!(repo, "me/proj");
    assert_eq!(sha, "abc");
    assert_eq!(r, "refs/heads/dev");
    let (repo, _, _) = detect_git_info(Some("file:///x".to_string()), None, None);
    assert_eq!(repo, "local/repo");
}

#[test]
fn os_and_arch_labels() {
    assert_eq!(detect_os("linux"), "Linux");
    assert_eq!(detect_os("macos"), "macOS");
    assert_eq!(detect_os("windows"), "Windows");
    assert_eq!(detect_os("freebsd"), "Linux");
    assert_eq!(detect_arch("x86_64"), "X64");
    assert_eq!(detect_arch("aarch64"), "ARM64");
    assert_eq!(detect_arch("x86"), "X86");
    assert_eq!(detect_arch("riscv64"), "X64");
}

#[test]
fn github_env_has_every_variable() {
    let env = build_github_env(
        "push",
        "/work",
        "octo/cat",
        "deadbeef",
        "refs/tags/v2",
        "build",
        "/tmp/run",
        "linux",
        "aarch64",
    );
    assert_eq!(env.len(), 27);
    assert_eq!(env.get("CI").unwrap(), "true");
    assert_eq!(env.get("GITHUB_EVENT_NAME").unwrap(), "push");
    assert_eq!(env.get("GITHUB_REF_NAME").unwrap(), "v2");
    assert_eq!(env.get("GITHUB_REF_TYPE").unwrap(), "tag");
    assert_eq!(env.get("GITHUB_REPOSITORY_OWNER").unwrap(), "octo");
    assert_eq!(env.get("GITHUB_OUTPUT").unwrap(), "/tmp/run/github_output");
    assert_eq!(env.get("GITHUB_EVENT_PATH").unwrap(), "/tmp/run/event.json");
    assert_eq!(env.get("RUNNER_ARCH").unwrap(), "ARM64");
    assert_eq!(env.get("RUNNER_OS").unwrap(), "Linux");
    assert_eq!(env.get("RUNNER_TOOL_CACHE").unwrap(), "/tmp/run/../tool_cache");
}

#[test]
fn github_context_members() {
    let ctx = build_github_context(
        "push",
        "/work",
        "octo/cat",
        "deadbeef",
        "refs/heads/main",
        "build",
        &Value::Null,
    );
    match ctx {
        Value::Object(m) => {
            assert_eq!(m.len(), 25);
            assert!(matches!(m.get("ref_name"), Some(Value::String(s)) if s == "main"));
            assert!(matches!(m.get("repository_owner"), Some(Value::String(s)) if s == "octo"));
            assert!(matches!(m.get("event"), Some(Value::Null)));
            assert!(matches!(m.get("retention_days"), Some(Value::String(s)) if s == "90"));
        }
        _ => panic!("github context is an object"),
    }
}
