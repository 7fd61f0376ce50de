use enact_core::builtin::{
    action_name, cache_archive_name, restore, restore_plan, run_cache, sanitize_key, save_plan,
    trimmed_lines, try_builtin_action, BuiltinAction,
};
use enact_core::model::{Container, ContainerConfig, Event, JobNeeds, RunsOn, Trigger};
use enact_core::runner::{node_script, run_node_action};
use enact_core::runner_ctx::{build_runner_context, detect_arch};
use enact_core::shell::{
    redact_secrets, replace_str, resolve_shell_template, shell_invocation_args, split_whitespace,
    ExecResult,
};
use enact_core::strmap::StrMap;
use enact_core::checkout::{checkout_plan, clone_args, CheckoutPlan};
use enact_core::checkout::{artifact_missing, download_plan, unsafe_path, upload_plan, upload_result};
use enact_core::error::Error;
use enact_core::action_resolver::{action_clone_url, checkout_failed, clone_failed};

fn map(pairs: &[(&str, &str)]) -> StrMap {
    let mut m = StrMap::new();
    for (k, v) in pairs {
        m.insert(k.to_string(), v.to_string());
    }
    m
}

fn get(m: &StrMap, k: &str) -> Option<String> {
    m.get(k).cloned()
}

fn strings(v: &[&str]) -> Vec<String> {
    v.iter().map(|s| s.to_string()).collect()
}

#[test]
fn builtin_actions_are_recognized() {
    assert_eq!(action_name("actions/checkout@v4"), "actions/checkout");
    assert_eq!(action_name("local/action"), "local/action");
    assert!(matches!(try_builtin_action("actions/checkout@v4"), Some(BuiltinAction::Checkout)));
    assert!(matches!(try_builtin_action("actions/cache/save@v4"), Some(BuiltinAction::CacheSave)));
    assert!(matches!(try_builtin_action("actions/cache/restore@v4"), Some(BuiltinAction::CacheRestore)));
    assert!(matches!(try_builtin_action("actions/cache@v4"), Some(BuiltinAction::Cache)));
    assert!(matches!(try_builtin_action("actions/upload-artifact@v4"), Some(BuiltinAction::UploadArtifact)));
    assert!(matches!(try_builtin_action("actions/download-artifact@v4"), Some(BuiltinAction::DownloadArtifact)));
    assert!(matches!(try_builtin_action("actions/setup-node@v4"), Some(BuiltinAction::NoOp)));
    assert!(matches!(try_builtin_action("Swatinem/rust-cache@v2"), Some(BuiltinAction::NoOp)));
    assert!(try_builtin_action("owner/other@v1").is_none());
}

#[test]
fn cache_keys_and_plans() {
    assert_eq!(sanitize_key("Linux-cargo/abc.lock"), "Linux-cargo_abc_lock");
    assert_eq!(cache_archive_name("k v"), "k_v.tar.gz");
    assert_eq!(trimmed_lines("  a \n\n b\n"), strings(&["a", "b"]));
    match restore_plan(&StrMap::new()) {
        Err(e) => assert_eq!(e.to_string(), "action 'actions/cache' error: key input is required"),
        Ok(_) => panic!("expected an error"),
    }
    let p = restore_plan(&map(&[
        ("INPUT_KEY", "linux-1"),
        ("INPUT_PATH", "target"),
        ("INPUT_RESTORE_KEYS", "linux-\n  other- \n"),
    ]))
    .ok()
    .unwrap();
    assert_eq!(p.key, "linux-1");
    assert_eq!(p.archive, "linux-1.tar.gz");
    assert_eq!(p.restore_keys, strings(&["linux-", "other-"]));

    let hit = restore(&p, true, &vec![]);
    assert_eq!(hit.extract, Some("linux-1.tar.gz".to_string()));
    assert_eq!(get(&hit.outputs, "cache-hit"), Some("true".to_string()));
    assert_eq!(get(&hit.outputs, "cache-matched-key"), Some("linux-1".to_string()));
    assert_eq!(get(&hit.outputs, "cache-primary-key"), Some("linux-1".to_string()));

    let files = strings(&["other-9.tar.gz", "linux-0.tar.gz", "linux-0.txt"]);
    let partial = restore(&p, false, &files);
    assert_eq!(partial.extract, Some("linux-0.tar.gz".to_string()));
    assert_eq!(get(&partial.outputs, "cache-hit"), Some("false".to_string()));
    assert_eq!(get(&partial.outputs, "cache-matched-key"), Some("linux-0".to_string()));

    let miss = run_cache(&p, false, &strings(&["unrelated.tar.gz"]));
    assert!(miss.extract.is_none());
    assert_eq!(get(&miss.outputs, "cache-hit"), Some("false".to_string()));
    assert_eq!(get(&miss.outputs, "cache-matched-key"), None);

    match save_plan(&map(&[("INPUT_KEY", "k")])) {
        Err(e) => assert_eq!(
            e.to_string(),
            "action 'actions/cache/save' error: key and path inputs are required"
        ),
        Ok(_) => panic!("expected an error"),
    }
    let s = save_plan(&map(&[("INPUT_KEY", "k/1"), ("INPUT_PATH", " a\n\nb ")])).ok().unwrap();
    assert_eq!(s.archive, "k_1.tar.gz");
    assert_eq!(s.paths, strings(&["a", "b"]));
}

#[test]
fn shells() {
    let (p, a) = resolve_shell_template("bash");
    assert_eq!(p, "bash");
    assert_eq!(a, strings(&["--noprofile", "--norc", "-eo", "pipefail", "{0}"]));
    assert_eq!(resolve_shell_template("sh"), ("sh".to_string(), strings(&["-e", "{0}"])));
    assert_eq!(resolve_shell_template("python"), ("python3".to_string(), strings(&["{0}"])));
    assert_eq!(resolve_shell_template("pwsh"), ("pwsh".to_string(), strings(&["-command", ". '{0}'"])));
    assert_eq!(resolve_shell_template("perl -w {0}"), ("perl".to_string(), strings(&["-w", "{0}"])));
    assert_eq!(resolve_shell_template("zsh"), ("zsh".to_string(), strings(&["-e", "{0}"])));
    assert_eq!(
        shell_invocation_args(&strings(&["-e", "{0}"]), "/tmp/s.sh", "echo"),
        strings(&["-e", "/tmp/s.sh"])
    );
    assert_eq!(
        shell_invocation_args(&strings(&["-x"]), "/tmp/s.sh", "echo hi"),
        strings(&["-x", "-c", "echo hi"])
    );
    assert_eq!(split_whitespace("  a  b\tc "), strings(&["a", "b", "c"]));
    assert_eq!(replace_str("aXbXc", "X", "--"), "a--b--c");
    assert_eq!(redact_secrets("token=abc abc", &strings(&["abc", ""])), "token=*** ***");
}

#[test]
fn node_actions() {
    assert_eq!(node_script("dist/index.js"), "node 'dist/index.js'");
    let ok = ExecResult { exit_code: 0, stdout: String::new(), stderr: String::new() };
    let outputs = run_node_action("dist/index.js", &ok, "a=1\n").ok().unwrap();
    assert_eq!(get(&outputs, "a"), Some("1".to_string()));
    let bad = ExecResult { exit_code: 1, stdout: String::new(), stderr: String::new() };
    match run_node_action("dist/index.js", &bad, "") {
        Err(e) => assert_eq!(e.to_string(), "step 'dist/index.js' in job 'action' failed (exit code 1)"),
        Ok(_) => panic!("expected a failure"),
    }
}

#[test]
fn runner_context() {
    assert_eq!(detect_arch("x86_64"), "X64");
    assert_eq!(detect_arch("aarch64"), "ARM64");
    assert_eq!(detect_arch("riscv64"), "RISCV64");
    let m = build_runner_context("/tmp/enact/runner", "aarch64");
    assert_eq!(get(&m, "os"), Some("Linux".to_string()));
    assert_eq!(get(&m, "arch"), Some("ARM64".to_string()));
    assert_eq!(get(&m, "temp"), Some("/tmp/enact/runner".to_string()));
    assert_eq!(get(&m, "tool_cache"), Some("/tmp/enact/tool_cache".to_string()));
    assert_eq!(get(&m, "environment"), Some("self-hosted".to_string()));
}

#[test]
fn model_helpers() {
    assert_eq!(Event::PullRequest.as_str(), "pull_request");
    assert_eq!(Event::WorkflowDispatch.as_str(), "workflow_dispatch");
    assert_eq!(Trigger::Single("push".into()).events(), strings(&["push"]));
    assert_eq!(Trigger::Multiple(strings(&["push", "pull_request"])).events(), strings(&["push", "pull_request"]));
    assert_eq!(
        Trigger::Mapping(vec![("push".into(), None), ("workflow_dispatch".into(), None)]).events(),
        strings(&["push", "workflow_dispatch"])
    );
    assert_eq!(RunsOn::Multiple(strings(&["self-hosted", "linux"])).labels(), strings(&["self-hosted", "linux"]));
    assert_eq!(RunsOn::Single("ubuntu-latest".into()).to_display(), "ubuntu-latest");
    assert_eq!(RunsOn::Multiple(strings(&["a", "b"])).to_display(), "a, b");
    assert_eq!(JobNeeds::Single("build".into()).as_vec(), strings(&["build"]));
    assert_eq!(Container::Image("node:20".into()).image(), "node:20");
    let c = Container::Config(ContainerConfig {
        image: "rust:1".into(),
        env: None,
        ports: None,
        volumes: None,
        options: None,
        credentials: None,
    });
    assert_eq!(c.image(), "rust:1");
}

#[test]
fn checkout_plans() {
    assert!(matches!(
        checkout_plan(&map(&[("INPUT_REF", "v1"), ("INPUT_SUBMODULES", "recursive")]), true),
        CheckoutPlan::Nothing
    ));
    assert!(matches!(checkout_plan(&map(&[("INPUT_REPOSITORY", "owner/repo")]), true), CheckoutPlan::Nothing));
    assert!(matches!(checkout_plan(&StrMap::new(), false), CheckoutPlan::Nothing));
    match checkout_plan(&map(&[("INPUT_REPOSITORY", "owner/repo"), ("INPUT_FETCH-DEPTH", "0"), ("INPUT_PATH", "sub")]), false) {
        CheckoutPlan::Clone { repository, url, depth, path } => {
            assert_eq!(repository, "owner/repo");
            assert_eq!(url, "https://github.com/owner/repo.git");
            assert_eq!(depth, 0);
            assert_eq!(path, Some("sub".to_string()));
        }
        _ => panic!("expected a clone"),
    }
    match checkout_plan(&map(&[("INPUT_REPOSITORY", "git@host:o/r.git"), ("INPUT_FETCH_DEPTH", "x")]), false) {
        CheckoutPlan::Clone { url, depth, path, .. } => {
            assert_eq!(url, "git@host:o/r.git");
            assert_eq!(depth, 1);
            assert_eq!(path, None);
        }
        _ => panic!("expected a clone"),
    }
    match checkout_plan(&map(&[("INPUT_REPOSITORY", "https://x.org/r"), ("INPUT_FETCH-DEPTH", "+5")]), false) {
        CheckoutPlan::Clone { url, depth, .. } => {
            assert_eq!(url, "https://x.org/r");
            assert_eq!(depth, 5);
        }
        _ => panic!("expected a clone"),
    }
    assert_eq!(clone_args("u", 1, "/w"), strings(&["clone", "--depth", "1", "u", "/w"]));
    assert_eq!(clone_args("u", 0, "/w"), strings(&["clone", "u", "/w"]));
}

#[test]
fn artifact_plans() {
    match upload_plan(&StrMap::new()) {
        Err(e) => assert_eq!(e.to_string(), "action 'actions/upload-artifact' error: path input is required"),
        Ok(_) => panic!("expected an error"),
    }
    let p = upload_plan(&map(&[("INPUT_PATH", "dist/*\n\n  out.txt ")])).ok().unwrap();
    assert_eq!(p.name, "artifact");
    assert_eq!(p.patterns, strings(&["dist/*", "out.txt"]));
    assert_eq!(p.if_no_files, "warn");
    assert_eq!(get(&upload_result(&p, 0).ok().unwrap(), "artifact-id"), Some("artifact".to_string()));
    let strict = upload_plan(&map(&[("INPUT_PATH", "x"), ("INPUT_NAME", "n"), ("INPUT_IF_NO_FILES_FOUND", "error")])).ok().unwrap();
    assert_eq!(strict.if_no_files, "error");
    match upload_result(&strict, 0) {
        Err(e) => assert_eq!(e.to_string(), "action 'actions/upload-artifact' error: no files found to upload"),
        Ok(_) => panic!("expected an error"),
    }
    assert_eq!(get(&upload_result(&strict, 2).ok().unwrap(), "artifact-id"), Some("n".to_string()));
    let d = download_plan(&StrMap::new());
    assert_eq!((d.name.as_str(), d.path.as_str()), ("artifact", "."));
    assert_eq!(
        artifact_missing("logs").to_string(),
        "action 'actions/download-artifact' error: artifact 'logs' not found"
    );
    let cause = Error::PathTraversal("../x".into());
    assert_eq!(
        unsafe_path("actions/checkout", &cause).to_string(),
        "action 'actions/checkout' error: unsafe path: path traversal attempt: ../x"
    );
}

#[test]
fn action_clone_messages() {
    assert_eq!(action_clone_url("o/r"), "https://github.com/o/r.git");
    assert_eq!(clone_failed("o/r", None).to_string(), "action 'o/r' error: git clone failed");
    assert_eq!(clone_failed("o/r", Some("no git")).to_string(), "action 'o/r' error: git clone failed: no git");
    assert_eq!(checkout_failed("o/r", "v9", None).to_string(), "action 'o/r' error: version 'v9' not found in o/r");
    assert_eq!(checkout_failed("o/r", "v9", Some("boom")).to_string(), "action 'o/r' error: git checkout v9 failed: boom");
}

#[test]
fn distinct_events_have_distinct_names() {
    let all = [Event::Push, Event::PullRequest, Event::PullRequestTarget, Event::PublicEvent, Event::WorkflowDispatch];
    for (i, a) in all.iter().enumerate() {
        for (j, b) in all.iter().enumerate() {
            assert_eq!(i == j, a.as_str() == b.as_str());
        }
    }
    assert_eq!(Event::PublicEvent.as_str(), "public");
}
