use enact_core::value::Value;
use enact_core::error::Error;
use enact_core::event::{default_event_payload, generate_event_json};
use enact_core::functions::{EvalError, call_function};
use enact_core::model::{Defaults, Job, JobNeeds, Matrix, RunDefaults, Step, Strategy, Trigger, Workflow};
use enact_core::runner::JobResult;
use enact_core::strmap::StrMap;
use enact_core::value::{to_json_text, ObjectMap};
use enact_core::workflow_run::{default_shell, matrix_runs, run_name, JobRuns, WorkflowRun};

fn parse_json(s: &str) -> Result<Value, EvalError> {
    call_function("fromJSON", &vec![Value::String(s.to_string())], "/", &Vec::new())
}

fn map(pairs: &[(&str, &str)]) -> StrMap {
    let mut m = StrMap::new();
    for (k, v) in pairs {
        m.insert(k.to_string(), v.to_string());
    }
    m
}

fn job(needs: Option<JobNeeds>, strategy: Option<Strategy>) -> Job {
    Job {
        name: None,
        runs_on: None,
        needs,
        steps: None,
        env: None,
        condition: None,
        container: None,
        services: None,
        strategy,
        timeout_minutes: None,
        continue_on_error: None,
        outputs: None,
    }
}

fn matrix_strategy(fail_fast: Option<bool>) -> Strategy {
    let mut dims = ObjectMap::new();
    dims.insert("os".into(), parse_json(r#"["a", "b"]"#).ok().unwrap());
    Strategy {
        matrix: Some(Matrix { additions: None, exclude: None, dimensions: dims }),
        fail_fast,
        max_parallel: None,
    }
}

#[test]
fn shell_defaults() {
    let mut w = Workflow { name: None, on: Some(Trigger::Single("push".into())), env: None, defaults: None, jobs: vec![] };
    assert_eq!(default_shell(&w, "bash"), "bash");
    w.defaults = Some(Defaults { run: Some(RunDefaults { shell: Some("sh".into()), working_directory: None }) });
    assert_eq!(default_shell(&w, "bash"), "sh");
    w.defaults = Some(Defaults { run: None });
    assert_eq!(default_shell(&w, "bash"), "bash");
}

#[test]
fn matrix_runs_of_jobs() {
    let plain = matrix_runs(&job(None, None));
    assert_eq!(plain.len(), 1);
    assert_eq!(run_name("build", &plain[0]), "build");
    let runs = matrix_runs(&job(None, Some(matrix_strategy(None))));
    assert_eq!(runs.len(), 2);
    assert_eq!(run_name("build", &runs[1]), "build (os: b)");
    let no_matrix = Strategy { matrix: None, fail_fast: None, max_parallel: None };
    assert_eq!(matrix_runs(&job(None, Some(no_matrix))).len(), 1);
}

#[test]
fn matrix_run_results() {
    let fast = job(None, Some(matrix_strategy(None)));
    let mut runs = JobRuns::new();
    assert!(runs.record_run(&fast, 2, Ok(JobResult { success: true, outputs: map(&[("a", "1")]) })));
    assert!(!runs.record_run(&fast, 2, Ok(JobResult { success: false, outputs: map(&[("a", "2")]) })));
    assert!(!runs.succeeded);
    assert_eq!(runs.outputs.get("a").cloned(), Some("1".to_string()));

    let slow = job(None, Some(matrix_strategy(Some(false))));
    let mut runs = JobRuns::new();
    assert!(runs.record_run(&slow, 2, Ok(JobResult { success: false, outputs: map(&[("a", "2")]) })));
    assert!(!runs.succeeded);
    assert_eq!(runs.outputs.get("a").cloned(), Some("2".to_string()));

    // A single run is never cut short.
    let mut runs = JobRuns::new();
    assert!(runs.record_run(&fast, 1, Ok(JobResult { success: false, outputs: StrMap::new() })));

    let mut runs = JobRuns::new();
    assert!(!runs.record_run(&slow, 2, Err(Error::JobFailed("x".into()))));
    assert!(!runs.succeeded);
}

#[test]
fn workflow_results_and_needs() {
    let mut wf = WorkflowRun::new();
    let needs_build = job(Some(JobNeeds::Single("build".into())), None);
    assert!(wf.dependency_failed(&needs_build).is_none());
    let mut runs = JobRuns::new();
    runs.record_run(&job(None, None), 1, Ok(JobResult { success: true, outputs: map(&[("v", "1")]) }));
    wf.finish_job("build", runs);
    assert!(wf.all_success);
    assert_eq!(
        to_json_text(&wf.needs_ctx),
        "{\"build\":{\"outputs\":{\"v\":\"1\"},\"result\":\"success\"}}"
    );
    assert!(wf.dependency_failed(&needs_build).is_none());

    let mut runs = JobRuns::new();
    runs.record_run(&job(None, None), 1, Ok(JobResult { success: false, outputs: StrMap::new() }));
    wf.finish_job("lint", runs);
    assert!(!wf.all_success);
    let needs_both = job(Some(JobNeeds::Multiple(vec!["build".into(), "lint".into()])), None);
    assert_eq!(wf.dependency_failed(&needs_both), Some("lint".to_string()));
    wf.skip_job("deploy");
    assert_eq!(wf.completed.len(), 3);
    assert!(!wf.completed[2].1);
    let needs_deploy = job(Some(JobNeeds::Single("deploy".into())), None);
    assert_eq!(wf.dependency_failed(&needs_deploy), Some("deploy".to_string()));
    match &wf.needs_ctx {
        enact_core::value::Value::Object(m) => assert!(m.get("deploy").is_none()),
        _ => panic!("expected an object"),
    }
}

#[test]
fn event_payloads() {
    let push = default_event_payload("push", "owner/repo", "abc", "refs/heads/main");
    assert_eq!(
        to_json_text(&push),
        "{\"after\":\"abc\",\"before\":\"0000000000000000000000000000000000000000\",\"commits\":[],\"head_commit\":{\"id\":\"abc\",\"message\":\"local execution\"},\"ref\":\"refs/heads/main\",\"repository\":{\"full_name\":\"owner/repo\",\"name\":\"repo\",\"owner\":{\"login\":\"owner\"}},\"sender\":{\"id\":0.0,\"login\":\"local\"}}"
    );
    let pr = default_event_payload("pull_request", "solo", "abc", "feature");
    assert_eq!(
        to_json_text(&pr),
        "{\"action\":\"opened\",\"number\":1.0,\"pull_request\":{\"base\":{\"ref\":\"main\",\"sha\":\"abc\"},\"body\":\"\",\"head\":{\"ref\":\"feature\",\"sha\":\"abc\"},\"number\":1.0,\"title\":\"Local PR\"},\"repository\":{\"full_name\":\"solo\",\"name\":\"repo\",\"owner\":{\"login\":\"solo\"}},\"sender\":{\"id\":0.0,\"login\":\"local\"}}"
    );
    let dispatch = default_event_payload("workflow_dispatch", "o/r", "s", "r");
    assert_eq!(
        to_json_text(&dispatch),
        "{\"inputs\":{},\"ref\":\"r\",\"repository\":{\"full_name\":\"o/r\",\"name\":\"r\",\"owner\":{\"login\":\"o\"}},\"sender\":{\"id\":0.0,\"login\":\"local\"}}"
    );
    let other = default_event_payload("release", "o/r", "s", "r");
    assert_eq!(
        to_json_text(&other),
        "{\"repository\":{\"full_name\":\"o/r\",\"name\":\"r\",\"owner\":{\"login\":\"o\"}},\"sender\":{\"id\":0.0,\"login\":\"local\"}}"
    );
    let supplied = generate_event_json("push", "o/r", "s", "r", Some(r#"{"custom": true}"#));
    assert_eq!(to_json_text(&supplied), "{\"custom\":true}");
    let broken = generate_event_json("release", "o/r", "s", "r", Some("{not json"));
    assert_eq!(to_json_text(&broken), to_json_text(&other));
    let none = generate_event_json("release", "o/r", "s", "r", None);
    assert_eq!(to_json_text(&none), to_json_text(&other));
}

fn step(name: Option<&str>, run: Option<&str>, uses: Option<&str>) -> Step {
    Step {
        id: None,
        name: name.map(|s| s.to_string()),
        run: run.map(|s| s.to_string()),
        uses: uses.map(|s| s.to_string()),
        with: None,
        env: None,
        condition: None,
        shell: None,
        working_directory: None,
        continue_on_error: None,
        timeout_minutes: None,
    }
}

#[test]
fn step_display_names() {
    assert_eq!(step(Some("Build"), Some("make"), None).display_name(), "Build");
    assert_eq!(step(None, Some("make all\nmake test"), None).display_name(), "make all");
    assert_eq!(step(None, Some(""), None).display_name(), "(empty)");
    assert_eq!(step(None, None, Some("actions/checkout@v4")).display_name(), "actions/checkout@v4");
    assert_eq!(step(None, None, None).display_name(), "(unnamed step)");
    let long = "x".repeat(61);
    assert_eq!(step(None, Some(&long), None).display_name(), format!("{}...", "x".repeat(57)));
    let exact = "y".repeat(60);
    assert_eq!(step(None, Some(&exact), None).display_name(), exact);
    // Multi-byte characters count by their UTF-8 length.
    let wide = format!("{}{}", "é".repeat(28), "abcdefg");
    assert_eq!(step(None, Some(&wide), None).display_name(), format!("{}a...", "é".repeat(28)));
}
