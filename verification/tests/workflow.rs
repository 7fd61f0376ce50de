use enact_core::model::{Job, JobNeeds, RunsOn, Step, Trigger, Workflow};
use enact_core::workflow::validate_workflow;
use enact_core::workflow::order_workflow_files;
use enact_core::options::parse_kv_pairs;

fn step(name: Option<&str>, run: Option<&str>, uses: Option<&str>) -> Step {
    Step {
        id: None,
        name: name.map(|s| s.to_string()),
        run: run.map(|s| s.to_string()),
        uses: uses.map(|s| s.to_string()),
        with: None,
        env: None,
        condition: None,
        shell: None,
        working_directory: None,
        continue_on_error: None,
        timeout_minutes: None,
    }
}

fn job(needs: Option<JobNeeds>, steps: Option<Vec<Step>>) -> Job {
    Job {
        name: None,
        runs_on: Some(RunsOn::Single("ubuntu-latest".to_string())),
        needs,
        steps,
        env: None,
        condition: None,
        container: None,
        services: None,
        strategy: None,
        timeout_minutes: None,
        continue_on_error: None,
        outputs: None,
    }
}

fn workflow(jobs: Vec<(&str, Job)>) -> Workflow {
    Workflow {
        name: Some("Bad".to_string()),
        on: Some(Trigger::Single("push".to_string())),
        env: None,
        defaults: None,
        jobs: jobs.into_iter().map(|(k, j)| (k.to_string(), j)).collect(),
    }
}

fn error_text(w: &Workflow) -> String {
    match validate_workflow(w) {
        Err(e) => e.to_string(),
        Ok(()) => panic!("expected a validation error"),
    }
}

#[test]
fn test_validate_no_jobs() {
    let w = workflow(vec![]);
    assert!(error_text(&w).contains("at least one job"));
}

#[test]
fn test_validate_step_missing_run_or_uses() {
    let w = workflow(vec![("build", job(None, Some(vec![step(Some("nothing"), None, None)])))]);
    assert!(error_text(&w).contains("must have either"));
}

#[test]
fn test_validate_needs_nonexistent() {
    let w = workflow(vec![(
        "build",
        job(Some(JobNeeds::Multiple(vec!["nonexistent".to_string()])), Some(vec![step(None, Some("echo hello"), None)])),
    )]);
    assert!(error_text(&w).contains("non-existent job"));
}

#[test]
fn validation_messages_are_exact() {
    let w = workflow(vec![("build", job(None, Some(vec![])))]);
    assert_eq!(error_text(&w), "workflow validation: job 'build' must have at least one step");
    let w = workflow(vec![("build", job(None, None))]);
    assert_eq!(error_text(&w), "workflow validation: job 'build' must have at least one step");
    let w = workflow(vec![(
        "build",
        job(None, Some(vec![step(None, Some("x"), None), step(None, Some("x"), Some("a/b@v1"))])),
    )]);
    assert_eq!(
        error_text(&w),
        "workflow validation: job 'build', step 1 ('(unnamed)'): cannot have both 'run' and 'uses'"
    );
    let w = workflow(vec![
        ("a", job(None, Some(vec![step(None, Some("x"), None)]))),
        ("b", job(Some(JobNeeds::Single("c".to_string())), Some(vec![step(None, Some("x"), None)]))),
    ]);
    assert_eq!(error_text(&w), "workflow validation: job 'b' depends on non-existent job 'c'");
    let w = workflow(vec![("a", job(None, Some(vec![step(Some("n"), Some("x"), None)])))]);
    assert!(validate_workflow(&w).is_ok());
}

#[test]
fn workflow_files_are_sorted_once() {
    let files: Vec<String> = vec!["/w/b.yml", "/w/a.yaml", "/w/a.yml", "/w/b.yml"].into_iter().map(String::from).collect();
    assert_eq!(order_workflow_files(&files), vec!["/w/a.yaml", "/w/a.yml", "/w/b.yml"]);
}

#[test]
fn key_value_options() {
    let args: Vec<String> = vec!["A=1".into(), "B=x=y".into(), "A=2".into(), "E=".into()];
    let m = parse_kv_pairs(&args).ok().unwrap();
    assert_eq!(m.get("A").cloned(), Some("2".to_string()));
    assert_eq!(m.get("B").cloned(), Some("x=y".to_string()));
    assert_eq!(m.get("E").cloned(), Some(String::new()));
    let bad: Vec<String> = vec!["A=1".into(), "oops".into()];
    assert_eq!(parse_kv_pairs(&bad).err(), Some("invalid KEY=VALUE argument: 'oops'".to_string()));
}
