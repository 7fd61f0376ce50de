use enact_core::action_resolver::{ActionInput, ActionRuns, ActionYml, CompositeStep};
use enact_core::composite_run::{CompositePlan, CompositeRun};
use enact_core::context::{ExpressionContext, JobStatus};
use enact_core::error::Error;
use enact_core::functions::{EvalError, FileSet, call_function};
use enact_core::job_run::{build_job_expr_ctx, job_env, job_should_run, job_steps, JobConfig, JobRun};
use enact_core::model::{Container, ContainerConfig, Job, Step};
use enact_core::runner::StepResult;
use enact_core::strmap::StrMap;
use enact_core::value::{to_json_text, Value};

fn parse_json(s: &str) -> Result<Value, EvalError> {
    call_function("fromJSON", &vec![Value::String(s.to_string())], "/", &Vec::new())
}

fn no_files() -> Vec<FileSet> {
    Vec::new()
}

fn map(pairs: &[(&str, &str)]) -> StrMap {
    let mut m = StrMap::new();
    for (k, v) in pairs {
        m.insert(k.to_string(), v.to_string());
    }
    m
}

fn get(m: &StrMap, k: &str) -> Option<String> {
    m.get(k).cloned()
}

fn job() -> Job {
    Job {
        name: None,
        runs_on: None,
        needs: None,
        steps: None,
        env: None,
        condition: None,
        container: None,
        services: None,
        strategy: None,
        timeout_minutes: None,
        continue_on_error: None,
        outputs: None,
    }
}

fn step(id: Option<&str>, coe: bool) -> Step {
    Step {
        id: id.map(|s| s.to_string()),
        name: None,
        run: Some("true".into()),
        uses: None,
        with: None,
        env: None,
        condition: None,
        shell: None,
        working_directory: None,
        continue_on_error: if coe { Some(true) } else { None },
        timeout_minutes: None,
    }
}

#[test]
fn job_environment_precedence() {
    let mut j = job();
    j.env = Some(map(&[("A", "job"), ("B", "job")]));
    j.container = Some(Container::Config(ContainerConfig {
        image: "img".into(),
        env: Some(map(&[("B", "container")])),
        ports: None,
        volumes: None,
        options: None,
        credentials: None,
    }));
    let github = map(&[("GITHUB_SHA", "abc"), ("A", "gh")]);
    let workflow = map(&[("W", "wf"), ("A", "wf")]);
    let extra = map(&[("E", "extra"), ("W", "extra")]);
    let env = job_env(&github, &workflow, &j, &extra);
    assert_eq!(get(&env, "GITHUB_SHA"), Some("abc".to_string()));
    assert_eq!(get(&env, "A"), Some("job".to_string()));
    assert_eq!(get(&env, "B"), Some("container".to_string()));
    assert_eq!(get(&env, "W"), Some("extra".to_string()));
    assert_eq!(get(&env, "E"), Some("extra".to_string()));
}

#[test]
fn job_contexts() {
    let mut j = job();
    j.env = Some(map(&[("J", "j")]));
    let payload = parse_json(r#"{"after": "abc"}"#).ok().unwrap();
    let matrix = parse_json(r#"{"os": "ubuntu"}"#).ok().unwrap();
    let needs = parse_json(r#"{"build": {"result": "success"}}"#).ok().unwrap();
    let extra = map(&[("X", "x")]);
    let secrets = map(&[("TOKEN", "t")]);
    let workflow_env = map(&[("J", "w"), ("W", "w")]);
    let config = JobConfig {
        job_id: "test",
        job: &j,
        event_name: "push",
        workspace: "/w",
        repository: "owner/repo",
        sha: "abc",
        git_ref: "refs/heads/main",
        extra_env: &extra,
        secrets: &secrets,
        workflow_env: &workflow_env,
        runner_temp: "/tmp/enact/runner",
        actions_cache: "/tmp/enact/cache",
        event_payload: &payload,
        matrix_values: &matrix,
        default_shell: "bash",
        needs_ctx: &needs,
    };
    let c = build_job_expr_ctx(&config, "x86_64");
    assert_eq!(get(&c.env, "J"), Some("j".to_string()));
    assert_eq!(get(&c.env, "W"), Some("w".to_string()));
    assert_eq!(get(&c.env, "X"), Some("x".to_string()));
    assert_eq!(get(&c.secrets, "TOKEN"), Some("t".to_string()));
    assert_eq!(get(&c.runner, "arch"), Some("X64".to_string()));
    assert_eq!(to_json_text(&c.matrix), "{\"os\":\"ubuntu\"}");
    assert_eq!(
        to_json_text(&c.strategy),
        "{\"fail-fast\":true,\"job-index\":0.0,\"job-total\":1.0,\"max-parallel\":1.0}"
    );
    match &c.github {
        Value::Object(m) => {
            assert_eq!(m.get("job").map(|v| v.to_str()), Some("test".to_string()));
            assert_eq!(m.get("ref_name").map(|v| v.to_str()), Some("main".to_string()));
        }
        _ => panic!("expected an object"),
    }
    assert_eq!(to_json_text(&c.needs), "{\"build\":{\"result\":\"success\"}}");
    assert!(matches!(c.job_status, JobStatus::Success));
}

#[test]
fn job_condition_and_steps() {
    let mut j = job();
    let c = ExpressionContext::new();
    assert_eq!(job_should_run(&j, &c, "/w", &no_files()).ok(), Some(true));
    j.condition = Some("${{ false }}".into());
    assert_eq!(job_should_run(&j, &c, "/w", &no_files()).ok(), Some(false));
    match job_steps("build", &j) {
        Err(e) => assert_eq!(e.to_string(), "workflow validation: job 'build' has no steps"),
        Ok(_) => panic!("expected an error"),
    }
    j.steps = Some(vec![step(None, false)]);
    assert_eq!(job_steps("build", &j).ok().unwrap().len(), 1);
}

#[test]
fn steps_update_the_job() {
    let mut c = ExpressionContext::new();
    c.env.insert("A".into(), "a".into());
    let mut run = JobRun::new(c, map(&[("PATH", "/bin")]));
    let ok = StepResult { success: true, outputs: map(&[("o", "1")]) };
    assert!(run.record_step(&step(Some("first"), false), Ok(ok), "V=v\n", "/opt/x\n/opt/y\n"));
    assert_eq!(get(&run.live_env, "V"), Some("v".to_string()));
    assert_eq!(get(&run.ctx.env, "V"), Some("v".to_string()));
    assert_eq!(get(&run.live_env, "PATH"), Some("/opt/x:/opt/y:/bin".to_string()));
    assert_eq!(get(&run.ctx.env, "PATH"), Some("/opt/x:/opt/y:/bin".to_string()));
    assert_eq!(get(&run.outputs, "o"), Some("1".to_string()));
    assert_eq!(
        to_json_text(&run.ctx.steps),
        "{\"first\":{\"conclusion\":\"success\",\"outcome\":\"success\",\"outputs\":{\"o\":\"1\"}}}"
    );
    assert!(run.success);

    // A failure that continues on error is recorded but does not fail the job.
    let soft = StepResult { success: false, outputs: StrMap::new() };
    assert!(run.record_step(&step(Some("second"), true), Ok(soft), "", ""));
    assert!(run.success);
    match &run.ctx.steps {
        Value::Object(m) => {
            let second = m.get("second").unwrap();
            assert_eq!(
                to_json_text(second),
                "{\"conclusion\":\"success\",\"outcome\":\"failure\",\"outputs\":{}}"
            );
        }
        _ => panic!("expected an object"),
    }

    // A plain failure fails the job and sets the status.
    let hard = StepResult { success: false, outputs: map(&[("o", "2")]) };
    assert!(run.record_step(&step(None, false), Ok(hard), "", "/p\n"));
    assert!(!run.success);
    assert!(matches!(run.ctx.job_status, JobStatus::Failure));
    assert_eq!(get(&run.live_env, "PATH"), Some("/p:/opt/x:/opt/y:/bin".to_string()));

    // An error stops the job unless the step continues on error.
    let err = || Error::JobFailed("x".into());
    assert!(run.record_step(&step(None, true), Err(err()), "Z=z\n", ""));
    assert_eq!(get(&run.live_env, "Z"), None);
    assert!(!run.record_step(&step(None, false), Err(err()), "", ""));
    let r = run.finish();
    assert!(!r.success);
    assert_eq!(get(&r.outputs, "o"), Some("2".to_string()));
}

#[test]
fn default_path_when_unset() {
    let mut run = JobRun::new(ExpressionContext::new(), StrMap::new());
    let ok = StepResult { success: true, outputs: StrMap::new() };
    run.record_step(&step(None, false), Ok(ok), "", "/x\n");
    assert_eq!(get(&run.live_env, "PATH"), Some("/x:/usr/local/bin:/usr/bin:/bin".to_string()));
}

fn composite_step(name: Option<&str>, run: Option<&str>) -> CompositeStep {
    CompositeStep {
        name: name.map(|s| s.to_string()),
        run: run.map(|s| s.to_string()),
        uses: None,
        shell: None,
        working_directory: None,
        env: None,
        condition: None,
        with: None,
        id: None,
    }
}

fn composite(steps: Option<Vec<CompositeStep>>) -> ActionYml {
    ActionYml {
        name: None,
        description: None,
        inputs: Some(vec![
            ("who-am-i".to_string(), ActionInput { description: None, required: None, default: Some("me".into()) }),
            ("given".to_string(), ActionInput { description: None, required: None, default: Some("dflt".into()) }),
            ("none".to_string(), ActionInput { description: None, required: None, default: None }),
        ]),
        runs: ActionRuns {
            using: "composite".into(),
            steps,
            main: None,
            pre: None,
            post: None,
            image: None,
            entrypoint: None,
            args: None,
        },
    }
}

#[test]
fn composite_start_and_inputs() {
    assert!(CompositeRun::start(&composite(None), &StrMap::new(), &StrMap::new(), &ExpressionContext::new()).is_none());
    let action = composite(Some(vec![]));
    let env = map(&[("S", "s")]);
    let inputs = map(&[("INPUT_GIVEN", "passed")]);
    let run = CompositeRun::start(&action, &env, &inputs, &ExpressionContext::new()).unwrap();
    assert_eq!(get(&run.env, "S"), Some("s".to_string()));
    assert_eq!(get(&run.env, "INPUT_WHO_AM_I"), Some("me".to_string()));
    assert_eq!(get(&run.env, "INPUT_GIVEN"), Some("passed".to_string()));
    assert_eq!(get(&run.env, "INPUT_NONE"), None);
    assert_eq!(get(&run.ctx.inputs, "who-am-i"), Some("me".to_string()));
    assert_eq!(get(&run.ctx.inputs, "given"), Some("passed".to_string()));
    assert_eq!(run.outputs.len(), 0);
}

#[test]
fn composite_steps_plan_and_record() {
    let action = composite(Some(vec![]));
    let mut run = CompositeRun::start(&action, &StrMap::new(), &StrMap::new(), &ExpressionContext::new()).unwrap();
    let mut s = composite_step(Some("greet ${{ inputs.who-am-i }}"), Some("echo ${{ inputs.who-am-i }}"));
    s.env = Some(map(&[("BAD", "${{ nosuchfn() }}"), ("GOOD", "${{ inputs.given }}")]));
    s.working_directory = Some("${{ inputs.who-am-i }}/dir".into());
    match run.plan(0, &s, "/w", &no_files()) {
        Ok(CompositePlan::Run { name, shell, script, working_directory, env }) => {
            assert_eq!(name, "greet me");
            assert_eq!(shell, "bash");
            assert_eq!(script, "echo me");
            assert_eq!(working_directory, Some("me/dir".to_string()));
            assert_eq!(get(&env, "BAD"), Some("${{ nosuchfn() }}".to_string()));
            assert_eq!(get(&env, "GOOD"), Some("dflt".to_string()));
        }
        _ => panic!("expected a run"),
    }
    let unnamed = composite_step(None, Some("x"));
    match run.plan(3, &unnamed, "/w", &no_files()) {
        Ok(CompositePlan::Run { name, .. }) => assert_eq!(name, "composite step 3"),
        _ => panic!("expected a run"),
    }
    let mut skipped = composite_step(None, Some("x"));
    skipped.condition = Some("false".into());
    assert!(matches!(run.plan(1, &skipped, "/w", &no_files()), Ok(CompositePlan::Skip)));
    let mut broken = composite_step(None, Some("x"));
    broken.condition = Some("nosuchfn()".into());
    assert!(matches!(run.plan(1, &broken, "/w", &no_files()), Ok(CompositePlan::Run { .. })));
    let mut uses = composite_step(None, None);
    uses.uses = Some("other/action@v1".into());
    assert!(matches!(run.plan(2, &uses, "/w", &no_files()), Ok(CompositePlan::Skip)));

    let mut with_id = composite_step(None, Some("x"));
    with_id.id = Some("s1".into());
    assert!(run.record(&with_id, "composite step 0", 0, "E=e\n", "/bin2\n", "out=v\n").is_ok());
    assert_eq!(get(&run.env, "E"), Some("e".to_string()));
    assert_eq!(get(&run.ctx.env, "PATH"), Some("/bin2:/usr/local/bin:/usr/bin:/bin".to_string()));
    assert_eq!(get(&run.outputs, "out"), Some("v".to_string()));
    assert_eq!(
        to_json_text(&run.ctx.steps),
        "{\"s1\":{\"conclusion\":\"success\",\"outcome\":\"success\",\"outputs\":{\"out\":\"v\"}}}"
    );
    match run.record(&with_id, "named", 3, "", "", "") {
        Err(e) => assert_eq!(e.to_string(), "step 'named' in job 'composite' failed (exit code 3)"),
        Ok(()) => panic!("expected a failure"),
    }
    let r = run.finish();
    assert!(r.success);
    assert_eq!(get(&r.outputs, "out"), Some("v".to_string()));
}
