use enact_core::action_resolver::{ActionRuns, ActionYml};
use enact_core::context::ExpressionContext;
use enact_core::functions::{EvalError, FileSet, call_function};
use enact_core::model::Step;
use enact_core::runner::StepResult;
use enact_core::step_run::{
    action_inputs, action_run, builtin_step_result, plan_ends_within, plan_step, script_step_result, step_env,
    with_action_path, ActionRun, StepPlan,
};
use enact_core::strmap::StrMap;
use enact_core::value::{ObjectMap, Value};
use enact_core::error::Error;

fn parse_json(s: &str) -> Result<Value, EvalError> {
    call_function("fromJSON", &vec![Value::String(s.to_string())], "/", &Vec::new())
}

fn no_files() -> Vec<FileSet> {
    Vec::new()
}

fn map(pairs: &[(&str, &str)]) -> StrMap {
    let mut m = StrMap::new();
    for (k, v) in pairs {
        m.insert(k.to_string(), v.to_string());
    }
    m
}

fn get(m: &StrMap, k: &str) -> Option<String> {
    m.get(k).cloned()
}

fn step() -> Step {
    Step {
        id: None,
        name: None,
        run: None,
        uses: None,
        with: None,
        env: None,
        condition: None,
        shell: None,
        working_directory: None,
        continue_on_error: None,
        timeout_minutes: None,
    }
}

fn ctx() -> ExpressionContext {
    let mut c = ExpressionContext::new();
    c.env.insert("A".into(), "1".into());
    c
}

#[test]
fn skipped_step_when_condition_is_false() {
    let mut s = step();
    s.run = Some("echo hi".into());
    s.condition = Some("env.A == '2'".into());
    let plan = plan_step(&s, "bash", &ctx(), &StrMap::new(), "/w", &no_files()).ok().unwrap();
    assert!(matches!(plan, StepPlan::Skip));
}

#[test]
fn script_step_plan_interpolates_env_and_script() {
    let mut s = step();
    s.run = Some("echo ${{ env.A }}".into());
    s.env = Some(map(&[("B", "${{ env.A }}x"), ("L", "over")]));
    s.working_directory = Some("sub".into());
    let live = map(&[("L", "live"), ("K", "k")]);
    match plan_step(&s, "sh", &ctx(), &live, "/w", &no_files()) {
        Ok(StepPlan::Script { shell, script, working_directory, env }) => {
            assert_eq!(shell, "sh");
            assert_eq!(script, "echo 1");
            assert_eq!(working_directory, Some("sub".to_string()));
            assert_eq!(get(&env, "B"), Some("1x".to_string()));
            assert_eq!(get(&env, "L"), Some("over".to_string()));
            assert_eq!(get(&env, "K"), Some("k".to_string()));
        }
        _ => panic!("expected a script plan"),
    }
    s.shell = Some("pwsh".into());
    match plan_step(&s, "sh", &ctx(), &live, "/w", &no_files()) {
        Ok(StepPlan::Script { shell, .. }) => assert_eq!(shell, "pwsh"),
        _ => panic!("expected a script plan"),
    }
}

#[test]
fn action_step_plan_passes_inputs() {
    let mut s = step();
    s.uses = Some("owner/act@v1".into());
    let mut with = ObjectMap::new();
    with.insert("node-version".into(), parse_json("18").ok().unwrap());
    with.insert("my-input".into(), Value::String("v${{ env.A }}".into()));
    with.insert("flags".into(), parse_json(r#"[1, "a"]"#).ok().unwrap());
    s.with = Some(with);
    match plan_step(&s, "bash", &ctx(), &map(&[("X", "x")]), "/w", &no_files()) {
        Ok(StepPlan::Action { uses, env, inputs }) => {
            assert_eq!(uses, "owner/act@v1");
            assert_eq!(get(&env, "X"), Some("x".to_string()));
            assert_eq!(get(&env, "INPUT_MY_INPUT"), None);
            assert_eq!(get(&inputs, "INPUT_NODE_VERSION"), Some("18".to_string()));
            assert_eq!(get(&inputs, "INPUT_MY_INPUT"), Some("v1".to_string()));
            assert_eq!(get(&inputs, "INPUT_FLAGS"), Some("[1,\"a\"]".to_string()));
            assert_eq!(get(&inputs, "X"), Some("x".to_string()));
        }
        _ => panic!("expected an action plan"),
    }
}

#[test]
fn step_without_run_or_uses_is_refused() {
    match plan_step(&step(), "bash", &ctx(), &StrMap::new(), "/w", &no_files()) {
        Err(EvalError::Failed(e)) => {
            assert_eq!(e.to_string(), "workflow validation: step has neither 'run' nor 'uses'")
        }
        _ => panic!("expected an error"),
    }
}

#[test]
fn env_and_inputs_errors_come_through() {
    let env = Some(map(&[("B", "${{ nosuchfn() }}")]));
    match step_env(&StrMap::new(), &env, &ctx(), "/w", &no_files()) {
        Err(EvalError::Failed(e)) => assert_eq!(e.to_string(), "unknown function: nosuchfn"),
        _ => panic!("expected an error"),
    }
    let merged = step_env(&map(&[("P", "p")]), &None, &ctx(), "/w", &no_files()).ok().unwrap();
    assert_eq!(get(&merged, "P"), Some("p".to_string()));
    let inputs = action_inputs(&StrMap::new(), &None, &ctx(), "/w", &no_files()).ok().unwrap();
    assert_eq!(inputs.len(), 0);
}

#[test]
fn script_results_follow_exit_code_and_continue_on_error() {
    let mut s = step();
    s.run = Some("echo hi\nmore".into());
    let ok = script_step_result("build", &s, 0, "out=1\n").ok().unwrap();
    assert!(ok.success);
    assert_eq!(get(&ok.outputs, "out"), Some("1".to_string()));
    match script_step_result("build", &s, 2, "") {
        Err(e) => assert_eq!(e.to_string(), "step 'echo hi' in job 'build' failed (exit code 2)"),
        Ok(_) => panic!("expected a failure"),
    }
    s.continue_on_error = Some(true);
    let soft = script_step_result("build", &s, 2, "out=2\n").ok().unwrap();
    assert!(!soft.success);
    assert_eq!(get(&soft.outputs, "out"), Some("2".to_string()));
}

#[test]
fn builtin_results() {
    let r = builtin_step_result(Ok(map(&[("k", "v")])), false).ok().unwrap();
    assert!(r.success && get(&r.outputs, "k") == Some("v".to_string()));
    let err = || Error::Action { action: "actions/cache".into(), message: "key input is required".into() };
    let r = builtin_step_result(Err(err()), true).ok().unwrap();
    assert!(!r.success && r.outputs.len() == 0);
    match builtin_step_result(Err(err()), false) {
        Err(e) => assert_eq!(e.to_string(), "action 'actions/cache' error: key input is required"),
        Ok(_) => panic!("expected the error"),
    }
}

fn yml(using: &str, main: Option<&str>) -> ActionYml {
    ActionYml {
        name: None,
        description: None,
        inputs: None,
        runs: ActionRuns {
            using: using.to_string(),
            steps: None,
            main: main.map(|s| s.to_string()),
            pre: None,
            post: None,
            image: None,
            entrypoint: None,
            args: None,
        },
    }
}

fn finished(r: ActionRun) -> Result<StepResult, Error> {
    match r {
        ActionRun::Finished(x) => x,
        _ => panic!("expected the step to be over"),
    }
}

#[test]
fn action_kinds() {
    assert!(matches!(action_run("a/b@v1", Some(&yml("composite", None)), false), ActionRun::Composite));
    match action_run("a/b@v1", Some(&yml("node20", Some("dist/index.js"))), false) {
        ActionRun::Node(m) => assert_eq!(m, "dist/index.js"),
        _ => panic!("expected a node action"),
    }
    let r = finished(action_run("a/b@v1", Some(&yml("node16", None)), false)).ok().unwrap();
    assert!(!r.success);
    match finished(action_run("a/b@v1", Some(&yml("docker", None)), false)) {
        Err(e) => assert_eq!(e.to_string(), "action 'a/b@v1' error: unsupported action type: docker"),
        Ok(_) => panic!("expected an error"),
    }
    assert!(!finished(action_run("a/b@v1", Some(&yml("docker", None)), true)).ok().unwrap().success);
    match finished(action_run("a/b@v1", None, false)) {
        Err(e) => assert_eq!(e.to_string(), "action 'a/b@v1' error: no action.yml/action.yaml found"),
        Ok(_) => panic!("expected an error"),
    }
    assert!(!finished(action_run("a/b@v1", None, true)).ok().unwrap().success);
}

#[test]
fn action_path_is_given_to_the_step() {
    let mut env = map(&[("A", "a")]);
    let mut inputs = StrMap::new();
    let mut c = ctx();
    c.github = parse_json(r#"{"ref": "r"}"#).ok().unwrap();
    with_action_path(&mut env, &mut inputs, &mut c, "/cache/a/b");
    assert_eq!(get(&env, "GITHUB_ACTION_PATH"), Some("/cache/a/b".to_string()));
    assert_eq!(get(&inputs, "GITHUB_ACTION_PATH"), Some("/cache/a/b".to_string()));
    match &c.github {
        Value::Object(m) => {
            assert_eq!(m.get("action_path").map(|v| v.to_str()), Some("/cache/a/b".to_string()));
            assert_eq!(m.get("ref").map(|v| v.to_str()), Some("r".to_string()));
        }
        _ => panic!("expected an object"),
    }
}

#[test]
fn plan_termination_check() {
    let mut c = ctx();
    c.env.insert("LOOP".into(), "${{ env.LOOP }}".into());
    let mut s = step();
    s.run = Some("echo ${{ env.A }}".into());
    assert!(plan_ends_within(&s, &c, &StrMap::new(), "/tmp", &Vec::new(), 50));
    let mut e = StrMap::new();
    e.insert("X".into(), "${{ env.LOOP }}".into());
    s.env = Some(e);
    assert!(!plan_ends_within(&s, &c, &StrMap::new(), "/tmp", &Vec::new(), 50));
}
