use enact_core::engine::{collect_transitive_deps, topological_sort};
use enact_core::model::{Job, JobNeeds, RunsOn, Step};

fn step(run: &str) -> Step {
    Step {
        id: None,
        name: None,
        run: Some(run.to_string()),
        uses: None,
        with: None,
        env: None,
        condition: None,
        shell: None,
        working_directory: None,
        continue_on_error: None,
        timeout_minutes: None,
    }
}

fn job(needs: Option<JobNeeds>, run: &str) -> Job {
    Job {
        name: None,
        runs_on: Some(RunsOn::Single("ubuntu-latest".to_string())),
        needs,
        steps: Some(vec![step(run)]),
        env: None,
        condition: None,
        container: None,
        services: None,
        strategy: None,
        timeout_minutes: None,
        continue_on_error: None,
        outputs: None,
    }
}

fn one(s: &str) -> Option<JobNeeds> {
    Some(JobNeeds::Single(s.to_string()))
}

fn many(v: &[&str]) -> Option<JobNeeds> {
    Some(JobNeeds::Multiple(v.iter().map(|s| s.to_string()).collect()))
}

#[test]
fn test_topological_sort_linear() {
    let jobs = vec![
        ("a".to_string(), job(None, "echo a")),
        ("b".to_string(), job(one("a"), "echo b")),
        ("c".to_string(), job(one("b"), "echo c")),
    ];
    let order = topological_sort(&jobs, None).unwrap();
    assert_eq!(order, vec!["a", "b", "c"]);
}

#[test]
fn test_topological_sort_diamond() {
    let jobs = vec![
        ("a".to_string(), job(None, "echo a")),
        ("b".to_string(), job(one("a"), "echo b")),
        ("c".to_string(), job(one("a"), "echo c")),
        ("d".to_string(), job(many(&["b", "c"]), "echo d")),
    ];
    let order = topological_sort(&jobs, None).unwrap();
    assert_eq!(order[0], "a");
    assert_eq!(order[3], "d");
}

#[test]
fn test_topological_sort_target() {
    let jobs = vec![
        ("build".to_string(), job(None, "echo build")),
        ("test".to_string(), job(one("build"), "echo test")),
        ("deploy".to_string(), job(one("test"), "echo deploy")),
        ("unrelated".to_string(), job(None, "echo unrelated")),
    ];
    let order = topological_sort(&jobs, Some("test")).unwrap();
    assert_eq!(order.len(), 2);
    assert_eq!(order[0], "build");
    assert_eq!(order[1], "test");
}

#[test]
fn greatest_ready_job_runs_first() {
    let jobs = vec![
        ("a".to_string(), job(None, "x")),
        ("b".to_string(), job(one("a"), "x")),
        ("c".to_string(), job(one("a"), "x")),
        ("d".to_string(), job(many(&["b", "c"]), "x")),
        ("e".to_string(), job(None, "x")),
    ];
    let order = topological_sort(&jobs, None).unwrap();
    assert_eq!(order, vec!["e", "a", "c", "b", "d"]);
}

#[test]
fn cycle_is_refused() {
    let jobs = vec![
        ("a".to_string(), job(one("b"), "x")),
        ("b".to_string(), job(one("a"), "x")),
        ("c".to_string(), job(None, "x")),
    ];
    let err = topological_sort(&jobs, None).unwrap_err();
    assert_eq!(
        err.to_string(),
        "job dependency cycle: circular dependency detected among jobs"
    );
}

#[test]
fn unknown_needs_are_ignored_without_target_but_refused_with_one() {
    let jobs = vec![("a".to_string(), job(one("ghost"), "x"))];
    assert_eq!(topological_sort(&jobs, None).unwrap(), vec!["a"]);
    let err = topological_sort(&jobs, Some("a")).unwrap_err();
    assert_eq!(
        err.to_string(),
        "workflow validation: job 'a' depends on non-existent job 'ghost'"
    );
    let err = topological_sort(&jobs, Some("nope")).unwrap_err();
    assert_eq!(err.to_string(), "workflow validation: target job 'nope' not found");
}

#[test]
fn transitive_deps_follow_needs() {
    let jobs = vec![
        ("a".to_string(), job(None, "x")),
        ("b".to_string(), job(one("a"), "x")),
        ("c".to_string(), job(many(&["b", "a"]), "x")),
        ("d".to_string(), job(None, "x")),
    ];
    let mut deps = collect_transitive_deps("c", &jobs).unwrap();
    deps.sort();
    assert_eq!(deps, vec!["a", "b", "c"]);
}
