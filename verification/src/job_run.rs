//! The decisions taken while a job runs: its contexts and environment, and
//! what each step's end does to them.  The runner runs the steps.
use crate::context::{ExpressionContext, JobStatus, empty_object};
use crate::env_files::{github_file, parse_github_file_content, parse_github_path_content, path_lines_from, strings_view};
use crate::error::{Error, SpecError};
use crate::evaluator::{condition_ends, condition_result, evaluate_condition, map_to_value, sets_of};
use crate::functions::{EvalError, FileSet, SpecStop};
use crate::github::{build_github_context, github_context_pairs};
use crate::model::{Container, Job, Step};
use crate::number::{nat_number, number_from_u64};
use crate::runner::{JobResult, StepResult};
use crate::runner_ctx::{build_runner_context, runner_entries};
use crate::step_run::{continues_on_error, Sets, TextMap};
use crate::strmap::{fold_insert, StrMap};
use crate::text::{join_strings, join_texts, lines_of, push_str};
use crate::value::{map_value, member_pairs_view, obj_fold, obj_insert, ObjectMap, SpecValue, Value};
use vstd::prelude::*;

verus! {

/// What a job runs with; paths are given as text.
pub struct JobConfig<'a> {
    pub job_id: &'a str,
    pub job: &'a Job,
    pub event_name: &'a str,
    pub workspace: &'a str,
    pub repository: &'a str,
    pub sha: &'a str,
    pub git_ref: &'a str,
    pub extra_env: &'a StrMap,
    pub secrets: &'a StrMap,
    pub workflow_env: &'a StrMap,
    pub runner_temp: &'a str,
    pub actions_cache: &'a str,
    pub event_payload: &'a Value,
    pub matrix_values: &'a Value,
    pub default_shell: &'a str,
    pub needs_ctx: &'a Value,
}

/// The variables a job's own `env` sets (none when absent).
pub open spec fn job_env_map(job: Job) -> TextMap {
    match job.env {
        Some(m) => m@,
        None => Map::empty(),
    }
}

/// The variables of a job's container configuration (none for a bare
/// image or no container).
pub open spec fn container_env_map(job: Job) -> TextMap {
    match job.container {
        Some(Container::Config(c)) => match c.env {
            Some(m) => m@,
            None => Map::empty(),
        },
        _ => Map::empty(),
    }
}

/// The `env` context a job starts with: the workflow's variables, then the
/// job's, then the extra ones, each overriding the ones before.
pub open spec fn job_env_context(workflow_env: TextMap, job: Job, extra_env: TextMap) -> TextMap {
    workflow_env.union_prefer_right(job_env_map(job)).union_prefer_right(extra_env)
}

/// The environment the job's steps start with: the `GITHUB_*` variables,
/// overridden by the workflow's, the job's, the extra ones and those of
/// the job's container configuration, in that order.
pub open spec fn job_environment(
    github_env: TextMap,
    workflow_env: TextMap,
    job: Job,
    extra_env: TextMap,
) -> TextMap {
    github_env.union_prefer_right(job_env_context(workflow_env, job, extra_env)).union_prefer_right(
        container_env_map(job),
    )
}

/// In a job's environment, an extra variable overrides the same variable
/// of the workflow, of the job and of `GITHUB_*`, and only the job's
/// container configuration overrides it; a job's own variable likewise
/// overrides the workflow's.
pub proof fn law_env_precedence(github_env: TextMap, workflow_env: TextMap, job: Job, extra_env: TextMap, k: Seq<char>)
    ensures
        extra_env.dom().contains(k) && !container_env_map(job).dom().contains(k) ==> job_environment(
            github_env,
            workflow_env,
            job,
            extra_env,
        )[k] == extra_env[k],
        job_env_map(job).dom().contains(k) && !extra_env.dom().contains(k) && !container_env_map(
            job,
        ).dom().contains(k) ==> job_environment(github_env, workflow_env, job, extra_env)[k]
            == job_env_map(job)[k],
        container_env_map(job).dom().contains(k) ==> job_environment(
            github_env,
            workflow_env,
            job,
            extra_env,
        )[k] == container_env_map(job)[k],
{
}

/// The `strategy` context of a job run.
pub open spec fn strategy_object() -> SpecValue {
    SpecValue::Object(
        obj_fold(
            Seq::empty(),
            seq![
                ("fail-fast"@, SpecValue::Bool(true)),
                ("job-index"@, SpecValue::Num(nat_number(0))),
                ("job-total"@, SpecValue::Num(nat_number(1))),
                ("max-parallel"@, SpecValue::Num(nat_number(1))),
            ],
        ),
    )
}

/// The `github` context of a job.
pub open spec fn job_github_context(c: JobConfig) -> SpecValue {
    SpecValue::Object(
        obj_fold(
            Seq::empty(),
            github_context_pairs(
                c.event_name@,
                c.workspace@,
                c.repository@,
                c.sha@,
                c.git_ref@,
                c.job_id@,
                c.event_payload@,
            ),
        ),
    )
}

/// The `env` map of a job's own `env`, as a map to copy from.
fn job_env_of(job: &Job) -> (m: StrMap)
    ensures
        m@ == job_env_map(*job),
{
    match &job.env {
        Some(m) => m.copy(),
        None => StrMap::new(),
    }
}

fn container_env_of(job: &Job) -> (m: StrMap)
    ensures
        m@ == container_env_map(*job),
{
    match &job.container {
        Some(Container::Config(c)) => match &c.env {
            Some(m) => m.copy(),
            None => StrMap::new(),
        },
        _ => StrMap::new(),
    }
}

/// The environment the job's steps start with (`job_environment`), given
/// the `GITHUB_*` variables.
pub fn job_env(github_env: &StrMap, workflow_env: &StrMap, job: &Job, extra_env: &StrMap) -> (m:
    StrMap)
    ensures
        m@ == job_environment(github_env@, workflow_env@, *job, extra_env@),
{
    let mut m = github_env.copy();
    let ghost g = m@;
    m.extend(workflow_env);
    m.extend(&job_env_of(job));
    m.extend(extra_env);
    m.extend(&container_env_of(job));
    assert(m@ =~= job_environment(github_env@, workflow_env@, *job, extra_env@));
    m
}

fn strategy_value() -> (v: Value)
    ensures
        v@ == strategy_object(),
{
    let mut pairs: Vec<(String, Value)> = Vec::new();
    pairs.push((String::from_str("fail-fast"), Value::Bool(true)));
    pairs.push((String::from_str("job-index"), Value::Number(number_from_u64(0))));
    pairs.push((String::from_str("job-total"), Value::Number(number_from_u64(1))));
    pairs.push((String::from_str("max-parallel"), Value::Number(number_from_u64(1))));
    assert(member_pairs_view(pairs@) =~= seq![
        ("fail-fast"@, SpecValue::Bool(true)),
        ("job-index"@, SpecValue::Num(nat_number(0))),
        ("job-total"@, SpecValue::Num(nat_number(1))),
        ("max-parallel"@, SpecValue::Num(nat_number(1))),
    ]);
    Value::Object(ObjectMap::from_pairs(&pairs))
}

/// The expression contexts a job starts with: its `github` context, the
/// `runner` context (for the given architecture), the matrix values and
/// the `needs` context it was given, the fixed `strategy` context, the
/// `env` context (`job_env_context`) and the secrets.
pub fn build_job_expr_ctx(config: &JobConfig, arch: &str) -> (c: ExpressionContext)
    ensures
        c.github@ == job_github_context(*config),
        c.runner@ == fold_insert(Map::empty(), runner_entries(config.runner_temp@, arch@)),
        c.matrix@ == config.matrix_values@,
        c.needs@ == config.needs_ctx@,
        c.strategy@ == strategy_object(),
        c.env@ == job_env_context(config.workflow_env@, *config.job, config.extra_env@),
        c.secrets@ == config.secrets@,
        c.vars@ == Map::<Seq<char>, Seq<char>>::empty(),
        c.inputs@ == Map::<Seq<char>, Seq<char>>::empty(),
        c.job@ == empty_object(),
        c.steps@ == empty_object(),
        c.job_status == JobStatus::Success,
{
    let mut c = ExpressionContext::new();
    c.github = build_github_context(
        config.event_name,
        config.workspace,
        config.repository,
        config.sha,
        config.git_ref,
        config.job_id,
        config.event_payload,
    );
    c.runner = build_runner_context(config.runner_temp, arch);
    c.matrix = config.matrix_values.copy();
    c.needs = config.needs_ctx.copy();
    c.strategy = strategy_value();
    let mut env = StrMap::new();
    env.extend(config.workflow_env);
    env.extend(&job_env_of(config.job));
    env.extend(config.extra_env);
    assert(env@ =~= job_env_context(config.workflow_env@, *config.job, config.extra_env@));
    c.env = env;
    let mut secrets = StrMap::new();
    secrets.extend(config.secrets);
    assert(secrets@ =~= config.secrets@);
    c.secrets = secrets;
    c
}

/// Whether a job runs: its condition holds, or it has none.
pub open spec fn job_runs(job: Job, ctx: ExpressionContext, ws: Seq<char>, sets: Sets) -> Result<
    bool,
    SpecStop,
> {
    match job.condition {
        Some(c) => condition_result(c@, ctx, ws, sets),
        None => Ok(true),
    }
}

/// Evaluates a job's `if:` condition (`job_runs`); a job that does not run
/// counts as a success with no outputs.
pub fn job_should_run(job: &Job, ctx: &ExpressionContext, workspace: &str, sets: &Vec<FileSet>) -> (r:
    Result<bool, EvalError>)
    requires
        job.condition matches Some(c) ==> condition_ends(c@, *ctx, workspace@, sets_of(sets@)),
    ensures
        match job_runs(*job, *ctx, workspace@, sets_of(sets@)) {
            Ok(b) => r == Ok::<bool, EvalError>(b),
            Err(e) => r matches Err(x) && x@ == e,
        },
{
    match &job.condition {
        Some(c) => evaluate_condition(c.as_str(), ctx, workspace, sets),
        None => Ok(true),
    }
}

/// The steps of a job; a job without any is an error.
pub fn job_steps<'a>(job_id: &str, job: &'a Job) -> (r: Result<&'a Vec<Step>, Error>)
    ensures
        match job.steps {
            Some(v) => r matches Ok(x) && *x == v,
            None => r matches Err(e) && e@ == SpecError::Validation(
                "job '"@ + job_id@ + "' has no steps"@,
            ),
        },
{
    match &job.steps {
        Some(v) => Ok(v),
        None => {
            let mut m = String::from_str("job '");
            push_str(&mut m, job_id);
            push_str(&mut m, "' has no steps");
            Err(Error::Validation(m))
        },
    }
}

/// The text of a step's outcome.
pub open spec fn outcome_text(success: bool) -> Seq<char> {
    if success {
        "success"@
    } else {
        "failure"@
    }
}

/// The record of a step in the `steps` context: its outputs, its outcome,
/// and its conclusion (a success whenever the step continues on error).
pub open spec fn step_entry(outputs: TextMap, success: bool, coe: bool) -> SpecValue {
    SpecValue::Object(
        obj_fold(
            Seq::empty(),
            seq![
                ("outputs"@, map_value(outputs)),
                ("outcome"@, SpecValue::Str(outcome_text(success))),
                ("conclusion"@, SpecValue::Str(outcome_text(success || coe))),
            ],
        ),
    )
}

/// The `steps` context with the record of step `id` set (when it is an
/// object).
pub open spec fn with_entry(steps: SpecValue, id: Seq<char>, entry: SpecValue) -> SpecValue {
    match steps {
        SpecValue::Object(es) => SpecValue::Object(obj_insert(es, id, entry)),
        other => other,
    }
}

/// The `PATH` after a step added directories: the added ones joined with
/// `:`, then `:`, then the current `PATH` (a default one when unset).
pub open spec fn path_value(added: Seq<Seq<char>>, env: TextMap) -> Seq<char> {
    join_texts(added, ":"@) + ":"@ + (if env.dom().contains("PATH"@) {
        env["PATH"@]
    } else {
        "/usr/local/bin:/usr/bin:/bin"@
    })
}

/// `env` with what a step wrote to `GITHUB_ENV` and `GITHUB_PATH`: the
/// variables set, then the `PATH` extended when directories were added
/// (`PATH` taken from `current` once the variables are set).
pub open spec fn env_after_files(env: TextMap, current: TextMap, env_file: Seq<char>, path_file: Seq<char>) -> TextMap {
    let vars = github_file(env_file);
    let paths = path_lines_from(lines_of(path_file), 0);
    if paths.len() > 0 {
        env.union_prefer_right(vars).insert(
            "PATH"@,
            path_value(paths, current.union_prefer_right(vars)),
        )
    } else {
        env.union_prefer_right(vars)
    }
}

/// The state of a running job between two of its steps.
pub struct JobRun {
    /// The contexts the next step's expressions are evaluated in.
    pub ctx: ExpressionContext,
    /// The environment the next step starts from.
    pub live_env: StrMap,
    /// The outputs of the steps so far.
    pub outputs: StrMap,
    /// Whether no step has failed the job so far.
    pub success: bool,
}

/// Sets `PATH` in both maps when directories were added.
pub(crate) fn add_paths(live: &mut StrMap, env: &mut StrMap, paths: &Vec<String>)
    ensures
        paths@.len() == 0 ==> final(live)@ == old(live)@ && final(env)@ == old(env)@,
        paths@.len() > 0 ==> final(live)@ == old(live)@.insert(
            "PATH"@,
            path_value(strings_view(paths@), old(live)@),
        ) && final(env)@ == old(env)@.insert("PATH"@, path_value(strings_view(paths@), old(live)@)),
{
    if paths.len() == 0 {
        return;
    }
    let added = join_strings(paths, ":");
    assert(strings_view(paths@) =~= paths@.map_values(|s: String| s@));
    let mut updated = added;
    push_str(&mut updated, ":");
    match live.get("PATH") {
        Some(p) => push_str(&mut updated, p.as_str()),
        None => push_str(&mut updated, "/usr/local/bin:/usr/bin:/bin"),
    }
    let copy = updated.clone();
    live.insert(String::from_str("PATH"), updated);
    env.insert(String::from_str("PATH"), copy);
}

impl JobRun {
    /// A job run about to start its first step.
    pub fn new(ctx: ExpressionContext, live_env: StrMap) -> (r: JobRun)
        ensures
            r.ctx == ctx,
            r.live_env == live_env,
            r.outputs@ == Map::<Seq<char>, Seq<char>>::empty(),
            r.success,
    {
        JobRun { ctx, live_env, outputs: StrMap::new(), success: true }
    }

    /// Takes in the end of a step, given what it left in `GITHUB_ENV` and
    /// `GITHUB_PATH` (read once it finished): returns whether the job goes
    /// on.  A step that ended records itself in the `steps` context (when
    /// it has an id), adds its outputs, fails the job when it failed and
    /// does not continue on error, and applies the two files.  A step that
    /// stopped with an error stops the job unless it continues on error,
    /// and then changes nothing.
    pub fn record_step(
        &mut self,
        step: &Step,
        result: Result<StepResult, Error>,
        env_file: &str,
        path_file: &str,
    ) -> (go_on: bool)
        ensures
            final(self).ctx.github == old(self).ctx.github,
            final(self).ctx.secrets == old(self).ctx.secrets,
            final(self).ctx.vars == old(self).ctx.vars,
            final(self).ctx.runner == old(self).ctx.runner,
            final(self).ctx.inputs == old(self).ctx.inputs,
            final(self).ctx.matrix == old(self).ctx.matrix,
            final(self).ctx.strategy == old(self).ctx.strategy,
            final(self).ctx.needs == old(self).ctx.needs,
            final(self).ctx.job == old(self).ctx.job,
            match result {
                Ok(s) => {
                    &&& go_on
                    &&& final(self).ctx.steps@ == match step.id {
                        Some(id) => with_entry(
                            old(self).ctx.steps@,
                            id@,
                            step_entry(s.outputs@, s.success, continues_on_error(*step)),
                        ),
                        None => old(self).ctx.steps@,
                    }
                    &&& final(self).outputs@ == old(self).outputs@.union_prefer_right(s.outputs@)
                    &&& final(self).success == (old(self).success && (s.success
                        || continues_on_error(*step)))
                    &&& final(self).ctx.job_status == if !s.success && !continues_on_error(*step) {
                        JobStatus::Failure
                    } else {
                        old(self).ctx.job_status
                    }
                    &&& final(self).live_env@ == env_after_files(
                        old(self).live_env@,
                        old(self).live_env@,
                        env_file@,
                        path_file@,
                    )
                    &&& final(self).ctx.env@ == env_after_files(
                        old(self).ctx.env@,
                        old(self).live_env@,
                        env_file@,
                        path_file@,
                    )
                },
                Err(_) => {
                    &&& go_on == continues_on_error(*step)
                    &&& final(self).success == (old(self).success && continues_on_error(*step))
                    &&& final(self).outputs == old(self).outputs
                    &&& final(self).live_env == old(self).live_env
                    &&& final(self).ctx.env == old(self).ctx.env
                    &&& final(self).ctx.steps == old(self).ctx.steps
                    &&& final(self).ctx.job_status == old(self).ctx.job_status
                },
            },
    {
        let coe = step.continue_on_error == Some(true);
        match result {
            Err(_) => {
                if !coe {
                    self.success = false;
                }
                coe
            },
            Ok(s) => {
                if let Some(id) = &step.id {
                    let mut entry: Vec<(String, Value)> = Vec::new();
                    entry.push((String::from_str("outputs"), map_to_value(&s.outputs)));
                    let outcome = if s.success {
                        String::from_str("success")
                    } else {
                        String::from_str("failure")
                    };
                    let conclusion = if s.success || coe {
                        String::from_str("success")
                    } else {
                        String::from_str("failure")
                    };
                    entry.push((String::from_str("outcome"), Value::String(outcome)));
                    entry.push((String::from_str("conclusion"), Value::String(conclusion)));
                    assert(member_pairs_view(entry@) =~= seq![
                        ("outputs"@, map_value(s.outputs@)),
                        ("outcome"@, SpecValue::Str(outcome_text(s.success))),
                        ("conclusion"@, SpecValue::Str(outcome_text(s.success || coe))),
                    ]);
                    let record = Value::Object(ObjectMap::from_pairs(&entry));
                    let mut steps = Value::Null;
                    std::mem::swap(&mut steps, &mut self.ctx.steps);
                    self.ctx.steps = match steps {
                        Value::Object(mut m) => {
                            m.insert(id.clone(), record);
                            Value::Object(m)
                        },
                        other => other,
                    };
                }
                self.outputs.extend(&s.outputs);
                if !s.success && !coe {
                    self.success = false;
                    self.ctx.job_status = JobStatus::Failure;
                }
                let vars = parse_github_file_content(env_file);
                self.ctx.env.extend(&vars);
                self.live_env.extend(&vars);
                let paths = parse_github_path_content(path_file);
                add_paths(&mut self.live_env, &mut self.ctx.env, &paths);
                true
            },
        }
    }

    /// What the job gave once its steps are over.
    pub fn finish(self) -> (r: JobResult)
        ensures
            r.success == self.success,
            r.outputs == self.outputs,
    {
        JobResult { success: self.success, outputs: self.outputs }
    }
}

} // verus!
