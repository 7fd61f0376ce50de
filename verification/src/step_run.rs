//! The decisions taken around one step of a job: whether it runs, the
//! environment it gets, what it runs, and how its end is judged.  The
//! runner performs the work itself (running a shell, an action) in
//! between.
use crate::context::ExpressionContext;
use crate::error::{Error, SpecError};
use crate::evaluator::{
    condition_ends, condition_ends_within, condition_result, evaluate_condition, evaluate_expression,
    interp_ends, interp_ends_within, interp_result, sets_of,
};
use crate::functions::{EvalError, FileSet, SpecStop};
use crate::action_resolver::ActionYml;
use crate::env_files::{github_file, parse_github_file_content};
use crate::model::{byte_boundary, first_line, step_display_name, utf8_size, Step};
use crate::runner::StepResult;
use crate::strmap::StrMap;
use crate::text::{
    has_prefix, push_str, replace_char, replace_char_of, starts_with_str, str_eq, to_uppercase,
    uppercase_of,
};
use crate::value::{json_text, obj_insert, to_plain_json, ObjectMap, SpecValue, Value};
use vstd::prelude::*;

verus! {

/// A map of strings as the functions here see it.
pub type TextMap = Map<Seq<char>, Seq<char>>;

/// The file sets known to the evaluation, as it sees them.
pub type Sets = Seq<(Seq<Seq<char>>, Seq<(Seq<char>, Seq<u8>)>)>;

/// The name of a step can be shown (see `Step::display_name`).
pub open spec fn name_showable(s: Step) -> bool {
    s.name is None && s.run is Some && utf8_size(first_line(s.run->0@)) > 60 ==> byte_boundary(
        first_line(s.run->0@),
        57,
    )
}

/// The entries of an optional map (none when absent).
pub open spec fn opt_entries(m: Option<StrMap>) -> Seq<(Seq<char>, Seq<char>)> {
    match m {
        Some(x) => x.entries(),
        None => Seq::empty(),
    }
}

/// `base` with each variable of `es` set to the interpolation of its value,
/// in order; the first interpolation that fails is the error.
pub open spec fn env_with(
    base: TextMap,
    es: Seq<(Seq<char>, Seq<char>)>,
    ctx: ExpressionContext,
    ws: Seq<char>,
    sets: Sets,
) -> Result<TextMap, SpecStop>
    decreases es.len(),
{
    if es.len() == 0 {
        Ok(base)
    } else {
        match env_with(base, es.drop_last(), ctx, ws, sets) {
            Err(e) => Err(e),
            Ok(m) => match interp_result(es.last().1, ctx, ws, sets) {
                Err(e) => Err(e),
                Ok(t) => Ok(m.insert(es.last().0, t)),
            },
        }
    }
}

/// Every interpolation `env_with` performs ends.
pub open spec fn env_ends(
    base: TextMap,
    es: Seq<(Seq<char>, Seq<char>)>,
    ctx: ExpressionContext,
    ws: Seq<char>,
    sets: Sets,
) -> bool {
    forall|i: int|
        0 <= i < es.len() && (#[trigger] env_with(base, es.take(i), ctx, ws, sets)) is Ok
            ==> interp_ends(es[i].1, ctx, ws, sets)
}

/// The variable an action input is passed in: `INPUT_` and the input's
/// name in upper case, with `-` as `_`.
pub open spec fn input_var(name: Seq<char>) -> Seq<char> {
    "INPUT_"@ + replace_char_of(uppercase_of(name), '-', '_')
}

/// `base` with the variable of each input of `es` set, in order: a string
/// value interpolated, any other value as compact JSON; the first
/// interpolation that fails is the error.
pub open spec fn inputs_with(
    base: TextMap,
    es: Seq<(Seq<char>, SpecValue)>,
    ctx: ExpressionContext,
    ws: Seq<char>,
    sets: Sets,
) -> Result<TextMap, SpecStop>
    decreases es.len(),
{
    if es.len() == 0 {
        Ok(base)
    } else {
        match inputs_with(base, es.drop_last(), ctx, ws, sets) {
            Err(e) => Err(e),
            Ok(m) => match es.last().1 {
                SpecValue::Str(s) => match interp_result(s, ctx, ws, sets) {
                    Err(e) => Err(e),
                    Ok(t) => Ok(m.insert(input_var(es.last().0), t)),
                },
                v => Ok(m.insert(input_var(es.last().0), json_text(v, true))),
            },
        }
    }
}

/// Every interpolation `inputs_with` performs ends.
pub open spec fn inputs_end(
    base: TextMap,
    es: Seq<(Seq<char>, SpecValue)>,
    ctx: ExpressionContext,
    ws: Seq<char>,
    sets: Sets,
) -> bool {
    forall|i: int|
        0 <= i < es.len() && (#[trigger] inputs_with(base, es.take(i), ctx, ws, sets)) is Ok
            && es[i].1 is Str ==> interp_ends(es[i].1->Str_0, ctx, ws, sets)
}

proof fn lemma_env_with_stops(
    base: TextMap,
    es: Seq<(Seq<char>, Seq<char>)>,
    i: int,
    ctx: ExpressionContext,
    ws: Seq<char>,
    sets: Sets,
)
    requires
        0 <= i <= es.len(),
        env_with(base, es.take(i), ctx, ws, sets) is Err,
    ensures
        env_with(base, es, ctx, ws, sets) == env_with(base, es.take(i), ctx, ws, sets),
    decreases es.len() - i,
{
    if i < es.len() {
        assert(es.take(i + 1).drop_last() =~= es.take(i));
        lemma_env_with_stops(base, es, i + 1, ctx, ws, sets);
    } else {
        assert(es.take(i) =~= es);
    }
}

proof fn lemma_inputs_with_stops(
    base: TextMap,
    es: Seq<(Seq<char>, SpecValue)>,
    i: int,
    ctx: ExpressionContext,
    ws: Seq<char>,
    sets: Sets,
)
    requires
        0 <= i <= es.len(),
        inputs_with(base, es.take(i), ctx, ws, sets) is Err,
    ensures
        inputs_with(base, es, ctx, ws, sets) == inputs_with(base, es.take(i), ctx, ws, sets),
    decreases es.len() - i,
{
    if i < es.len() {
        assert(es.take(i + 1).drop_last() =~= es.take(i));
        lemma_inputs_with_stops(base, es, i + 1, ctx, ws, sets);
    } else {
        assert(es.take(i) =~= es);
    }
}

/// The environment of a step: the job's live environment with the step's
/// own variables set, their values interpolated (`env_with`).
pub fn step_env(
    live: &StrMap,
    env: &Option<StrMap>,
    ctx: &ExpressionContext,
    workspace: &str,
    sets: &Vec<FileSet>,
) -> (r: Result<StrMap, EvalError>)
    requires
        env_ends(live@, opt_entries(*env), *ctx, workspace@, sets_of(sets@)),
    ensures
        match env_with(live@, opt_entries(*env), *ctx, workspace@, sets_of(sets@)) {
            Ok(m) => r matches Ok(x) && x@ == m,
            Err(e) => r matches Err(x) && x@ == e,
        },
{
    let ghost ss = sets_of(sets@);
    let mut out = live.copy();
    match env {
        None => Ok(out),
        Some(m) => {
            let ghost es = m.entries();
            let mut i: usize = 0;
            while i < m.len()
                invariant
                    es == m.entries(),
                    *env == Some(*m),
                    i <= es.len(),
                    ss == sets_of(sets@),
                    env_ends(live@, es, *ctx, workspace@, ss),
                    env_with(live@, es.take(i as int), *ctx, workspace@, ss) == Ok::<
                        TextMap,
                        SpecStop,
                    >(out@),
                decreases es.len() - i,
            {
                assert(es.take(i + 1).drop_last() =~= es.take(i as int));
                assert(es.take(i + 1).last() == es[i as int]);
                let v = evaluate_expression(m.value_at(i).as_str(), ctx, workspace, sets);
                match v {
                    Ok(t) => {
                        out.insert(m.key_at(i).clone(), t);
                    },
                    Err(e) => {
                        proof {
                            lemma_env_with_stops(live@, es, i + 1, *ctx, workspace@, ss);
                        }
                        return Err(e);
                    },
                }
                i += 1;
            }
            assert(es.take(i as int) =~= es);
            Ok(out)
        },
    }
}

/// The environment of an action step with the variables of its inputs
/// (`inputs_with`).
pub fn action_inputs(
    env: &StrMap,
    with: &Option<ObjectMap>,
    ctx: &ExpressionContext,
    workspace: &str,
    sets: &Vec<FileSet>,
) -> (r: Result<StrMap, EvalError>)
    requires
        inputs_end(
            env@,
            match with {
                Some(w) => w@,
                None => Seq::empty(),
            },
            *ctx,
            workspace@,
            sets_of(sets@),
        ),
    ensures
        match inputs_with(
            env@,
            match with {
                Some(w) => w@,
                None => Seq::empty(),
            },
            *ctx,
            workspace@,
            sets_of(sets@),
        ) {
            Ok(m) => r matches Ok(x) && x@ == m,
            Err(e) => r matches Err(x) && x@ == e,
        },
{
    let ghost ss = sets_of(sets@);
    let mut out = env.copy();
    match with {
        None => {
            assert(inputs_with(env@, Seq::empty(), *ctx, workspace@, ss) == Ok::<
                TextMap,
                SpecStop,
            >(env@));
            Ok(out)
        },
        Some(w) => {
            let ghost es = w@;
            let mut i: usize = 0;
            while i < w.len()
                invariant
                    es == w@,
                    *with == Some(*w),
                    i <= es.len(),
                    ss == sets_of(sets@),
                    inputs_end(env@, es, *ctx, workspace@, ss),
                    inputs_with(env@, es.take(i as int), *ctx, workspace@, ss) == Ok::<
                        TextMap,
                        SpecStop,
                    >(out@),
                decreases es.len() - i,
            {
                assert(es.take(i + 1).drop_last() =~= es.take(i as int));
                assert(es.take(i + 1).last() == es[i as int]);
                let up = to_uppercase(w.key_at(i).as_str());
                let name = replace_char(up.as_str(), '-', '_');
                let mut var = String::from_str("INPUT_");
                push_str(&mut var, name.as_str());
                assert(var@ == input_var(es[i as int].0));
                let text = match w.value_at(i) {
                    Value::String(s) => {
                        match evaluate_expression(s.as_str(), ctx, workspace, sets) {
                            Ok(t) => t,
                            Err(e) => {
                                proof {
                                    lemma_inputs_with_stops(env@, es, i + 1, *ctx, workspace@, ss);
                                }
                                return Err(e);
                            },
                        }
                    },
                    other => to_plain_json(other),
                };
                out.insert(var, text);
                i += 1;
            }
            assert(es.take(i as int) =~= es);
            Ok(out)
        },
    }
}

/// What to do for a step once its condition and environment are known.
pub enum StepPlan {
    /// Its condition is false: it is skipped, and counts as a success.
    Skip,
    /// Run `script` with `shell` and `env`, in the workspace or in
    /// `working_directory` under it.
    Script { shell: String, script: String, working_directory: Option<String>, env: StrMap },
    /// Use the action `uses`; `inputs` is `env` with the variables of the
    /// step's inputs.
    Action { uses: String, env: StrMap, inputs: StrMap },
}

pub ghost enum SpecPlan {
    Skip,
    Script {
        shell: Seq<char>,
        script: Seq<char>,
        working_directory: Option<Seq<char>>,
        env: TextMap,
    },
    Action { uses: Seq<char>, env: TextMap, inputs: TextMap },
}

pub open spec fn opt_text(o: Option<String>) -> Option<Seq<char>> {
    match o {
        Some(s) => Some(s@),
        None => None,
    }
}

impl View for StepPlan {
    type V = SpecPlan;

    open spec fn view(&self) -> SpecPlan {
        match self {
            StepPlan::Skip => SpecPlan::Skip,
            StepPlan::Script { shell, script, working_directory, env } => SpecPlan::Script {
                shell: shell@,
                script: script@,
                working_directory: opt_text(*working_directory),
                env: env@,
            },
            StepPlan::Action { uses, env, inputs } => SpecPlan::Action {
                uses: uses@,
                env: env@,
                inputs: inputs@,
            },
        }
    }
}

/// The entries of a step's inputs (none when absent).
pub open spec fn with_entries(o: Option<ObjectMap>) -> Seq<(Seq<char>, SpecValue)> {
    match o {
        Some(w) => w@,
        None => Seq::empty(),
    }
}

/// Whether a step runs: its condition holds, or it has none.
pub open spec fn step_runs(step: Step, ctx: ExpressionContext, ws: Seq<char>, sets: Sets) -> Result<
    bool,
    SpecStop,
> {
    match step.condition {
        Some(c) => condition_result(c@, ctx, ws, sets),
        None => Ok(true),
    }
}

/// The plan of a step: skipped when its condition is false; otherwise its
/// environment (`env_with` on the live environment), then its script
/// interpolated with its shell (the default one when it names none), or
/// its action with the inputs' variables (`inputs_with`).  A step with
/// neither is an error.
pub open spec fn step_plan(
    step: Step,
    default_shell: Seq<char>,
    ctx: ExpressionContext,
    live: TextMap,
    ws: Seq<char>,
    sets: Sets,
) -> Result<SpecPlan, SpecStop> {
    match step_runs(step, ctx, ws, sets) {
        Err(e) => Err(e),
        Ok(false) => Ok(SpecPlan::Skip),
        Ok(true) => match env_with(live, opt_entries(step.env), ctx, ws, sets) {
            Err(e) => Err(e),
            Ok(env) => match step.run {
                Some(script) => match interp_result(script@, ctx, ws, sets) {
                    Err(e) => Err(e),
                    Ok(t) => Ok(
                        SpecPlan::Script {
                            shell: match step.shell {
                                Some(sh) => sh@,
                                None => default_shell,
                            },
                            script: t,
                            working_directory: opt_text(step.working_directory),
                            env,
                        },
                    ),
                },
                None => match step.uses {
                    Some(u) => match inputs_with(env, with_entries(step.with), ctx, ws, sets) {
                        Err(e) => Err(e),
                        Ok(inputs) => Ok(SpecPlan::Action { uses: u@, env, inputs }),
                    },
                    None => Err(
                        SpecStop::Failed(SpecError::Validation("step has neither 'run' nor 'uses'"@)),
                    ),
                },
            },
        },
    }
}

/// Every interpolation `step_plan` performs ends.
pub open spec fn plan_ends(
    step: Step,
    ctx: ExpressionContext,
    live: TextMap,
    ws: Seq<char>,
    sets: Sets,
) -> bool {
    &&& (step.condition matches Some(c) ==> condition_ends(c@, ctx, ws, sets))
    &&& (step_runs(step, ctx, ws, sets) == Ok::<bool, SpecStop>(true) ==> {
        &&& env_ends(live, opt_entries(step.env), ctx, ws, sets)
        &&& (env_with(live, opt_entries(step.env), ctx, ws, sets) matches Ok(env) ==> {
            &&& (step.run matches Some(script) ==> interp_ends(script@, ctx, ws, sets))
            &&& (step.run is None ==> inputs_end(env, with_entries(step.with), ctx, ws, sets))
        })
    })
}

/// Whether each `env` value of a map interpolates within `max_steps`
/// replacements.
pub(crate) fn env_values_end_within(
    env: &Option<StrMap>,
    ctx: &ExpressionContext,
    workspace: &str,
    sets: &Vec<FileSet>,
    max_steps: usize,
) -> (b: bool)
    ensures
        b ==> forall|i: int|
            0 <= i < opt_entries(*env).len() ==> interp_ends(
                #[trigger] opt_entries(*env)[i].1,
                *ctx,
                workspace@,
                sets_of(sets@),
            ),
{
    match env {
        None => true,
        Some(m) => {
            let ghost es = m.entries();
            let mut i: usize = 0;
            while i < m.len()
                invariant
                    es == m.entries(),
                    *env == Some(*m),
                    i <= es.len(),
                    forall|j: int| 0 <= j < i ==> interp_ends(#[trigger] es[j].1, *ctx, workspace@, sets_of(sets@)),
                decreases es.len() - i,
            {
                if !interp_ends_within(m.value_at(i).as_str(), ctx, workspace, sets, max_steps) {
                    return false;
                }
                i += 1;
            }
            true
        },
    }
}

/// Whether every interpolation a step's plan could need ends within
/// `max_steps` replacements each: its condition, each `env` value, its
/// script and each string input.  Then `plan_ends` holds.
pub fn plan_ends_within(
    step: &Step,
    ctx: &ExpressionContext,
    live: &StrMap,
    workspace: &str,
    sets: &Vec<FileSet>,
    max_steps: usize,
) -> (b: bool)
    ensures
        b ==> plan_ends(*step, *ctx, live@, workspace@, sets_of(sets@)),
{
    let ghost ss = sets_of(sets@);
    if let Some(c) = &step.condition {
        if !condition_ends_within(c.as_str(), ctx, workspace, sets, max_steps) {
            return false;
        }
    }
    if !env_values_end_within(&step.env, ctx, workspace, sets, max_steps) {
        return false;
    }
    if let Some(script) = &step.run {
        if !interp_ends_within(script.as_str(), ctx, workspace, sets, max_steps) {
            return false;
        }
    }
    if let Some(w) = &step.with {
        let ghost es = w@;
        let mut i: usize = 0;
        while i < w.len()
            invariant
                es == w@,
                step.with == Some(*w),
                ss == sets_of(sets@),
                i <= es.len(),
                forall|j: int| 0 <= j < i && (#[trigger] es[j]).1 is Str ==> interp_ends(es[j].1->Str_0, *ctx, workspace@, ss),
            decreases es.len() - i,
        {
            let v = w.value_at(i);
            match v {
                Value::String(t) => {
                    assert(es[i as int].1 == SpecValue::Str(t@));
                    if !interp_ends_within(t.as_str(), ctx, workspace, sets, max_steps) {
                        return false;
                    }
                },
                _ => {
                    assert(!(es[i as int].1 is Str));
                },
            }
            i += 1;
        }
    }
    proof {
        let es = opt_entries(step.env);
        assert forall|i: int|
            0 <= i < es.len() && (#[trigger] env_with(live@, es.take(i), *ctx, workspace@, ss)) is Ok
                implies interp_ends(es[i].1, *ctx, workspace@, ss) by {
            assert(interp_ends(opt_entries(step.env)[i].1, *ctx, workspace@, ss));
        }
        assert forall|env: TextMap| #[trigger] inputs_end(env, with_entries(step.with), *ctx, workspace@, ss) by {
            let ws = with_entries(step.with);
            assert forall|i: int|
                0 <= i < ws.len() && (#[trigger] inputs_with(env, ws.take(i), *ctx, workspace@, ss)) is Ok
                    && ws[i].1 is Str implies interp_ends(ws[i].1->Str_0, *ctx, workspace@, ss) by {
                assert(ws[i] == ws[i]);
            }
        }
    }
    true
}

/// Plans a step (`step_plan`).
pub fn plan_step(
    step: &Step,
    default_shell: &str,
    ctx: &ExpressionContext,
    live: &StrMap,
    workspace: &str,
    sets: &Vec<FileSet>,
) -> (r: Result<StepPlan, EvalError>)
    requires
        plan_ends(*step, *ctx, live@, workspace@, sets_of(sets@)),
    ensures
        match step_plan(*step, default_shell@, *ctx, live@, workspace@, sets_of(sets@)) {
            Ok(p) => r matches Ok(x) && x@ == p,
            Err(e) => r matches Err(x) && x@ == e,
        },
{
    if let Some(c) = &step.condition {
        match evaluate_condition(c.as_str(), ctx, workspace, sets) {
            Ok(true) => {},
            Ok(false) => {
                return Ok(StepPlan::Skip);
            },
            Err(e) => {
                return Err(e);
            },
        }
    }
    let env = match step_env(live, &step.env, ctx, workspace, sets) {
        Ok(m) => m,
        Err(e) => {
            return Err(e);
        },
    };
    if let Some(script) = &step.run {
        let text = match evaluate_expression(script.as_str(), ctx, workspace, sets) {
            Ok(t) => t,
            Err(e) => {
                return Err(e);
            },
        };
        let shell = match &step.shell {
            Some(sh) => sh.clone(),
            None => String::from_str(default_shell),
        };
        let working_directory = match &step.working_directory {
            Some(d) => Some(d.clone()),
            None => None,
        };
        return Ok(StepPlan::Script { shell, script: text, working_directory, env });
    }
    match &step.uses {
        Some(u) => {
            match action_inputs(&env, &step.with, ctx, workspace, sets) {
                Ok(inputs) => Ok(StepPlan::Action { uses: u.clone(), env, inputs }),
                Err(e) => Err(e),
            }
        },
        None => {
            let m = String::from_str("step has neither 'run' nor 'uses'");
            Err(EvalError::Failed(Error::Validation(m)))
        },
    }
}

/// Whether a step carries on when it fails.
pub open spec fn continues_on_error(step: Step) -> bool {
    step.continue_on_error == Some(true)
}

/// Judges the end of a script step from its exit code and what it wrote to
/// `GITHUB_OUTPUT`: success with those outputs at exit code 0; otherwise a
/// failure with those outputs when the step continues on error, and a
/// `StepFailed` error naming the job and the step when it does not.
pub fn script_step_result(job_id: &str, step: &Step, exit_code: i32, github_output: &str) -> (r:
    Result<StepResult, Error>)
    requires
        name_showable(*step),
    ensures
        exit_code == 0 ==> (r matches Ok(s) && s.success && s.outputs@ == github_file(
            github_output@,
        )),
        exit_code != 0 && continues_on_error(*step) ==> (r matches Ok(s) && !s.success
            && s.outputs@ == github_file(github_output@)),
        exit_code != 0 && !continues_on_error(*step) ==> (r matches Err(e) && e@
            == SpecError::StepFailed {
            job: job_id@,
            step: step_display_name(*step),
            exit_code: exit_code as int,
        }),
{
    let outputs = parse_github_file_content(github_output);
    if exit_code != 0 {
        if step.continue_on_error == Some(true) {
            return Ok(StepResult { success: false, outputs });
        }
        return Err(
            Error::StepFailed {
                job: String::from_str(job_id),
                step: step.display_name(),
                exit_code,
            },
        );
    }
    Ok(StepResult { success: true, outputs })
}

/// Judges the end of a built-in action: its outputs on success; on failure
/// an unsuccessful result with no outputs when the step continues on
/// error, the failure itself otherwise.
pub fn builtin_step_result(result: Result<StrMap, Error>, continue_on_error: bool) -> (r: Result<
    StepResult,
    Error,
>)
    ensures
        match result {
            Ok(m) => r matches Ok(s) && s.success && s.outputs@ == m@,
            Err(e) => if continue_on_error {
                r matches Ok(s) && !s.success && s.outputs@ == Map::<Seq<char>, Seq<char>>::empty()
            } else {
                r matches Err(x) && x@ == e@
            },
        },
{
    match result {
        Ok(m) => Ok(StepResult { success: true, outputs: m }),
        Err(e) => {
            if continue_on_error {
                Ok(StepResult { success: false, outputs: StrMap::new() })
            } else {
                Err(e)
            }
        },
    }
}

/// Gives an action step the directory of its action: `GITHUB_ACTION_PATH`
/// in its environment and inputs, and `github.action_path` when the
/// `github` context is an object.
pub fn with_action_path(
    env: &mut StrMap,
    inputs: &mut StrMap,
    ctx: &mut ExpressionContext,
    action_dir: &str,
)
    ensures
        final(env)@ == old(env)@.insert("GITHUB_ACTION_PATH"@, action_dir@),
        final(inputs)@ == old(inputs)@.insert("GITHUB_ACTION_PATH"@, action_dir@),
        final(ctx).github@ == match old(ctx).github@ {
            SpecValue::Object(es) => SpecValue::Object(
                obj_insert(es, "action_path"@, SpecValue::Str(action_dir@)),
            ),
            other => other,
        },
        final(ctx).env == old(ctx).env,
        final(ctx).secrets == old(ctx).secrets,
        final(ctx).vars == old(ctx).vars,
        final(ctx).runner == old(ctx).runner,
        final(ctx).inputs == old(ctx).inputs,
        final(ctx).matrix == old(ctx).matrix,
        final(ctx).strategy == old(ctx).strategy,
        final(ctx).needs == old(ctx).needs,
        final(ctx).job == old(ctx).job,
        final(ctx).steps == old(ctx).steps,
        final(ctx).job_status == old(ctx).job_status,
{
    env.insert(String::from_str("GITHUB_ACTION_PATH"), String::from_str(action_dir));
    inputs.insert(String::from_str("GITHUB_ACTION_PATH"), String::from_str(action_dir));
    let mut g = Value::Null;
    std::mem::swap(&mut g, &mut ctx.github);
    ctx.github = match g {
        Value::Object(mut m) => {
            m.insert(String::from_str("action_path"), Value::String(String::from_str(action_dir)));
            Value::Object(m)
        },
        other => other,
    };
}

/// How an action step goes on once its `action.yml` is read (or found
/// missing).
pub enum ActionRun {
    /// Run the composite action's steps.
    Composite,
    /// Run the Node.js entry point.
    Node(String),
    /// The step is over, with this result.
    Finished(Result<StepResult, Error>),
}

/// Whether `using` names a Node.js runtime.
pub open spec fn is_node(using: Seq<char>) -> bool {
    has_prefix(using, "node"@)
}

/// Decides how an action step goes on from its `action.yml`: no file is a
/// failure (an unsuccessful result when the step continues on error, an
/// action error otherwise); `composite` runs its steps; a Node.js action
/// runs its entry point, or fails without one; any other kind is
/// unsupported, judged like a missing file.
pub fn action_run(uses: &str, yml: Option<&ActionYml>, continue_on_error: bool) -> (r: ActionRun)
    ensures
        match yml {
            None => if continue_on_error {
                r matches ActionRun::Finished(Ok(s)) && !s.success && s.outputs@ == Map::<
                    Seq<char>,
                    Seq<char>,
                >::empty()
            } else {
                r matches ActionRun::Finished(Err(e)) && e@ == SpecError::Action {
                    action: uses@,
                    message: "no action.yml/action.yaml found"@,
                }
            },
            Some(y) => if y.runs.using@ == "composite"@ {
                r is Composite
            } else if is_node(y.runs.using@) {
                match y.runs.main {
                    Some(m) => r matches ActionRun::Node(x) && x@ == m@,
                    None => r matches ActionRun::Finished(Ok(s)) && !s.success && s.outputs@
                        == Map::<Seq<char>, Seq<char>>::empty(),
                }
            } else if continue_on_error {
                r matches ActionRun::Finished(Ok(s)) && !s.success && s.outputs@ == Map::<
                    Seq<char>,
                    Seq<char>,
                >::empty()
            } else {
                r matches ActionRun::Finished(Err(e)) && e@ == SpecError::Action {
                    action: uses@,
                    message: "unsupported action type: "@ + y.runs.using@,
                }
            },
        },
{
    match yml {
        None => {
            if continue_on_error {
                ActionRun::Finished(Ok(StepResult { success: false, outputs: StrMap::new() }))
            } else {
                ActionRun::Finished(
                    Err(
                        Error::Action {
                            action: String::from_str(uses),
                            message: String::from_str("no action.yml/action.yaml found"),
                        },
                    ),
                )
            }
        },
        Some(y) => {
            let using = y.runs.using.as_str();
            if str_eq(using, "composite") {
                ActionRun::Composite
            } else if starts_with_str(using, "node") {
                match &y.runs.main {
                    Some(m) => ActionRun::Node(m.clone()),
                    None => ActionRun::Finished(
                        Ok(StepResult { success: false, outputs: StrMap::new() }),
                    ),
                }
            } else if continue_on_error {
                ActionRun::Finished(Ok(StepResult { success: false, outputs: StrMap::new() }))
            } else {
                let mut m = String::from_str("unsupported action type: ");
                push_str(&mut m, using);
                ActionRun::Finished(
                    Err(Error::Action { action: String::from_str(uses), message: m }),
                )
            }
        },
    }
}

} // verus!
