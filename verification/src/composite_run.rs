//! The decisions taken while a composite action runs its steps: the
//! environment and `inputs` context it starts with, what each step runs,
//! and what each step's end does.  The runner runs the scripts.
use crate::action_resolver::{ActionInput, ActionYml, CompositeStep};
use crate::context::ExpressionContext;
use crate::env_files::{github_file, parse_github_file_content, parse_github_path_content};
use crate::error::{Error, SpecError};
use crate::evaluator::{condition_ends, condition_ends_within, condition_result, evaluate_condition, evaluate_expression, interp_ends, interp_ends_within, interp_result, map_to_value, sets_of};
use crate::functions::{EvalError, FileSet, SpecStop};
use crate::job_run::{env_after_files, outcome_text, with_entry};
use crate::runner::CompositeResult;
use crate::step_run::{env_values_end_within, input_var, opt_entries, Sets, TextMap};
use crate::strmap::StrMap;
use crate::text::{has_prefix, lowercase_of, nat_text, push_str, replace_char, replace_char_of, starts_with_str, to_lowercase, to_uppercase, usize_text};
use crate::value::{map_value, member_pairs_view, ObjectMap, SpecValue, Value};
use vstd::prelude::*;

verus! {

/// `m` with the default of each declared input set, in order, unless
/// `inputs` passes the input's variable or the input has no default.
pub open spec fn with_defaults(m: TextMap, decl: Seq<(String, ActionInput)>, inputs: TextMap) -> TextMap
    decreases decl.len(),
{
    if decl.len() == 0 {
        m
    } else {
        let rest = with_defaults(m, decl.drop_last(), inputs);
        let var = input_var(decl.last().0@);
        match decl.last().1.default {
            Some(d) => if inputs.dom().contains(var) {
                rest
            } else {
                rest.insert(var, d@)
            },
            None => rest,
        }
    }
}

/// The declared inputs of an action (none when absent).
pub open spec fn declared_inputs(a: ActionYml) -> Seq<(String, ActionInput)> {
    match a.inputs {
        Some(v) => v@,
        None => Seq::empty(),
    }
}

/// The environment a composite action's steps start with: the step's
/// environment, the defaults of inputs that were not passed, then the
/// inputs passed.
pub open spec fn composite_env(step_env: TextMap, a: ActionYml, inputs: TextMap) -> TextMap {
    with_defaults(step_env, declared_inputs(a), inputs).union_prefer_right(inputs)
}

/// The input named by a variable: what follows `INPUT_`, in lower case,
/// with `_` as `-`.
pub open spec fn input_name(var: Seq<char>) -> Seq<char> {
    replace_char_of(lowercase_of(var.skip(6)), '_', '-')
}

/// `m` with an input set for each `INPUT_` variable of `es`, in order.
pub open spec fn inputs_from_env(m: TextMap, es: Seq<(Seq<char>, Seq<char>)>) -> TextMap
    decreases es.len(),
{
    if es.len() == 0 {
        m
    } else {
        let rest = inputs_from_env(m, es.drop_last());
        if has_prefix(es.last().0, "INPUT_"@) {
            rest.insert(input_name(es.last().0), es.last().1)
        } else {
            rest
        }
    }
}

/// The interpolation of `s`, or `s` itself when the interpolation fails
/// (files still to be found are not a failure).
pub open spec fn interp_or_keep(s: Seq<char>, ctx: ExpressionContext, ws: Seq<char>, sets: Sets) -> Result<
    Seq<char>,
    SpecStop,
> {
    match interp_result(s, ctx, ws, sets) {
        Ok(t) => Ok(t),
        Err(SpecStop::NeedFiles(p)) => Err(SpecStop::NeedFiles(p)),
        Err(SpecStop::Failed(_)) => Ok(s),
    }
}

/// `base` with each variable of `es` set to `interp_or_keep` of its value.
pub open spec fn env_or_keep(
    base: TextMap,
    es: Seq<(Seq<char>, Seq<char>)>,
    ctx: ExpressionContext,
    ws: Seq<char>,
    sets: Sets,
) -> Result<TextMap, SpecStop>
    decreases es.len(),
{
    if es.len() == 0 {
        Ok(base)
    } else {
        match env_or_keep(base, es.drop_last(), ctx, ws, sets) {
            Err(e) => Err(e),
            Ok(m) => match interp_or_keep(es.last().1, ctx, ws, sets) {
                Err(e) => Err(e),
                Ok(t) => Ok(m.insert(es.last().0, t)),
            },
        }
    }
}

/// Every interpolation `env_or_keep` performs ends.
pub open spec fn keep_ends(
    base: TextMap,
    es: Seq<(Seq<char>, Seq<char>)>,
    ctx: ExpressionContext,
    ws: Seq<char>,
    sets: Sets,
) -> bool {
    forall|i: int|
        0 <= i < es.len() && (#[trigger] env_or_keep(base, es.take(i), ctx, ws, sets)) is Ok
            ==> interp_ends(es[i].1, ctx, ws, sets)
}

proof fn lemma_env_or_keep_stops(
    base: TextMap,
    es: Seq<(Seq<char>, Seq<char>)>,
    i: int,
    ctx: ExpressionContext,
    ws: Seq<char>,
    sets: Sets,
)
    requires
        0 <= i <= es.len(),
        env_or_keep(base, es.take(i), ctx, ws, sets) is Err,
    ensures
        env_or_keep(base, es, ctx, ws, sets) == env_or_keep(base, es.take(i), ctx, ws, sets),
    decreases es.len() - i,
{
    if i < es.len() {
        assert(es.take(i + 1).drop_last() =~= es.take(i));
        lemma_env_or_keep_stops(base, es, i + 1, ctx, ws, sets);
    } else {
        assert(es.take(i) =~= es);
    }
}

/// What to do for a step of a composite action.
pub enum CompositePlan {
    /// Nothing: its condition is false, or it uses another action (which
    /// is not run), or it has nothing to run.
    Skip,
    /// Run `script` with `shell` and `env`, in the workspace or in
    /// `working_directory`; the step goes by `name`.
    Run {
        name: String,
        shell: String,
        script: String,
        working_directory: Option<String>,
        env: StrMap,
    },
}

pub ghost enum SpecCompositePlan {
    Skip,
    Run {
        name: Seq<char>,
        shell: Seq<char>,
        script: Seq<char>,
        working_directory: Option<Seq<char>>,
        env: TextMap,
    },
}

impl View for CompositePlan {
    type V = SpecCompositePlan;

    open spec fn view(&self) -> SpecCompositePlan {
        match self {
            CompositePlan::Skip => SpecCompositePlan::Skip,
            CompositePlan::Run { name, shell, script, working_directory, env } => SpecCompositePlan::Run {
                name: name@,
                shell: shell@,
                script: script@,
                working_directory: match working_directory {
                    Some(d) => Some(d@),
                    None => None,
                },
                env: env@,
            },
        }
    }
}

/// The name a step of a composite action goes by: its name interpolated
/// (kept as written when that fails), or `composite step` and its index.
pub open spec fn composite_step_name(
    step: CompositeStep,
    i: int,
    ctx: ExpressionContext,
    ws: Seq<char>,
    sets: Sets,
) -> Result<Seq<char>, SpecStop> {
    match step.name {
        Some(n) => interp_or_keep(n@, ctx, ws, sets),
        None => Ok("composite step "@ + nat_text(i as nat)),
    }
}

/// Whether a step of a composite action runs: its condition holds, or it
/// has none, or the condition cannot be evaluated.
pub open spec fn composite_step_runs(
    step: CompositeStep,
    ctx: ExpressionContext,
    ws: Seq<char>,
    sets: Sets,
) -> Result<bool, SpecStop> {
    match step.condition {
        Some(c) => match condition_result(c@, ctx, ws, sets) {
            Ok(b) => Ok(b),
            Err(SpecStop::NeedFiles(p)) => Err(SpecStop::NeedFiles(p)),
            Err(SpecStop::Failed(_)) => Ok(true),
        },
        None => Ok(true),
    }
}

/// The plan of step `i` of a composite action whose environment is `env`:
/// its name, then whether it runs, its environment (its own variables set
/// by `env_or_keep`), and for a script its shell (`bash` by default), the
/// script and the working directory, both by `interp_or_keep`.
pub open spec fn composite_plan(
    step: CompositeStep,
    i: int,
    env: TextMap,
    ctx: ExpressionContext,
    ws: Seq<char>,
    sets: Sets,
) -> Result<SpecCompositePlan, SpecStop> {
    match composite_step_name(step, i, ctx, ws, sets) {
        Err(e) => Err(e),
        Ok(name) => match composite_step_runs(step, ctx, ws, sets) {
            Err(e) => Err(e),
            Ok(false) => Ok(SpecCompositePlan::Skip),
            Ok(true) => match env_or_keep(env, opt_entries(step.env), ctx, ws, sets) {
                Err(e) => Err(e),
                Ok(step_env) => match step.run {
                    None => Ok(SpecCompositePlan::Skip),
                    Some(cmd) => match interp_or_keep(cmd@, ctx, ws, sets) {
                        Err(e) => Err(e),
                        Ok(script) => {
                            let shell = match step.shell {
                                Some(sh) => sh@,
                                None => "bash"@,
                            };
                            match step.working_directory {
                                None => Ok(
                                    SpecCompositePlan::Run {
                                        name,
                                        shell,
                                        script,
                                        working_directory: None,
                                        env: step_env,
                                    },
                                ),
                                Some(d) => match interp_or_keep(d@, ctx, ws, sets) {
                                    Err(e) => Err(e),
                                    Ok(dir) => Ok(
                                        SpecCompositePlan::Run {
                                            name,
                                            shell,
                                            script,
                                            working_directory: Some(dir),
                                            env: step_env,
                                        },
                                    ),
                                },
                            }
                        },
                    },
                },
            },
        },
    }
}

/// Every interpolation `composite_plan` performs ends.
pub open spec fn composite_plan_ends(
    step: CompositeStep,
    i: int,
    env: TextMap,
    ctx: ExpressionContext,
    ws: Seq<char>,
    sets: Sets,
) -> bool {
    &&& (step.name matches Some(n) ==> interp_ends(n@, ctx, ws, sets))
    &&& (composite_step_name(step, i, ctx, ws, sets) is Ok ==> {
        &&& (step.condition matches Some(c) ==> condition_ends(c@, ctx, ws, sets))
        &&& (composite_step_runs(step, ctx, ws, sets) == Ok::<bool, SpecStop>(true) ==> {
            &&& keep_ends(env, opt_entries(step.env), ctx, ws, sets)
            &&& (env_or_keep(env, opt_entries(step.env), ctx, ws, sets) is Ok ==> (
            step.run matches Some(cmd) ==> {
                &&& interp_ends(cmd@, ctx, ws, sets)
                &&& (interp_or_keep(cmd@, ctx, ws, sets) is Ok ==> (
                step.working_directory matches Some(d) ==> interp_ends(d@, ctx, ws, sets)))
            }))
        })
    })
}

/// `interp_or_keep` on concrete text.
fn interpolate_or_keep(s: &str, ctx: &ExpressionContext, workspace: &str, sets: &Vec<FileSet>) -> (r:
    Result<String, EvalError>)
    requires
        interp_ends(s@, *ctx, workspace@, sets_of(sets@)),
    ensures
        match interp_or_keep(s@, *ctx, workspace@, sets_of(sets@)) {
            Ok(t) => r matches Ok(x) && x@ == t,
            Err(e) => r matches Err(x) && x@ == e,
        },
{
    match evaluate_expression(s, ctx, workspace, sets) {
        Ok(t) => Ok(t),
        Err(EvalError::NeedFiles(p)) => Err(EvalError::NeedFiles(p)),
        Err(EvalError::Failed(_)) => Ok(String::from_str(s)),
    }
}

/// The state of a composite action between two of its steps.
pub struct CompositeRun {
    /// The contexts its expressions are evaluated in.
    pub ctx: ExpressionContext,
    /// The environment its next step starts from.
    pub env: StrMap,
    /// The outputs of its steps so far.
    pub outputs: StrMap,
}

/// `m` with the default of each declared input not passed (`with_defaults`).
fn apply_defaults(m: &mut StrMap, decl: &Vec<(String, ActionInput)>, inputs: &StrMap)
    ensures
        final(m)@ == with_defaults(old(m)@, decl@, inputs@),
{
    let ghost start = m@;
    let mut i: usize = 0;
    while i < decl.len()
        invariant
            i <= decl@.len(),
            m@ == with_defaults(start, decl@.take(i as int), inputs@),
        decreases decl@.len() - i,
    {
        assert(decl@.take(i + 1).drop_last() =~= decl@.take(i as int));
        assert(decl@.take(i + 1).last() == decl@[i as int]);
        let up = to_uppercase(decl[i].0.as_str());
        let name = replace_char(up.as_str(), '-', '_');
        let mut var = String::from_str("INPUT_");
        push_str(&mut var, name.as_str());
        assert(var@ == input_var(decl@[i as int].0@));
        match &decl[i].1.default {
            Some(d) => {
                if !inputs.contains_key(var.as_str()) {
                    m.insert(var, d.clone());
                }
            },
            None => {},
        }
        i += 1;
    }
    assert(decl@.take(i as int) =~= decl@);
}

/// The `inputs` context with an input for each `INPUT_` variable
/// (`inputs_from_env`).
fn add_inputs(m: &mut StrMap, env: &StrMap)
    ensures
        final(m)@ == inputs_from_env(old(m)@, env.entries()),
{
    let ghost start = m@;
    let ghost es = env.entries();
    let mut i: usize = 0;
    while i < env.len()
        invariant
            i <= es.len(),
            es == env.entries(),
            m@ == inputs_from_env(start, es.take(i as int)),
        decreases es.len() - i,
    {
        assert(es.take(i + 1).drop_last() =~= es.take(i as int));
        assert(es.take(i + 1).last() == es[i as int]);
        let k = env.key_at(i);
        if starts_with_str(k.as_str(), "INPUT_") {
            proof {
                reveal_strlit("INPUT_");
            }
            let chars = crate::text::chars_of(k.as_str());
            let rest = crate::text::string_of_range(chars.as_slice(), 6, chars.len());
            assert(rest@ =~= k@.skip(6));
            let low = to_lowercase(rest.as_str());
            let name = replace_char(low.as_str(), '_', '-');
            m.insert(name, env.value_at(i).clone());
        }
        i += 1;
    }
    assert(es.take(i as int) =~= es);
}

impl CompositeRun {
    /// Starts a composite action, given the environment of the step that
    /// uses it and the inputs' variables: nothing when the action has no
    /// steps (it then succeeds with no outputs); otherwise its environment
    /// (`composite_env`) and a copy of the contexts whose `inputs` has an
    /// input for each `INPUT_` variable of that environment.
    pub fn start(action: &ActionYml, step_env: &StrMap, inputs: &StrMap, ctx: &ExpressionContext) -> (r:
        Option<CompositeRun>)
        ensures
            action.runs.steps is None ==> r is None,
            action.runs.steps is Some ==> (r matches Some(run) && {
                &&& run.env@ == composite_env(step_env@, *action, inputs@)
                &&& run.ctx.inputs@ == inputs_from_env(ctx.inputs@, run.env.entries())
                &&& run.ctx.github@ == ctx.github@
                &&& run.ctx.env@ == ctx.env@
                &&& run.ctx.secrets@ == ctx.secrets@
                &&& run.ctx.vars@ == ctx.vars@
                &&& run.ctx.runner@ == ctx.runner@
                &&& run.ctx.matrix@ == ctx.matrix@
                &&& run.ctx.strategy@ == ctx.strategy@
                &&& run.ctx.needs@ == ctx.needs@
                &&& run.ctx.job@ == ctx.job@
                &&& run.ctx.steps@ == ctx.steps@
                &&& run.ctx.job_status == ctx.job_status
                &&& run.outputs@ == Map::<Seq<char>, Seq<char>>::empty()
            }),
    {
        if action.runs.steps.is_none() {
            return None;
        }
        let mut env = step_env.copy();
        match &action.inputs {
            Some(decl) => apply_defaults(&mut env, decl, inputs),
            None => {},
        }
        assert(env@ == with_defaults(step_env@, declared_inputs(*action), inputs@));
        env.extend(inputs);
        let mut c = ctx.copy();
        add_inputs(&mut c.inputs, &env);
        Some(CompositeRun { ctx: c, env, outputs: StrMap::new() })
    }

    /// Whether every interpolation the plan of step `i` could need ends
    /// within `max_steps` replacements each: its name, its condition, each
    /// `env` value, its command and its working directory.  Then
    /// `composite_plan_ends` holds.
    pub fn plan_ends_within(&self, i: usize, step: &CompositeStep, workspace: &str, sets: &Vec<FileSet>, max_steps: usize) -> (b: bool)
        ensures
            b ==> composite_plan_ends(*step, i as int, self.env@, self.ctx, workspace@, sets_of(sets@)),
    {
        let ghost ss = sets_of(sets@);
        let ctx = &self.ctx;
        if let Some(n) = &step.name {
            if !interp_ends_within(n.as_str(), ctx, workspace, sets, max_steps) {
                return false;
            }
        }
        if let Some(c) = &step.condition {
            if !condition_ends_within(c.as_str(), ctx, workspace, sets, max_steps) {
                return false;
            }
        }
        if !env_values_end_within(&step.env, ctx, workspace, sets, max_steps) {
            return false;
        }
        if let Some(cmd) = &step.run {
            if !interp_ends_within(cmd.as_str(), ctx, workspace, sets, max_steps) {
                return false;
            }
        }
        if let Some(d) = &step.working_directory {
            if !interp_ends_within(d.as_str(), ctx, workspace, sets, max_steps) {
                return false;
            }
        }
        proof {
            let es = opt_entries(step.env);
            assert forall|k: int|
                0 <= k < es.len() && (#[trigger] env_or_keep(self.env@, es.take(k), self.ctx, workspace@, ss)) is Ok
                    implies interp_ends(es[k].1, self.ctx, workspace@, ss) by {
                assert(interp_ends(opt_entries(step.env)[k].1, self.ctx, workspace@, ss));
            }
        }
        true
    }

    /// Plans step `i` (`composite_plan`).
    pub fn plan(&self, i: usize, step: &CompositeStep, workspace: &str, sets: &Vec<FileSet>) -> (r:
        Result<CompositePlan, EvalError>)
        requires
            composite_plan_ends(*step, i as int, self.env@, self.ctx, workspace@, sets_of(sets@)),
        ensures
            match composite_plan(*step, i as int, self.env@, self.ctx, workspace@, sets_of(sets@)) {
                Ok(p) => r matches Ok(x) && x@ == p,
                Err(e) => r matches Err(x) && x@ == e,
            },
    {
        let ghost ss = sets_of(sets@);
        let ctx = &self.ctx;
        let name = match &step.name {
            Some(n) => match interpolate_or_keep(n.as_str(), ctx, workspace, sets) {
                Ok(t) => t,
                Err(e) => {
                    return Err(e);
                },
            },
            None => {
                let mut t = String::from_str("composite step ");
                let k = usize_text(i);
                push_str(&mut t, k.as_str());
                t
            },
        };
        if let Some(c) = &step.condition {
            match evaluate_condition(c.as_str(), ctx, workspace, sets) {
                Ok(true) => {},
                Ok(false) => {
                    return Ok(CompositePlan::Skip);
                },
                Err(EvalError::NeedFiles(p)) => {
                    return Err(EvalError::NeedFiles(p));
                },
                Err(EvalError::Failed(_)) => {},
            }
        }
        let mut env = self.env.copy();
        match &step.env {
            None => {},
            Some(m) => {
                let ghost es = m.entries();
                let mut k: usize = 0;
                while k < m.len()
                    invariant
                        es == m.entries(),
                        step.env == Some(*m),
                        k <= es.len(),
                        ss == sets_of(sets@),
                        *ctx == self.ctx,
                        composite_step_name(*step, i as int, self.ctx, workspace@, ss) is Ok,
                        composite_step_runs(*step, self.ctx, workspace@, ss) == Ok::<bool, SpecStop>(
                            true,
                        ),
                        keep_ends(self.env@, es, *ctx, workspace@, ss),
                        env_or_keep(self.env@, es.take(k as int), *ctx, workspace@, ss) == Ok::<
                            TextMap,
                            SpecStop,
                        >(env@),
                    decreases es.len() - k,
                {
                    assert(es.take(k + 1).drop_last() =~= es.take(k as int));
                    assert(es.take(k + 1).last() == es[k as int]);
                    match interpolate_or_keep(m.value_at(k).as_str(), ctx, workspace, sets) {
                        Ok(t) => {
                            env.insert(m.key_at(k).clone(), t);
                        },
                        Err(e) => {
                            proof {
                                lemma_env_or_keep_stops(self.env@, es, k + 1, *ctx, workspace@, ss);
                            }
                            return Err(e);
                        },
                    }
                    k += 1;
                }
                assert(es.take(k as int) =~= es);
            },
        }
        let cmd = match &step.run {
            None => {
                return Ok(CompositePlan::Skip);
            },
            Some(cmd) => cmd,
        };
        let script = match interpolate_or_keep(cmd.as_str(), ctx, workspace, sets) {
            Ok(t) => t,
            Err(e) => {
                return Err(e);
            },
        };
        let shell = match &step.shell {
            Some(sh) => sh.clone(),
            None => String::from_str("bash"),
        };
        let working_directory = match &step.working_directory {
            None => None,
            Some(d) => match interpolate_or_keep(d.as_str(), ctx, workspace, sets) {
                Ok(t) => Some(t),
                Err(e) => {
                    return Err(e);
                },
            },
        };
        Ok(CompositePlan::Run { name, shell, script, working_directory, env })
    }

    /// Takes in the end of a step that ran `name`, given its exit code and
    /// what it left in `GITHUB_ENV`, `GITHUB_PATH` and `GITHUB_OUTPUT`: the
    /// variables and directories are applied to the environment and the
    /// `env` context, the step is recorded in the `steps` context (when it
    /// has an id) and its outputs added; a non-zero exit code then fails
    /// the action.
    pub fn record(
        &mut self,
        step: &CompositeStep,
        name: &str,
        exit_code: i32,
        env_file: &str,
        path_file: &str,
        output_file: &str,
    ) -> (r: Result<(), Error>)
        ensures
            final(self).env@ == env_after_files(old(self).env@, old(self).env@, env_file@, path_file@),
            final(self).ctx.env@ == env_after_files(
                old(self).ctx.env@,
                old(self).env@,
                env_file@,
                path_file@,
            ),
            final(self).ctx.steps@ == match step.id {
                Some(id) => with_entry(
                    old(self).ctx.steps@,
                    id@,
                    crate::job_run::step_entry(github_file(output_file@), exit_code == 0, false),
                ),
                None => old(self).ctx.steps@,
            },
            final(self).outputs@ == old(self).outputs@.union_prefer_right(github_file(output_file@)),
            final(self).ctx.github == old(self).ctx.github,
            final(self).ctx.secrets == old(self).ctx.secrets,
            final(self).ctx.vars == old(self).ctx.vars,
            final(self).ctx.runner == old(self).ctx.runner,
            final(self).ctx.inputs == old(self).ctx.inputs,
            final(self).ctx.matrix == old(self).ctx.matrix,
            final(self).ctx.strategy == old(self).ctx.strategy,
            final(self).ctx.needs == old(self).ctx.needs,
            final(self).ctx.job == old(self).ctx.job,
            final(self).ctx.job_status == old(self).ctx.job_status,
            exit_code == 0 ==> r is Ok,
            exit_code != 0 ==> (r matches Err(e) && e@ == SpecError::StepFailed {
                job: "composite"@,
                step: name@,
                exit_code: exit_code as int,
            }),
    {
        let vars = parse_github_file_content(env_file);
        self.ctx.env.extend(&vars);
        self.env.extend(&vars);
        let paths = parse_github_path_content(path_file);
        crate::job_run::add_paths(&mut self.env, &mut self.ctx.env, &paths);
        let step_outputs = parse_github_file_content(output_file);
        if let Some(id) = &step.id {
            let mut entry: Vec<(String, Value)> = Vec::new();
            entry.push((String::from_str("outputs"), map_to_value(&step_outputs)));
            let outcome = if exit_code == 0 {
                String::from_str("success")
            } else {
                String::from_str("failure")
            };
            let conclusion = outcome.clone();
            entry.push((String::from_str("outcome"), Value::String(outcome)));
            entry.push((String::from_str("conclusion"), Value::String(conclusion)));
            assert(member_pairs_view(entry@) =~= seq![
                ("outputs"@, map_value(step_outputs@)),
                ("outcome"@, SpecValue::Str(outcome_text(exit_code == 0))),
                ("conclusion"@, SpecValue::Str(outcome_text(exit_code == 0 || false))),
            ]);
            let record = Value::Object(ObjectMap::from_pairs(&entry));
            let mut steps = Value::Null;
            std::mem::swap(&mut steps, &mut self.ctx.steps);
            self.ctx.steps = match steps {
                Value::Object(mut m) => {
                    m.insert(id.clone(), record);
                    Value::Object(m)
                },
                other => other,
            };
        }
        self.outputs.extend(&step_outputs);
        if exit_code != 0 {
            return Err(
                Error::StepFailed {
                    job: String::from_str("composite"),
                    step: String::from_str(name),
                    exit_code,
                },
            );
        }
        Ok(())
    }

    /// What the action gave once its steps are over: its outputs, and
    /// success.
    pub fn finish(self) -> (r: CompositeResult)
        ensures
            r.outputs == self.outputs,
            r.success,
    {
        CompositeResult { outputs: self.outputs, success: true }
    }
}

} // verus!
