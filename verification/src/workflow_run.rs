//! The decisions taken while a workflow runs its jobs in order: which jobs
//! are skipped, the matrix runs of a job, how their results make up the
//! job's, and the `needs` context later jobs see.  The runner runs the
//! jobs.
use crate::engine::needs_of;
use crate::error::Error;

use crate::matrix::{combo_label, expand_matrix, format_matrix_combo, maps_view, matrix_expansion, opt_maps_view};
use crate::model::{Job, Workflow};
use crate::runner::JobResult;
use crate::strmap::StrMap;
use crate::text::{push_str, str_eq};
use crate::value::{map_value, member_pairs_view, obj_fold, obj_insert, ObjectMap, SpecValue, Value};
use vstd::prelude::*;

verus! {

/// The shell a workflow's `run` steps use by default: the one its
/// `defaults.run.shell` names, or the runner's.
pub open spec fn workflow_shell(w: Workflow, fallback: Seq<char>) -> Seq<char> {
    match w.defaults {
        Some(d) => match d.run {
            Some(r) => match r.shell {
                Some(s) => s@,
                None => fallback,
            },
            None => fallback,
        },
        None => fallback,
    }
}

/// The default shell of a workflow's `run` steps (`workflow_shell`).
pub fn default_shell(workflow: &Workflow, fallback: &str) -> (s: String)
    ensures
        s@ == workflow_shell(*workflow, fallback@),
{
    if let Some(d) = &workflow.defaults {
        if let Some(r) = &d.run {
            if let Some(sh) = &r.shell {
                return sh.clone();
            }
        }
    }
    String::from_str(fallback)
}

/// The matrix combinations a job runs: those of its matrix, or a single
/// empty one.
pub open spec fn job_combos(job: Job) -> Seq<Seq<(Seq<char>, SpecValue)>> {
    match job.strategy {
        Some(st) => match st.matrix {
            Some(m) => matrix_expansion(
                m.dimensions@,
                opt_maps_view(m.exclude),
                opt_maps_view(m.additions),
            ),
            None => seq![Seq::empty()],
        },
        None => seq![Seq::empty()],
    }
}

/// The matrix combinations a job runs (`job_combos`).
pub fn matrix_runs(job: &Job) -> (r: Vec<ObjectMap>)
    ensures
        maps_view(r@) == job_combos(*job),
{
    if let Some(st) = &job.strategy {
        if let Some(m) = &st.matrix {
            return expand_matrix(m);
        }
    }
    let mut r: Vec<ObjectMap> = Vec::new();
    r.push(ObjectMap::new());
    assert(maps_view(r@) =~= seq![Seq::<(Seq<char>, SpecValue)>::empty()]);
    r
}

/// The name of one matrix run of a job: the job's id and the label of the
/// combination.
pub fn run_name(job_id: &str, combo: &ObjectMap) -> (s: String)
    ensures
        s@ == job_id@ + combo_label(combo@),
{
    let mut s = String::from_str(job_id);
    let label = format_matrix_combo(combo);
    push_str(&mut s, label.as_str());
    s
}

/// Whether a job stops its remaining matrix runs once one fails: its
/// `fail-fast`, true by default.
pub open spec fn fails_fast(job: Job) -> bool {
    match job.strategy {
        Some(st) => match st.fail_fast {
            Some(b) => b,
            None => true,
        },
        None => true,
    }
}

/// How the matrix runs of one job add up so far.
pub struct JobRuns {
    /// The outputs of the runs so far, later ones overriding earlier ones.
    pub outputs: StrMap,
    /// Whether every run so far succeeded.
    pub succeeded: bool,
}

impl JobRuns {
    /// No run yet.
    pub fn new() -> (r: JobRuns)
        ensures
            r.outputs@ == Map::<Seq<char>, Seq<char>>::empty(),
            r.succeeded,
    {
        JobRuns { outputs: StrMap::new(), succeeded: true }
    }

    /// Takes in one matrix run of `job` (one of `runs` in all): returns
    /// whether the remaining runs go on.  A run that stopped with an error
    /// fails the job and stops the runs.  A run that failed fails the job,
    /// and stops the runs, before its outputs count, when the job fails
    /// fast and has more than one run; otherwise its outputs are added.
    pub fn record_run(&mut self, job: &Job, runs: usize, result: Result<JobResult, Error>) -> (go_on:
        bool)
        ensures
            match result {
                Err(_) => !go_on && !final(self).succeeded && final(self).outputs
                    == old(self).outputs,
                Ok(r) => if !r.success && fails_fast(*job) && runs > 1 {
                    !go_on && !final(self).succeeded && final(self).outputs == old(self).outputs
                } else {
                    &&& go_on
                    &&& final(self).succeeded == (old(self).succeeded && r.success)
                    &&& final(self).outputs@ == old(self).outputs@.union_prefer_right(r.outputs@)
                },
            },
    {
        match result {
            Err(_) => {
                self.succeeded = false;
                false
            },
            Ok(r) => {
                if !r.success {
                    self.succeeded = false;
                    let fail_fast = match &job.strategy {
                        Some(st) => match st.fail_fast {
                            Some(b) => b,
                            None => true,
                        },
                        None => true,
                    };
                    if fail_fast && runs > 1 {
                        return false;
                    }
                }
                self.outputs.extend(&r.outputs);
                true
            },
        }
    }
}

/// The entry of a job in the `needs` context: its result and outputs.
pub open spec fn needs_entry(succeeded: bool, outputs: Map<Seq<char>, Seq<char>>) -> SpecValue {
    SpecValue::Object(
        obj_fold(
            Seq::empty(),
            seq![
                (
                    "result"@,
                    SpecValue::Str(
                        if succeeded {
                            "success"@
                        } else {
                            "failure"@
                        },
                    ),
                ),
                ("outputs"@, map_value(outputs)),
            ],
        ),
    )
}

/// The results of the jobs so far as a map (a later entry for an id
/// replacing an earlier one).
pub open spec fn results_map(s: Seq<(String, bool)>) -> Map<Seq<char>, bool>
    decreases s.len(),
{
    if s.len() == 0 {
        Map::empty()
    } else {
        results_map(s.drop_last()).insert(s.last().0@, s.last().1)
    }
}

/// A job needed by `job` that ran and failed, the first in the order of
/// its needs from position `i` on.
pub open spec fn failed_dependency(done: Map<Seq<char>, bool>, deps: Seq<Seq<char>>, i: int) -> Option<
    Seq<char>,
>
    decreases deps.len() - i,
{
    if i < 0 || i >= deps.len() {
        None
    } else if done.dom().contains(deps[i]) && !done[deps[i]] {
        Some(deps[i])
    } else {
        failed_dependency(done, deps, i + 1)
    }
}

/// The state of a workflow run between two jobs.
pub struct WorkflowRun {
    /// The jobs done so far, with whether each succeeded, in order.
    pub completed: Vec<(String, bool)>,
    /// The `needs` context: the result and outputs of each job run so far.
    pub needs_ctx: Value,
    /// Whether every job so far succeeded.
    pub all_success: bool,
}

impl WorkflowRun {
    /// The workflow succeeded so far exactly when every job done so far
    /// did.
    pub open spec fn wf(&self) -> bool {
        self.all_success == forall|i: int| 0 <= i < self.completed@.len() ==> #[trigger] self.completed@[i].1
    }

    /// No job done yet.
    pub fn new() -> (r: WorkflowRun)
        ensures
            r.wf(),
            r.completed@.len() == 0,
            r.needs_ctx@ == SpecValue::Object(Seq::empty()),
            r.all_success,
    {
        WorkflowRun { completed: Vec::new(), needs_ctx: Value::Object(ObjectMap::new()), all_success: true }
    }

    /// The first job `job` needs that ran and failed (`failed_dependency`):
    /// such a job is skipped.
    pub fn dependency_failed(&self, job: &Job) -> (r: Option<String>)
        ensures
            match failed_dependency(results_map(self.completed@), needs_of(*job), 0) {
                Some(d) => r matches Some(x) && x@ == d,
                None => r is None,
            },
    {
        let deps: Vec<String> = match &job.needs {
            Some(n) => n.as_vec(),
            None => Vec::new(),
        };
        let ghost done = results_map(self.completed@);
        assert(deps@.map_values(|s: String| s@) =~= needs_of(*job));
        let mut i: usize = 0;
        while i < deps.len()
            invariant
                i <= deps@.len(),
                deps@.map_values(|s: String| s@) == needs_of(*job),
                done == results_map(self.completed@),
                failed_dependency(done, needs_of(*job), 0) == failed_dependency(
                    done,
                    needs_of(*job),
                    i as int,
                ),
            decreases deps@.len() - i,
        {
            assert(needs_of(*job)[i as int] == deps@[i as int]@);
            match self.result_of(deps[i].as_str()) {
                Some(false) => {
                    return Some(deps[i].clone());
                },
                _ => {},
            }
            i += 1;
        }
        None
    }

    /// The result of the last job with id `id` done so far.
    fn result_of(&self, id: &str) -> (r: Option<bool>)
        ensures
            match r {
                Some(b) => results_map(self.completed@).dom().contains(id@) && results_map(
                    self.completed@,
                )[id@] == b,
                None => !results_map(self.completed@).dom().contains(id@),
            },
    {
        let ghost c = self.completed@;
        let mut found: Option<bool> = None;
        let mut i: usize = 0;
        while i < self.completed.len()
            invariant
                i <= c.len(),
                c == self.completed@,
                match found {
                    Some(b) => results_map(c.take(i as int)).dom().contains(id@) && results_map(
                        c.take(i as int),
                    )[id@] == b,
                    None => !results_map(c.take(i as int)).dom().contains(id@),
                },
            decreases c.len() - i,
        {
            assert(c.take(i + 1).drop_last() =~= c.take(i as int));
            if str_eq(self.completed[i].0.as_str(), id) {
                found = Some(self.completed[i].1);
            }
            i += 1;
        }
        assert(c.take(i as int) =~= c);
        found
    }

    /// Records a job skipped for a failed dependency: it counts as failed
    /// (and does not enter the `needs` context).
    pub fn skip_job(&mut self, job_id: &str)
        requires
            old(self).wf(),
        ensures
            final(self).wf(),
            final(self).completed@ == old(self).completed@.push((final(self).completed@.last().0, false)),
            final(self).completed@.last().0@ == job_id@,
            final(self).needs_ctx == old(self).needs_ctx,
            !final(self).all_success,
    {
        self.completed.push((String::from_str(job_id), false));
        self.all_success = false;
        assert(!self.completed@[self.completed@.len() - 1].1);
    }

    /// Records a job once its matrix runs are over: the workflow fails if
    /// it did, and the job enters the `needs` context with its result and
    /// outputs.
    pub fn finish_job(&mut self, job_id: &str, runs: JobRuns)
        requires
            old(self).wf(),
        ensures
            final(self).wf(),
            final(self).completed@ == old(self).completed@.push(
                (final(self).completed@.last().0, runs.succeeded),
            ),
            final(self).completed@.last().0@ == job_id@,
            final(self).all_success == (old(self).all_success && runs.succeeded),
            final(self).needs_ctx@ == match old(self).needs_ctx@ {
                SpecValue::Object(es) => SpecValue::Object(
                    obj_insert(es, job_id@, needs_entry(runs.succeeded, runs.outputs@)),
                ),
                other => other,
            },
    {
        let result = if runs.succeeded {
            String::from_str("success")
        } else {
            String::from_str("failure")
        };
        let mut entry: Vec<(String, Value)> = Vec::new();
        entry.push((String::from_str("result"), Value::String(result)));
        entry.push((String::from_str("outputs"), crate::evaluator::map_to_value(&runs.outputs)));
        assert(member_pairs_view(entry@) =~= seq![
            (
                "result"@,
                SpecValue::Str(
                    if runs.succeeded {
                        "success"@
                    } else {
                        "failure"@
                    },
                ),
            ),
            ("outputs"@, map_value(runs.outputs@)),
        ]);
        let record = Value::Object(ObjectMap::from_pairs(&entry));
        let mut needs = Value::Null;
        std::mem::swap(&mut needs, &mut self.needs_ctx);
        self.needs_ctx = match needs {
            Value::Object(mut m) => {
                m.insert(String::from_str(job_id), record);
                Value::Object(m)
            },
            other => other,
        };
        let ghost before = self.completed@;
        let ghost was = self.all_success;
        self.completed.push((String::from_str(job_id), runs.succeeded));
        if !runs.succeeded {
            self.all_success = false;
        }
        proof {
            let now = self.completed@;
            assert forall|i: int| 0 <= i < before.len() implies #[trigger] now[i] == before[i] by {}
            assert(now[now.len() - 1].1 == runs.succeeded);
            if self.all_success {
                assert forall|i: int| 0 <= i < now.len() implies #[trigger] now[i].1 by {
                    if i < before.len() {
                        assert(before[i].1);
                    }
                }
            } else if !was {
                let k = choose|k: int| 0 <= k < before.len() && !(#[trigger] before[k].1);
                assert(!now[k].1);
            }
        }
    }
}

} // verus!
