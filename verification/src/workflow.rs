//! The checks a parsed workflow must pass before it runs.
use crate::engine::{job_keys, missing_dep_text, needs_of};
use crate::error::{Error, SpecError};
use crate::model::{strs, Job, Step, Workflow};
use crate::text::{nat_text, push_str, str_eq, usize_text};
use crate::functions::{path_lt, strings_lt};
use crate::paths::{components, components_of, texts};
use vstd::prelude::*;

verus! {

/// The name a step is reported under.
pub open spec fn step_label(s: Step) -> Seq<char> {
    match s.name {
        Some(n) => n@,
        None => "(unnamed)"@,
    }
}

/// What is wrong with step `i` of job `id`, if anything: it must have
/// exactly one of `run` and `uses`.
pub open spec fn step_problem(id: Seq<char>, i: int, s: Step) -> Option<Seq<char>> {
    let head = "job '"@ + id + "', step "@ + nat_text(i as nat) + " ('"@ + step_label(s) + "'): "@;
    if s.run is None && s.uses is None {
        Some(head + "must have either 'run' or 'uses'"@)
    } else if s.run is Some && s.uses is Some {
        Some(head + "cannot have both 'run' and 'uses'"@)
    } else {
        None
    }
}

/// The problem of the first faulty step from position `i` on.
pub open spec fn steps_problem(id: Seq<char>, steps: Seq<Step>, i: int) -> Option<Seq<char>>
    decreases steps.len() - i,
{
    if i < 0 || i >= steps.len() {
        None
    } else if step_problem(id, i, steps[i]) is Some {
        step_problem(id, i, steps[i])
    } else {
        steps_problem(id, steps, i + 1)
    }
}

/// The first job needed that is not among `ids`, reported for job `id`.
pub open spec fn needs_problem(id: Seq<char>, deps: Seq<Seq<char>>, ids: Seq<Seq<char>>, i: int) -> Option<
    Seq<char>,
>
    decreases deps.len() - i,
{
    if i < 0 || i >= deps.len() {
        None
    } else if !ids.contains(deps[i]) {
        Some(missing_dep_text(id, deps[i]))
    } else {
        needs_problem(id, deps, ids, i + 1)
    }
}

/// What is wrong with a job, if anything: it has no step, a faulty step, or
/// needs a job that does not exist (checked in that order).
pub open spec fn job_problem(id: Seq<char>, job: Job, ids: Seq<Seq<char>>) -> Option<Seq<char>> {
    match job.steps {
        None => Some("job '"@ + id + "' must have at least one step"@),
        Some(v) => if v@.len() == 0 {
            Some("job '"@ + id + "' must have at least one step"@)
        } else if steps_problem(id, v@, 0) is Some {
            steps_problem(id, v@, 0)
        } else {
            needs_problem(id, needs_of(job), ids, 0)
        },
    }
}

/// The problem of the first faulty job from position `i` on.
pub open spec fn jobs_problem(jobs: Seq<(String, Job)>, i: int) -> Option<Seq<char>>
    decreases jobs.len() - i,
{
    if i < 0 || i >= jobs.len() {
        None
    } else if job_problem(jobs[i].0@, jobs[i].1, job_keys(jobs)) is Some {
        job_problem(jobs[i].0@, jobs[i].1, job_keys(jobs))
    } else {
        jobs_problem(jobs, i + 1)
    }
}

/// What is wrong with a workflow, if anything: it has no job, or the first
/// faulty job in order has a problem.
pub open spec fn workflow_problem(jobs: Seq<(String, Job)>) -> Option<Seq<char>> {
    if jobs.len() == 0 {
        Some("workflow must have at least one job"@)
    } else {
        jobs_problem(jobs, 0)
    }
}

/// Whether some job has the id `x`.
fn has_job(jobs: &Vec<(String, Job)>, x: &str) -> (b: bool)
    ensures
        b == job_keys(jobs@).contains(x@),
{
    let mut i: usize = 0;
    while i < jobs.len()
        invariant
            i <= jobs@.len(),
            forall|j: int| 0 <= j < i ==> jobs@[j].0@ != x@,
        decreases jobs@.len() - i,
    {
        if str_eq(jobs[i].0.as_str(), x) {
            assert(job_keys(jobs@)[i as int] == x@);
            return true;
        }
        i += 1;
    }
    proof {
        if job_keys(jobs@).contains(x@) {
            let k = choose|k: int| 0 <= k < job_keys(jobs@).len() && job_keys(jobs@)[k] == x@;
            assert(jobs@[k].0@ == x@);
        }
    }
    false
}

/// The problem of step `i` of job `id` (`step_problem`).
fn check_step(id: &String, i: usize, s: &Step) -> (r: Option<String>)
    ensures
        match r {
            Some(m) => step_problem(id@, i as int, *s) == Some(m@),
            None => step_problem(id@, i as int, *s) is None,
        },
{
    let neither = s.run.is_none() && s.uses.is_none();
    let both = s.run.is_some() && s.uses.is_some();
    if !neither && !both {
        return None;
    }
    let mut m = String::new();
    push_str(&mut m, "job '");
    push_str(&mut m, id.as_str());
    push_str(&mut m, "', step ");
    let n = usize_text(i);
    push_str(&mut m, n.as_str());
    push_str(&mut m, " ('");
    match &s.name {
        Some(name) => push_str(&mut m, name.as_str()),
        None => push_str(&mut m, "(unnamed)"),
    }
    push_str(&mut m, "'): ");
    if neither {
        push_str(&mut m, "must have either 'run' or 'uses'");
    } else {
        push_str(&mut m, "cannot have both 'run' and 'uses'");
    }
    Some(m)
}

/// The problem of a job (`job_problem`).
fn check_job(id: &String, job: &Job, jobs: &Vec<(String, Job)>) -> (r: Option<String>)
    ensures
        match r {
            Some(m) => job_problem(id@, *job, job_keys(jobs@)) == Some(m@),
            None => job_problem(id@, *job, job_keys(jobs@)) is None,
        },
{
    let steps = match &job.steps {
        Some(v) if v.len() > 0 => v,
        _ => {
            let mut m = String::new();
            push_str(&mut m, "job '");
            push_str(&mut m, id.as_str());
            push_str(&mut m, "' must have at least one step");
            return Some(m);
        },
    };
    assert(job.steps is Some && job.steps->0@ == steps@ && steps@.len() > 0);
    let mut i: usize = 0;
    while i < steps.len()
        invariant
            i <= steps@.len(),
            job.steps is Some && job.steps->0@ == steps@ && steps@.len() > 0,
            steps_problem(id@, steps@, 0) == steps_problem(id@, steps@, i as int),
        decreases steps@.len() - i,
    {
        match check_step(id, i, &steps[i]) {
            Some(m) => {
                assert(steps_problem(id@, steps@, i as int) == Some(m@));
                return Some(m);
            },
            None => {},
        }
        i += 1;
    }
    assert(steps_problem(id@, steps@, i as int) is None);
    let ghost ids = job_keys(jobs@);
    let deps: Vec<String> = match &job.needs {
        Some(n) => n.as_vec(),
        None => Vec::new(),
    };
    assert(strs(deps@) =~= needs_of(*job));
    let mut k: usize = 0;
    while k < deps.len()
        invariant
            k <= deps@.len(),
            ids == job_keys(jobs@),
            job.steps is Some && job.steps->0@.len() > 0,
            steps_problem(id@, job.steps->0@, 0) is None,
            strs(deps@) == needs_of(*job),
            needs_problem(id@, needs_of(*job), ids, 0) == needs_problem(
                id@,
                needs_of(*job),
                ids,
                k as int,
            ),
        decreases deps@.len() - k,
    {
        if !has_job(jobs, deps[k].as_str()) {
            let mut m = String::new();
            push_str(&mut m, "job '");
            push_str(&mut m, id.as_str());
            push_str(&mut m, "' depends on non-existent job '");
            push_str(&mut m, deps[k].as_str());
            push_str(&mut m, "'");
            assert(strs(deps@)[k as int] == deps@[k as int]@);
            assert(needs_problem(id@, needs_of(*job), ids, k as int) == Some(m@));
            return Some(m);
        }
        assert(strs(deps@)[k as int] == deps@[k as int]@);
        k += 1;
    }
    None
}

/// Checks a workflow (`workflow_problem`): it must have a job, every job a
/// step, every step exactly one of `run` and `uses`, and every job it
/// needs must exist. The first problem, taking the jobs in order, is the
/// error.
pub fn validate_workflow(workflow: &Workflow) -> (r: Result<(), Error>)
    ensures
        match r {
            Ok(()) => workflow_problem(workflow.jobs@) is None,
            Err(e) => exists|m: Seq<char>| workflow_problem(workflow.jobs@) == Some(m) && e@ == SpecError::Validation(m),
        },
{
    let jobs = &workflow.jobs;
    if jobs.len() == 0 {
        let mut m = String::new();
        push_str(&mut m, "workflow must have at least one job");
        return Err(Error::Validation(m));
    }
    let mut i: usize = 0;
    while i < jobs.len()
        invariant
            i <= jobs@.len(),
            jobs@ == workflow.jobs@ && jobs@.len() > 0,
            jobs_problem(jobs@, 0) == jobs_problem(jobs@, i as int),
        decreases jobs@.len() - i,
    {
        match check_job(&jobs[i].0, &jobs[i].1, jobs) {
            Some(m) => {
                assert(jobs_problem(jobs@, i as int) == Some(m@));
                assert(workflow_problem(workflow.jobs@) == Some(m@));
                return Err(Error::Validation(m));
            },
            None => {},
        }
        i += 1;
    }
    assert(jobs_problem(jobs@, i as int) is None);
    Ok(())
}

/// A path inserted into a list sorted by path, after the paths that do not
/// sort after it.
pub open spec fn insert_path(s: Seq<Seq<char>>, x: Seq<char>) -> Seq<Seq<char>>
    decreases s.len(),
{
    if s.len() == 0 {
        seq![x]
    } else if path_lt(x, s[0]) {
        seq![x] + s
    } else {
        seq![s[0]] + insert_path(s.drop_first(), x)
    }
}

/// The paths sorted (stably) in the order of their components.
pub open spec fn sort_paths(s: Seq<Seq<char>>) -> Seq<Seq<char>>
    decreases s.len(),
{
    if s.len() == 0 {
        Seq::empty()
    } else {
        insert_path(sort_paths(s.drop_last()), s.last())
    }
}

/// The paths with each run of paths of the same components kept once.
pub open spec fn dedup_paths(s: Seq<Seq<char>>) -> Seq<Seq<char>>
    decreases s.len(),
{
    if s.len() <= 1 {
        s
    } else {
        let r = dedup_paths(s.drop_last());
        if components_of(r.last()) == components_of(s.last()) {
            r
        } else {
            r.push(s.last())
        }
    }
}

proof fn lemma_dedup_last(s: Seq<Seq<char>>)
    requires
        s.len() > 0,
    ensures
        dedup_paths(s).len() > 0,
        components_of(dedup_paths(s).last()) == components_of(s.last()),
    decreases s.len(),
{
    if s.len() > 1 {
        lemma_dedup_last(s.drop_last());
    }
}

fn same_texts(a: &Vec<String>, b: &Vec<String>) -> (r: bool)
    ensures
        r == (texts(a@) == texts(b@)),
{
    if a.len() != b.len() {
        assert(texts(a@).len() != texts(b@).len());
        return false;
    }
    let mut i: usize = 0;
    while i < a.len()
        invariant
            i <= a@.len() == b@.len(),
            forall|k: int| 0 <= k < i ==> a@[k]@ == b@[k]@,
        decreases a@.len() - i,
    {
        if !str_eq(a[i].as_str(), b[i].as_str()) {
            assert(texts(a@)[i as int] != texts(b@)[i as int]);
            return false;
        }
        i += 1;
    }
    assert(texts(a@) =~= texts(b@));
    true
}

/// Orders the workflow files found: sorted by path, each path once
/// (`dedup_paths` of `sort_paths`).
pub fn order_workflow_files(files: &Vec<String>) -> (r: Vec<String>)
    ensures
        texts(r@) == dedup_paths(sort_paths(texts(files@))),
{
    let ghost fv = texts(files@);
    let mut sorted: Vec<String> = Vec::new();
    let mut keys: Vec<Vec<String>> = Vec::new();
    let mut i: usize = 0;
    while i < files.len()
        invariant
            i <= files@.len(),
            fv == texts(files@),
            keys@.len() == sorted@.len(),
            forall|j: int| 0 <= j < keys@.len() ==> texts(#[trigger] keys@[j]@) == components_of(sorted@[j]@),
            texts(sorted@) == sort_paths(fv.take(i as int)),
        decreases files@.len() - i,
    {
        let path = files[i].clone();
        let k = components(path.as_str());
        assert(fv[i as int] == path@);
        assert(fv.take(i + 1).drop_last() =~= fv.take(i as int));
        let ghost before = texts(sorted@);
        let mut pos: usize = 0;
        assert(before.skip(0) =~= before);
        assert(before.take(0) =~= Seq::<Seq<char>>::empty());
        while pos < sorted.len() && !strings_lt(&k, &keys[pos])
            invariant
                pos <= sorted@.len() == keys@.len(),
                forall|j: int| 0 <= j < keys@.len() ==> texts(#[trigger] keys@[j]@) == components_of(sorted@[j]@),
                texts(k@) == components_of(path@),
                before == texts(sorted@),
                insert_path(before, path@) == before.take(pos as int) + insert_path(
                    before.skip(pos as int),
                    path@,
                ),
            decreases sorted@.len() - pos,
        {
            proof {
                assert(before.skip(pos as int)[0] == before[pos as int]);
                assert(before[pos as int] == sorted@[pos as int]@);
                assert(texts(keys@[pos as int]@) == components_of(sorted@[pos as int]@));
                assert(before.skip(pos as int).drop_first() =~= before.skip(pos + 1));
                assert(before.take(pos + 1) =~= before.take(pos as int).push(before[pos as int]));
                assert(before.take(pos as int) + insert_path(before.skip(pos as int), path@)
                    =~= before.take(pos + 1) + insert_path(before.skip(pos + 1), path@));
            }
            pos += 1;
        }
        proof {
            if pos < sorted@.len() {
                assert(before.skip(pos as int)[0] == before[pos as int]);
                assert(before[pos as int] == sorted@[pos as int]@);
            } else {
                assert(before.skip(pos as int) =~= Seq::<Seq<char>>::empty());
            }
        }
        let ghost pv = path@;
        sorted.insert(pos, path);
        keys.insert(pos, k);
        proof {
            assert(texts(sorted@) =~= before.take(pos as int) + insert_path(before.skip(pos as int), pv));
            assert forall|j: int| 0 <= j < keys@.len() implies texts(#[trigger] keys@[j]@) == components_of(
                sorted@[j]@,
            ) by {}
        }
        i += 1;
    }
    assert(fv.take(i as int) =~= fv);
    let ghost sv = texts(sorted@);
    let mut out: Vec<String> = Vec::new();
    let mut last: Option<usize> = None;
    let mut j: usize = 0;
    while j < sorted.len()
        invariant
            j <= sorted@.len() == keys@.len(),
            sv == texts(sorted@),
            forall|q: int| 0 <= q < keys@.len() ==> texts(#[trigger] keys@[q]@) == components_of(sorted@[q]@),
            texts(out@) == dedup_paths(sv.take(j as int)),
            j == 0 <==> last is None,
            last matches Some(l) ==> l < j && components_of(sorted@[l as int]@) == components_of(
                texts(out@).last(),
            ) && out@.len() > 0,
        decreases sorted@.len() - j,
    {
        assert(sv.take(j + 1).drop_last() =~= sv.take(j as int));
        assert(sv.take(j + 1).last() == sorted@[j as int]@);
        let keep = match last {
            None => true,
            Some(l) => !same_texts(&keys[l], &keys[j]),
        };
        if keep {
            let ghost before = texts(out@);
            out.push(sorted[j].clone());
            assert(texts(out@) =~= before.push(sorted@[j as int]@));
            proof {
                if j == 0 {
                    assert(sv.take(1) =~= seq![sv[0]]);
                } else {
                    lemma_dedup_last(sv.take(j as int));
                }
            }
            last = Some(j);
        } else {
            proof {
                lemma_dedup_last(sv.take(j as int));
            }
        }
        j += 1;
    }
    assert(sv.take(j as int) =~= sv);
    out
}

proof fn lemma_needs_problem_none(id: Seq<char>, deps: Seq<Seq<char>>, ids: Seq<Seq<char>>, i: int)
    requires
        0 <= i,
    ensures
        needs_problem(id, deps, ids, i) is None <==> forall|k: int| i <= k < deps.len() ==> ids.contains(
            #[trigger] deps[k],
        ),
    decreases deps.len() - i,
{
    if i < deps.len() {
        lemma_needs_problem_none(id, deps, ids, i + 1);
    }
}

proof fn lemma_steps_problem_none(id: Seq<char>, steps: Seq<Step>, i: int)
    requires
        0 <= i,
    ensures
        steps_problem(id, steps, i) is None <==> forall|k: int|
            i <= k < steps.len() ==> (#[trigger] steps[k]).run is Some != steps[k].uses is Some,
    decreases steps.len() - i,
{
    if i < steps.len() {
        lemma_steps_problem_none(id, steps, i + 1);
    }
}

/// Whether a job is sound on its own terms: it has at least one step, each
/// step has exactly one of `run` and `uses`, and every job it needs, at
/// whatever position of its `needs`, is one of `ids`.
pub open spec fn job_sound(job: Job, ids: Seq<Seq<char>>) -> bool {
    &&& job.steps matches Some(v) && v@.len() > 0
    &&& forall|k: int|
        0 <= k < job.steps->0@.len() ==> (#[trigger] job.steps->0@[k]).run is Some
            != job.steps->0@[k].uses is Some
    &&& forall|k: int| 0 <= k < needs_of(job).len() ==> ids.contains(#[trigger] needs_of(job)[k])
}

proof fn lemma_job_problem_none(id: Seq<char>, job: Job, ids: Seq<Seq<char>>)
    ensures
        job_problem(id, job, ids) is None <==> job_sound(job, ids),
{
    if let Some(v) = job.steps {
        lemma_steps_problem_none(id, v@, 0);
        lemma_needs_problem_none(id, needs_of(job), ids, 0);
    }
}

proof fn lemma_jobs_problem_none(jobs: Seq<(String, Job)>, i: int)
    requires
        0 <= i,
    ensures
        jobs_problem(jobs, i) is None <==> forall|j: int|
            i <= j < jobs.len() ==> job_sound((#[trigger] jobs[j]).1, job_keys(jobs)),
    decreases jobs.len() - i,
{
    if i < jobs.len() {
        lemma_job_problem_none(jobs[i].0@, jobs[i].1, job_keys(jobs));
        lemma_jobs_problem_none(jobs, i + 1);
    }
}

/// A workflow passes validation exactly when it has a job and every job is
/// sound (`job_sound`); in particular a job that needs, at any position of
/// its `needs`, an id that is no job of the workflow makes it fail.
pub proof fn law_workflow_valid_iff_sound(jobs: Seq<(String, Job)>)
    ensures
        workflow_problem(jobs) is None <==> (jobs.len() > 0 && forall|j: int|
            0 <= j < jobs.len() ==> job_sound((#[trigger] jobs[j]).1, job_keys(jobs))),
        forall|j: int, k: int|
            0 <= j < jobs.len() && 0 <= k < needs_of(jobs[j].1).len() && !job_keys(jobs).contains(
                #[trigger] needs_of(#[trigger] jobs[j].1)[k],
            ) ==> workflow_problem(jobs) is Some,
{
    lemma_jobs_problem_none(jobs, 0);
    assert forall|j: int, k: int|
        0 <= j < jobs.len() && 0 <= k < needs_of(jobs[j].1).len() && !job_keys(jobs).contains(
            #[trigger] needs_of(#[trigger] jobs[j].1)[k],
        ) implies workflow_problem(jobs) is Some by {
        assert(!job_sound(jobs[j].1, job_keys(jobs)));
    }
}

} // verus!
