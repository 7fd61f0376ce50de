//! The order in which a workflow's jobs run: the jobs a target job needs,
//! directly or not, and an order in which every job comes after the jobs
//! it needs.
use crate::error::{Error, SpecError};
use crate::model::{Job, needs_list, strs};
use crate::text::{push_str, str_eq};
use crate::value::{lemma_str_lt_total, lemma_str_lt_trans, str_lt};
use vstd::prelude::*;

verus! {

/// The jobs a job needs, as written.
pub open spec fn needs_of(j: Job) -> Seq<Seq<char>> {
    match j.needs {
        Some(n) => needs_list(&n),
        None => Seq::empty(),
    }
}

/// The ids of a list of jobs, in order.
pub open spec fn job_keys(jobs: Seq<(String, Job)>) -> Seq<Seq<char>> {
    jobs.map_values(|e: (String, Job)| e.0@)
}

/// No job id occurs twice.
pub open spec fn ids_distinct(jobs: Seq<(String, Job)>) -> bool {
    job_keys(jobs).no_duplicates()
}

/// Whether `x` is the id of a job.
pub open spec fn is_job(jobs: Seq<(String, Job)>, x: Seq<char>) -> bool {
    job_keys(jobs).contains(x)
}

/// The jobs the job `x` needs; none when there is no such job.
pub open spec fn deps(jobs: Seq<(String, Job)>, x: Seq<char>) -> Seq<Seq<char>> {
    if is_job(jobs, x) {
        needs_of(jobs[job_keys(jobs).index_of(x)].1)
    } else {
        Seq::empty()
    }
}

/// A set of ids that holds every job needed by a job in it.
pub open spec fn closed(jobs: Seq<(String, Job)>, c: Set<Seq<char>>) -> bool {
    forall|x: Seq<char>, d: Seq<char>|
        c.contains(x) && #[trigger] deps(jobs, x).contains(d) ==> #[trigger] c.contains(d)
}

/// Whether `x` is needed by `t`, directly or not (or is `t`): it lies in
/// every closed set that holds `t`.
pub open spec fn reached(jobs: Seq<(String, Job)>, t: Seq<char>, x: Seq<char>) -> bool {
    forall|c: Set<Seq<char>>| #[trigger] closed(jobs, c) && c.contains(t) ==> c.contains(x)
}

/// The message of a job that needs a job that does not exist.
pub open spec fn missing_dep_text(job: Seq<char>, dep: Seq<char>) -> Seq<char> {
    "job '"@ + job + "' depends on non-existent job '"@ + dep + "'"@
}

/// Where the job `id` stands, if anywhere.
fn find_job(jobs: &Vec<(String, Job)>, id: &str) -> (r: Option<usize>)
    requires
        ids_distinct(jobs@),
    ensures
        match r {
            Some(i) => i < jobs@.len() && jobs@[i as int].0@ == id@ && is_job(jobs@, id@) && deps(
                jobs@,
                id@,
            ) == needs_of(jobs@[i as int].1),
            None => !is_job(jobs@, id@) && deps(jobs@, id@) == Seq::<Seq<char>>::empty(),
        },
{
    let mut i: usize = 0;
    while i < jobs.len()
        invariant
            i <= jobs@.len(),
            ids_distinct(jobs@),
            forall|j: int| 0 <= j < i ==> jobs@[j].0@ != id@,
        decreases jobs@.len() - i,
    {
        if str_eq(jobs[i].0.as_str(), id) {
            proof {
                let ks = job_keys(jobs@);
                assert(ks[i as int] == id@);
                assert(ks.contains(id@));
                assert(ks.index_of(id@) == i) by {
                    let k = ks.index_of(id@);
                    assert(0 <= k < ks.len() && ks[k] == id@);
                    assert(ks.no_duplicates());
                    assert(0 <= i < ks.len());
                    if k != i {
                        assert(ks[k] != ks[i as int]);
                    }
                }
            }
            return Some(i);
        }
        i += 1;
    }
    proof {
        let ks = job_keys(jobs@);
        if ks.contains(id@) {
            let k = choose|k: int| 0 <= k < ks.len() && ks[k] == id@;
            assert(jobs@[k].0@ == id@);
        }
    }
    None
}

/// The ids a job needs (`needs_of`).
fn job_needs(job: &Job) -> (r: Vec<String>)
    ensures
        strs(r@) == needs_of(*job),
{
    match &job.needs {
        Some(n) => n.as_vec(),
        None => {
            let r: Vec<String> = Vec::new();
            assert(strs(r@) =~= Seq::<Seq<char>>::empty());
            r
        },
    }
}

/// Whether a list of strings holds `x`.
fn holds(v: &Vec<String>, x: &str) -> (b: bool)
    ensures
        b == strs(v@).contains(x@),
{
    let mut i: usize = 0;
    while i < v.len()
        invariant
            i <= v@.len(),
            forall|j: int| 0 <= j < i ==> v@[j]@ != x@,
        decreases v@.len() - i,
    {
        if str_eq(v[i].as_str(), x) {
            assert(strs(v@)[i as int] == x@);
            return true;
        }
        i += 1;
    }
    proof {
        if strs(v@).contains(x@) {
            let k = choose|k: int| 0 <= k < strs(v@).len() && strs(v@)[k] == x@;
            assert(v@[k]@ == x@);
        }
    }
    false
}

proof fn lemma_distinct_bound(s: Seq<Seq<char>>, u: Seq<Seq<char>>)
    requires
        s.no_duplicates(),
        forall|i: int| 0 <= i < s.len() ==> u.contains(#[trigger] s[i]),
    ensures
        s.len() <= u.len(),
{
    s.unique_seq_to_set();
    u.lemma_cardinality_of_set();
    vstd::seq_lib::seq_to_set_is_finite(u);
    assert(s.to_set().subset_of(u.to_set())) by {
        assert forall|x: Seq<char>| s.to_set().contains(x) implies u.to_set().contains(x) by {
            let i = choose|i: int| 0 <= i < s.len() && s[i] == x;
        }
    }
    vstd::set_lib::lemma_len_subset(s.to_set(), u.to_set());
}

/// The jobs `job_id` needs, directly or not, and itself.  Fails when one
/// of them needs a job that does not exist, naming the two jobs.
pub fn collect_transitive_deps(job_id: &str, jobs: &Vec<(String, Job)>) -> (r: Result<
    Vec<String>,
    Error,
>)
    requires
        ids_distinct(jobs@),
    ensures
        r matches Ok(v) ==> strs(v@).no_duplicates() && strs(v@).contains(job_id@) && (forall|x:
            Seq<char>| strs(v@).contains(x) ==> reached(jobs@, job_id@, x)) && closed(
            jobs@,
            strs(v@).to_set(),
        ) && (forall|x: Seq<char>, d: Seq<char>|
            strs(v@).contains(x) && #[trigger] deps(jobs@, x).contains(d) ==> is_job(jobs@, d)),
        r matches Err(e) ==> exists|c: Seq<char>, d: Seq<char>|
            reached(jobs@, job_id@, c) && #[trigger] deps(jobs@, c).contains(d) && !is_job(
                jobs@,
                d,
            ) && e@ == SpecError::Validation(missing_dep_text(c, d)),
{
    let ghost t = job_id@;
    let ghost u = seq![t] + job_keys(jobs@);
    let mut result: Vec<String> = Vec::new();
    let mut stack: Vec<String> = Vec::new();
    stack.push(String::from_str(job_id));
    let bound = jobs.len();
    proof {
        assert(strs(stack@) =~= seq![t]);
        assert forall|x: Seq<char>| #[trigger]
            strs(stack@).contains(x) implies reached(jobs@, t, x) by {
            assert(strs(stack@)[0] == x);
        }
        assert(u[0] == t);
        assert(strs(stack@)[0] == t);
    }
    while stack.len() > 0
        invariant
            ids_distinct(jobs@),
            bound == jobs@.len(),
            t == job_id@,
            u == seq![t] + job_keys(jobs@),
            strs(result@).no_duplicates(),
            strs(result@).len() <= bound + 1,
            forall|i: int| 0 <= i < result@.len() ==> u.contains(#[trigger] strs(result@)[i]),
            forall|i: int| 0 <= i < stack@.len() ==> u.contains(#[trigger] strs(stack@)[i]),
            strs(result@).contains(t) || strs(stack@).contains(t),
            forall|x: Seq<char>| #[trigger]
                strs(result@).contains(x) ==> reached(jobs@, t, x),
            forall|x: Seq<char>| #[trigger]
                strs(stack@).contains(x) ==> reached(jobs@, t, x),
            forall|x: Seq<char>, d: Seq<char>|
                strs(result@).contains(x) && #[trigger] deps(jobs@, x).contains(d) ==> (
                strs(result@).contains(d) || strs(stack@).contains(d)) && is_job(jobs@, d),
        decreases bound + 1 - result@.len(), stack@.len(),
    {
        let ghost old_result = strs(result@);
        let ghost old_stack = strs(stack@);
        let current = stack.pop().unwrap();
        proof {
            assert(old_stack =~= strs(stack@).push(current@));
            assert(old_stack.last() == current@);
            assert forall|x: Seq<char>| old_stack.contains(x) && x != current@ implies strs(
                stack@,
            ).contains(x) by {
                let i = choose|i: int| 0 <= i < old_stack.len() && old_stack[i] == x;
                assert(strs(stack@)[i] == x);
            }
            assert(old_stack.contains(current@)) by {
                assert(old_stack[old_stack.len() - 1] == current@);
            }
            assert(u.contains(old_stack[old_stack.len() - 1]));
            assert forall|x: Seq<char>| #[trigger]
                strs(stack@).contains(x) implies reached(jobs@, t, x) by {
                let j = choose|j: int| 0 <= j < strs(stack@).len() && strs(stack@)[j] == x;
                assert(old_stack[j] == x);
                assert(old_stack.contains(x));
            }
            assert forall|q: int| 0 <= q < stack@.len() implies u.contains(
                #[trigger] strs(stack@)[q],
            ) by {
                assert(strs(stack@)[q] == old_stack[q]);
            }
        }
        if holds(&result, current.as_str()) {
            proof {
                assert(strs(result@).contains(t) || strs(stack@).contains(t)) by {
                    if !strs(result@).contains(t) {
                        assert(old_stack.contains(t));
                    }
                }
            }
            continue;
        }
        let ghost before = result@;
        result.push(copy_of(&current));
        proof {
            assert(strs(result@) =~= old_result.push(current@));
            assert(strs(result@).no_duplicates()) by {
                assert forall|i: int, j: int|
                    0 <= i < j < strs(result@).len() implies strs(result@)[i] != strs(
                    result@,
                )[j] by {
                    if j == old_result.len() {
                        assert(old_result[i] != current@) by {
                            if old_result[i] == current@ {
                                assert(old_result.contains(current@));
                            }
                        }
                    }
                }
            }
            assert forall|i: int| 0 <= i < strs(result@).len() implies u.contains(
                #[trigger] strs(result@)[i],
            ) by {
                if i < old_result.len() {
                    assert(strs(result@)[i] == old_result[i]);
                }
            }
            lemma_distinct_bound(strs(result@), u);
            assert forall|x: Seq<char>| #[trigger]
                strs(result@).contains(x) implies reached(jobs@, t, x) by {
                if x != current@ {
                    let j = choose|j: int| 0 <= j < strs(result@).len() && strs(result@)[j] == x;
                    assert(old_result[j] == x);
                    assert(old_result.contains(x));
                }
            }
        }
        match find_job(jobs, current.as_str()) {
            Some(k) => {
                let needs = job_needs(&jobs[k].1);
                let mut i: usize = 0;
                while i < needs.len()
                    invariant
                        i <= needs@.len(),
                        strs(needs@) == deps(jobs@, current@),
                        ids_distinct(jobs@),
                        u == seq![t] + job_keys(jobs@),
                        strs(result@) == old_result.push(current@),
                        strs(result@).no_duplicates(),
                        strs(result@).len() <= bound + 1,
                        bound == jobs@.len(),
                        t == job_id@,
                        reached(jobs@, t, current@),
                        forall|j: int| 0 <= j < result@.len() ==> u.contains(
                            #[trigger] strs(result@)[j],
                        ),
                        forall|j: int| 0 <= j < stack@.len() ==> u.contains(
                            #[trigger] strs(stack@)[j],
                        ),
                        forall|x: Seq<char>|
                            old_stack.contains(x) && x != current@ ==> #[trigger] strs(
                                stack@,
                            ).contains(x),
                        forall|x: Seq<char>| #[trigger]
                            strs(result@).contains(x) ==> reached(jobs@, t, x),
                        forall|x: Seq<char>| #[trigger]
                            strs(stack@).contains(x) ==> reached(jobs@, t, x),
                        forall|x: Seq<char>, d: Seq<char>|
                            old_result.contains(x) && #[trigger] deps(jobs@, x).contains(d) ==> (
                            old_result.contains(d) || old_stack.contains(d)) && is_job(jobs@, d),
                        forall|j: int|
                            0 <= j < i ==> #[trigger] strs(stack@).contains(strs(needs@)[j])
                                && is_job(jobs@, strs(needs@)[j]),
                    decreases needs@.len() - i,
                {
                    let dep = needs[i].as_str();
                    assert(strs(needs@)[i as int] == dep@);
                    match find_job(jobs, dep) {
                        None => {
                            let mut m = String::from_str("job '");
                            push_str(&mut m, current.as_str());
                            push_str(&mut m, "' depends on non-existent job '");
                            push_str(&mut m, dep);
                            push_str(&mut m, "'");
                            proof {
                                assert(m@ =~= missing_dep_text(current@, dep@));
                                assert(deps(jobs@, current@).contains(dep@)) by {
                                    assert(deps(jobs@, current@)[i as int] == dep@);
                                }
                            }
                            return Err(Error::Validation(m));
                        },
                        Some(_) => {},
                    }
                    let ghost sb = strs(stack@);
                    stack.push(String::from_str(dep));
                    proof {
                        assert(strs(stack@) =~= sb.push(dep@));
                        assert(deps(jobs@, current@).contains(dep@)) by {
                            assert(deps(jobs@, current@)[i as int] == dep@);
                        }
                        assert(reached(jobs@, t, dep@)) by {
                            assert forall|c: Set<Seq<char>>| #[trigger]
                                closed(jobs@, c) && c.contains(t) implies c.contains(dep@) by {
                                assert(c.contains(current@));
                            }
                        }
                        assert forall|x: Seq<char>| #[trigger]
                            strs(stack@).contains(x) implies reached(jobs@, t, x) by {
                            if x != dep@ {
                                let j = choose|j: int| 0 <= j < strs(stack@).len() && strs(
                                    stack@,
                                )[j] == x;
                                assert(sb[j] == x);
                                assert(sb.contains(x));
                            }
                        }
                        assert forall|x: Seq<char>|
                            old_stack.contains(x) && x != current@ implies #[trigger] strs(
                            stack@,
                        ).contains(x) by {
                            assert(sb.contains(x));
                            let j = choose|j: int| 0 <= j < sb.len() && sb[j] == x;
                            assert(strs(stack@)[j] == x);
                        }
                        assert forall|j: int| 0 <= j < i + 1 implies #[trigger] strs(
                            stack@,
                        ).contains(strs(needs@)[j]) && is_job(jobs@, strs(needs@)[j]) by {
                            if j < i {
                                let y = strs(needs@)[j];
                                assert(sb.contains(y));
                                let q = choose|q: int| 0 <= q < sb.len() && sb[q] == y;
                                assert(strs(stack@)[q] == y);
                            } else {
                                assert(strs(stack@)[sb.len() as int] == dep@);
                            }
                        }
                        assert forall|q: int| 0 <= q < stack@.len() implies u.contains(
                            #[trigger] strs(stack@)[q],
                        ) by {
                            if q < sb.len() {
                                assert(strs(stack@)[q] == sb[q]);
                            } else {
                                let ks = job_keys(jobs@);
                                let w = choose|w: int| 0 <= w < ks.len() && ks[w] == dep@;
                                assert(u[w + 1] == dep@);
                            }
                        }
                    }
                    i += 1;
                }
                proof {
                    assert forall|x: Seq<char>, d: Seq<char>|
                        strs(result@).contains(x) && #[trigger] deps(jobs@, x).contains(
                            d,
                        ) implies (strs(result@).contains(d) || strs(stack@).contains(d)) && is_job(
                        jobs@,
                        d,
                    ) by {
                        if x == current@ {
                            let j = choose|j: int|
                                0 <= j < deps(jobs@, x).len() && deps(jobs@, x)[j] == d;
                            assert(strs(needs@)[j] == d);
                        } else {
                            assert(old_result.contains(x)) by {
                                let j = choose|j: int|
                                    0 <= j < strs(result@).len() && strs(result@)[j] == x;
                                assert(old_result[j] == x);
                            }
                            if old_result.contains(d) {
                                let j = choose|j: int| 0 <= j < old_result.len() && old_result[j] == d;
                                assert(strs(result@)[j] == d);
                            } else if d == current@ {
                                assert(strs(result@)[old_result.len() as int] == d);
                            }
                        }
                    }
                }
            },
            None => {
                proof {
                    assert forall|x: Seq<char>, d: Seq<char>|
                        strs(result@).contains(x) && #[trigger] deps(jobs@, x).contains(
                            d,
                        ) implies (strs(result@).contains(d) || strs(stack@).contains(d)) && is_job(
                        jobs@,
                        d,
                    ) by {
                        if x != current@ {
                            assert(old_result.contains(x)) by {
                                let j = choose|j: int|
                                    0 <= j < strs(result@).len() && strs(result@)[j] == x;
                                assert(old_result[j] == x);
                            }
                            if old_result.contains(d) {
                                let j = choose|j: int| 0 <= j < old_result.len() && old_result[j] == d;
                                assert(strs(result@)[j] == d);
                            } else if d == current@ {
                                assert(strs(result@)[old_result.len() as int] == d);
                            }
                        }
                    }
                }
            },
        }
        proof {
            assert forall|x: Seq<char>| #[trigger]
                strs(result@).contains(x) implies reached(jobs@, t, x) by {
                if x != current@ {
                    let j = choose|j: int| 0 <= j < strs(result@).len() && strs(result@)[j] == x;
                    assert(old_result[j] == x);
                    assert(old_result.contains(x));
                }
            }
            assert(strs(result@).contains(t) || strs(stack@).contains(t)) by {
                if old_result.contains(t) {
                    let j = choose|j: int| 0 <= j < old_result.len() && old_result[j] == t;
                    assert(strs(result@)[j] == t);
                } else if t == current@ {
                    assert(strs(result@)[old_result.len() as int] == t);
                }
            }
        }
    }
    proof {
        assert(strs(stack@).len() == 0);
        assert(!strs(stack@).contains(t));
        assert forall|x: Seq<char>, d: Seq<char>|
            strs(result@).to_set().contains(x) && #[trigger] deps(jobs@, x).contains(
                d,
            ) implies #[trigger] strs(result@).to_set().contains(d) by {
            assert(strs(result@).contains(x));
        }
    }
    Ok(result)
}

/// Whether `x` may come right after the jobs `p`: a selected job not yet
/// placed all of whose selected needs are placed.
pub open spec fn ready(jobs: Seq<(String, Job)>, sel: Set<Seq<char>>, p: Seq<Seq<char>>, x: Seq<char>) -> bool {
    sel.contains(x) && !p.contains(x) && forall|d: Seq<char>|
        #[trigger] deps(jobs, x).contains(d) && sel.contains(d) ==> p.contains(d)
}

/// Each job of `o` is the greatest (in code point order) of the jobs ready
/// after those before it.
pub open spec fn greedy_order(jobs: Seq<(String, Job)>, sel: Set<Seq<char>>, o: Seq<Seq<char>>) -> bool {
    forall|i: int|
        0 <= i < o.len() ==> ready(jobs, sel, o.take(i), #[trigger] o[i]) && forall|y: Seq<char>|
            ready(jobs, sel, o.take(i), y) ==> y == o[i] || str_lt(y, o[i])
}

/// Every job of `o` comes after the selected jobs it needs.
pub open spec fn respects(jobs: Seq<(String, Job)>, sel: Set<Seq<char>>, o: Seq<Seq<char>>) -> bool {
    forall|i: int, d: Seq<char>|
        0 <= i < o.len() && #[trigger] deps(jobs, o[i]).contains(d) && sel.contains(d)
            ==> #[trigger] o.take(i).contains(d)
}

/// `o` holds each job of `sel` once.
pub open spec fn arrangement(sel: Set<Seq<char>>, o: Seq<Seq<char>>) -> bool {
    o.no_duplicates() && o.to_set() == sel
}

/// The jobs to run: all of them, or those the target needs (and itself).
pub open spec fn selection(jobs: Seq<(String, Job)>, target: Option<Seq<char>>) -> Set<Seq<char>> {
    match target {
        None => job_keys(jobs).to_set(),
        Some(t) => Set::new(|x: Seq<char>| reached(jobs, t, x)),
    }
}

/// The message of a target job that does not exist.
pub open spec fn target_missing_text(t: Seq<char>) -> Seq<char> {
    "target job '"@ + t + "' not found"@
}

/// The message of jobs whose needs form a cycle.
pub open spec fn cycle_text() -> Seq<char> {
    "circular dependency detected among jobs"@
}

/// A greedy order respects the jobs' needs.
pub proof fn law_greedy_order_respects_needs(
    jobs: Seq<(String, Job)>,
    sel: Set<Seq<char>>,
    o: Seq<Seq<char>>,
)
    requires
        greedy_order(jobs, sel, o),
    ensures
        respects(jobs, sel, o),
{
    assert forall|i: int, d: Seq<char>|
        0 <= i < o.len() && #[trigger] deps(jobs, o[i]).contains(d) && sel.contains(
            d,
        ) implies #[trigger] o.take(i).contains(d) by {
        assert(ready(jobs, sel, o.take(i), o[i]));
    }
}

proof fn lemma_first_unplaced(q: Seq<Seq<char>>, p: Seq<Seq<char>>, k: int)
    requires
        0 <= k < q.len(),
        !p.contains(q[k]),
    ensures
        exists|m: int|
            0 <= m <= k && !p.contains(#[trigger] q[m]) && forall|j: int|
                0 <= j < m ==> p.contains(#[trigger] q[j]),
    decreases k,
{
    if forall|j: int| 0 <= j < k ==> p.contains(#[trigger] q[j]) {
        assert(!p.contains(q[k]));
    } else {
        let j = choose|j: int| 0 <= j < k && !p.contains(#[trigger] q[j]);
        lemma_first_unplaced(q, p, j);
    }
}

/// When no job is ready after `p` though some selected job is not placed,
/// no order of the selected jobs respects their needs: the needs form a
/// cycle.
pub proof fn law_stuck_means_no_order(
    jobs: Seq<(String, Job)>,
    sel: Set<Seq<char>>,
    p: Seq<Seq<char>>,
    q: Seq<Seq<char>>,
)
    requires
        forall|x: Seq<char>| !ready(jobs, sel, p, x),
        exists|x: Seq<char>| sel.contains(x) && !p.contains(x),
    ensures
        !(arrangement(sel, q) && respects(jobs, sel, q)),
{
    if arrangement(sel, q) && respects(jobs, sel, q) {
        let x = choose|x: Seq<char>| sel.contains(x) && !p.contains(x);
        assert(q.to_set().contains(x));
        let k = choose|k: int| 0 <= k < q.len() && q[k] == x;
        lemma_first_unplaced(q, p, k);
        let m = choose|m: int|
            0 <= m <= k && !p.contains(#[trigger] q[m]) && forall|j: int|
                0 <= j < m ==> p.contains(#[trigger] q[j]);
        let y = q[m];
        assert(q.to_set().contains(y));
        assert(!ready(jobs, sel, p, y));
        let d = choose|d: Seq<char>|
            #[trigger] deps(jobs, y).contains(d) && sel.contains(d) && !p.contains(d);
        assert(q.take(m).contains(d));
        let w = choose|w: int| 0 <= w < m && q.take(m)[w] == d;
        assert(q[w] == d);
        assert(p.contains(q[w]));
    }
}

proof fn lemma_same_set(o: Seq<Seq<char>>, s: Seq<Seq<char>>)
    requires
        o.no_duplicates(),
        s.no_duplicates(),
        o.len() == s.len(),
        forall|i: int| 0 <= i < o.len() ==> s.contains(#[trigger] o[i]),
    ensures
        o.to_set() == s.to_set(),
{
    o.unique_seq_to_set();
    s.unique_seq_to_set();
    vstd::seq_lib::seq_to_set_is_finite(s);
    assert(o.to_set().subset_of(s.to_set())) by {
        assert forall|x: Seq<char>| o.to_set().contains(x) implies s.to_set().contains(x) by {
            let i = choose|i: int| 0 <= i < o.len() && o[i] == x;
        }
    }
    vstd::set_lib::lemma_subset_equality(o.to_set(), s.to_set());
}

/// The order in which the selected jobs run: repeatedly the greatest (in
/// code point order) of the jobs all of whose selected needs have run.
/// The selection is every job, or the target job and the jobs it needs,
/// directly or not.  Fails for a target that is not a job, for a job that
/// needs a job that does not exist (in the target's case), and when the
/// needs form a cycle.
pub fn topological_sort(jobs: &Vec<(String, Job)>, target_job: Option<&str>) -> (r: Result<
    Vec<String>,
    Error,
>)
    requires
        ids_distinct(jobs@),
    ensures
        (target_job matches Some(t) && !is_job(jobs@, t@)) ==> (r matches Err(e) && e@
            == SpecError::Validation(target_missing_text(target_job->0@))),
        r matches Ok(o) ==> ({
            let sel = selection(jobs@, match target_job { Some(t) => Some(t@), None => None });
            arrangement(sel, strs(o@)) && greedy_order(jobs@, sel, strs(o@))
        }),
        (r matches Err(e) && e@ == SpecError::DependencyCycle(cycle_text())) ==> ({
            let sel = selection(jobs@, match target_job { Some(t) => Some(t@), None => None });
            forall|q: Seq<Seq<char>>| !(arrangement(sel, q) && respects(jobs@, sel, q))
        }),
        r matches Err(e) ==> (e@ == SpecError::DependencyCycle(cycle_text()) || (
        target_job matches Some(t) && ((!is_job(jobs@, t@) && e@ == SpecError::Validation(
            target_missing_text(t@),
        )) || exists|c: Seq<char>, d: Seq<char>|
            reached(jobs@, t@, c) && #[trigger] deps(jobs@, c).contains(d) && !is_job(jobs@, d)
                && e@ == SpecError::Validation(missing_dep_text(c, d))))),
        target_job is None ==> (r is Ok || (r matches Err(e) && e@ == SpecError::DependencyCycle(
            cycle_text(),
        ))),
{
    let ghost tv: Option<Seq<char>> = match target_job {
        Some(t) => Some(t@),
        None => None,
    };
    let sel: Vec<String> = match target_job {
        Some(t) => {
            if find_job(jobs, t).is_none() {
                let mut m = String::from_str("target job '");
                push_str(&mut m, t);
                push_str(&mut m, "' not found");
                assert(m@ =~= target_missing_text(t@));
                return Err(Error::Validation(m));
            }
            match collect_transitive_deps(t, jobs) {
                Ok(v) => {
                    proof {
                        let s = strs(v@);
                        assert(s.to_set() =~= selection(jobs@, tv)) by {
                            assert forall|x: Seq<char>|
                                selection(jobs@, tv).contains(x) implies s.to_set().contains(x) by {
                                assert(reached(jobs@, t@, x));
                                assert(closed(jobs@, s.to_set()) && s.to_set().contains(t@));
                            }
                        }
                    }
                    v
                },
                Err(e) => {
                    return Err(e);
                },
            }
        },
        None => {
            let mut v: Vec<String> = Vec::new();
            let mut i: usize = 0;
            while i < jobs.len()
                invariant
                    i <= jobs@.len(),
                    strs(v@) == job_keys(jobs@).take(i as int),
                decreases jobs@.len() - i,
            {
                let ghost before = v@;
                v.push(jobs[i].0.clone());
                assert(strs(v@) =~= strs(before).push(jobs@[i as int].0@));
                assert(job_keys(jobs@).take(i + 1) =~= job_keys(jobs@).take(i as int).push(
                    jobs@[i as int].0@,
                ));
                i += 1;
            }
            assert(job_keys(jobs@).take(i as int) =~= job_keys(jobs@));
            v
        },
    };
    let ghost ss = selection(jobs@, tv);
    assert(strs(sel@).to_set() == ss);
    assert(strs(sel@).no_duplicates());
    let n = sel.len();
    let mut needs: Vec<Vec<String>> = Vec::new();
    let mut i: usize = 0;
    while i < n
        invariant
            i <= n == sel@.len(),
            ids_distinct(jobs@),
            needs@.len() == i,
            forall|j: int| 0 <= j < i ==> strs(#[trigger] needs@[j]@) == deps(jobs@, sel@[j]@),
        decreases n - i,
    {
        let d = match find_job(jobs, sel[i].as_str()) {
            Some(k) => job_needs(&jobs[k].1),
            None => {
                let r: Vec<String> = Vec::new();
                assert(strs(r@) =~= Seq::<Seq<char>>::empty());
                r
            },
        };
        needs.push(d);
        i += 1;
    }
    let mut order: Vec<String> = Vec::new();
    loop
        invariant
            n == sel@.len(),
            needs@.len() == n,
            forall|j: int| 0 <= j < n ==> strs(#[trigger] needs@[j]@) == deps(jobs@, sel@[j]@),
            strs(sel@).to_set() == ss,
            strs(sel@).no_duplicates(),
            strs(order@).no_duplicates(),
            strs(order@).len() <= n,
            forall|j: int| 0 <= j < order@.len() ==> ss.contains(#[trigger] strs(order@)[j]),
            greedy_order(jobs@, ss, strs(order@)),
        ensures
            strs(order@).no_duplicates(),
            strs(order@).len() <= n,
            forall|j: int| 0 <= j < order@.len() ==> ss.contains(#[trigger] strs(order@)[j]),
            greedy_order(jobs@, ss, strs(order@)),
            forall|x: Seq<char>| !ready(jobs@, ss, strs(order@), x),
        decreases n - order@.len(),
    {
        let ghost o = strs(order@);
        let mut best: Option<usize> = None;
        let mut i: usize = 0;
        while i < n
            invariant
                i <= n == sel@.len(),
                needs@.len() == n,
                forall|j: int| 0 <= j < n ==> strs(#[trigger] needs@[j]@) == deps(jobs@, sel@[j]@),
                strs(sel@).to_set() == ss,
                o == strs(order@),
                match best {
                    Some(b) => b < i && ready(jobs@, ss, o, sel@[b as int]@) && forall|j: int|
                        0 <= j < i && ready(jobs@, ss, o, #[trigger] sel@[j]@) ==> sel@[j]@
                            == sel@[b as int]@ || str_lt(sel@[j]@, sel@[b as int]@),
                    None => forall|j: int| 0 <= j < i ==> !ready(jobs@, ss, o, #[trigger] sel@[j]@),
                },
            decreases n - i,
        {
            let ok = is_ready(&sel, &needs[i], &order, i, Ghost(jobs@), Ghost(ss));
            if ok {
                let better = match best {
                    None => true,
                    Some(b) => crate::value::string_less(&sel[b], &sel[i]),
                };
                if better {
                    proof {
                        match best {
                            Some(b) => {
                                assert forall|j: int|
                                    0 <= j < i + 1 && ready(jobs@, ss, o, #[trigger] sel@[j]@) implies sel@[j]@
                                    == sel@[i as int]@ || str_lt(sel@[j]@, sel@[i as int]@) by {
                                    if j < i && sel@[j]@ != sel@[b as int]@ {
                                        lemma_str_lt_trans(sel@[j]@, sel@[b as int]@, sel@[i as int]@, 0);
                                    }
                                }
                            },
                            None => {},
                        }
                    }
                    best = Some(i);
                } else {
                    proof {
                        let b = best->0;
                        assert(sel@[b as int]@.take(0) =~= sel@[i as int]@.take(0));
                        lemma_str_lt_total(sel@[b as int]@, sel@[i as int]@, 0);
                    }
                }
            }
            i += 1;
        }
        match best {
            None => {
                proof {
                    assert forall|x: Seq<char>| !ready(jobs@, ss, o, x) by {
                        if ready(jobs@, ss, o, x) {
                            assert(strs(sel@).to_set().contains(x));
                            let j = choose|j: int| 0 <= j < strs(sel@).len() && strs(sel@)[j] == x;
                            assert(sel@[j]@ == x);
                        }
                    }
                }
                break;
            },
            Some(b) => {
                let x = sel[b].clone();
                let ghost xv = x@;
                order.push(x);
                proof {
                    let o2 = strs(order@);
                    assert(o2 =~= o.push(xv));
                    assert(o2.take(o.len() as int) =~= o);
                    assert forall|k: int| 0 <= k < o2.len() implies ready(
                        jobs@,
                        ss,
                        o2.take(k),
                        #[trigger] o2[k],
                    ) && forall|y: Seq<char>|
                        ready(jobs@, ss, o2.take(k), y) ==> y == o2[k] || str_lt(y, o2[k]) by {
                        if k < o.len() {
                            assert(o2.take(k) =~= o.take(k));
                            assert(o2[k] == o[k]);
                        } else {
                            assert forall|y: Seq<char>| ready(jobs@, ss, o, y) implies y == xv
                                || str_lt(y, xv) by {
                                assert(strs(sel@).to_set().contains(y));
                                let j = choose|j: int| 0 <= j < strs(sel@).len() && strs(sel@)[j] == y;
                                assert(sel@[j]@ == y);
                            }
                        }
                    }
                    assert(o2.no_duplicates()) by {
                        assert forall|a: int, c: int| 0 <= a < c < o2.len() implies o2[a] != o2[c] by {
                            if c == o.len() {
                                assert(!o.contains(xv));
                                assert(o[a] == o2[a]);
                            }
                        }
                    }
                    assert forall|j: int| 0 <= j < order@.len() implies ss.contains(
                        #[trigger] strs(order@)[j],
                    ) by {
                        if j < o.len() {
                            assert(strs(order@)[j] == o[j]);
                        }
                    }
                    assert forall|j: int| 0 <= j < o2.len() implies strs(sel@).contains(
                        #[trigger] o2[j],
                    ) by {
                        assert(ss.contains(o2[j]));
                        assert(strs(sel@).to_set().contains(o2[j]));
                    }
                    lemma_distinct_bound(o2, strs(sel@));
                }
            },
        }
    }
    if order.len() != n {
        proof {
            let o = strs(order@);
            assert(exists|x: Seq<char>| ss.contains(x) && !o.contains(x)) by {
                if forall|x: Seq<char>| ss.contains(x) ==> o.contains(x) {
                    assert forall|j: int| 0 <= j < strs(sel@).len() implies o.contains(
                        #[trigger] strs(sel@)[j],
                    ) by {
                        assert(strs(sel@).to_set().contains(strs(sel@)[j]));
                    }
                    lemma_distinct_bound(strs(sel@), o);
                }
            }
            assert forall|q: Seq<Seq<char>>| !(arrangement(ss, q) && respects(jobs@, ss, q)) by {
                law_stuck_means_no_order(jobs@, ss, o, q);
            }
        }
        return Err(Error::DependencyCycle(String::from_str("circular dependency detected among jobs")));
    }
    proof {
        let o = strs(order@);
        assert forall|j: int| 0 <= j < o.len() implies strs(sel@).contains(#[trigger] o[j]) by {
            assert(ss.contains(o[j]));
            assert(strs(sel@).to_set().contains(o[j]));
        }
        lemma_same_set(o, strs(sel@));
    }
    Ok(order)
}

/// Whether the `i`-th selected job is ready after `order`.
fn is_ready(
    sel: &Vec<String>,
    needs: &Vec<String>,
    order: &Vec<String>,
    i: usize,
    Ghost(jobs): Ghost<Seq<(String, Job)>>,
    Ghost(ss): Ghost<Set<Seq<char>>>,
) -> (b: bool)
    requires
        i < sel@.len(),
        strs(sel@).to_set() == ss,
        strs(needs@) == deps(jobs, sel@[i as int]@),
    ensures
        b == ready(jobs, ss, strs(order@), sel@[i as int]@),
{
    let x = sel[i].as_str();
    proof {
        assert(strs(sel@)[i as int] == x@);
        assert(ss.contains(x@));
    }
    if holds(order, x) {
        return false;
    }
    let mut k: usize = 0;
    while k < needs.len()
        invariant
            k <= needs@.len(),
            i < sel@.len(),
            x@ == sel@[i as int]@,
            !strs(order@).contains(x@),
            strs(needs@) == deps(jobs, x@),
            strs(sel@).to_set() == ss,
            forall|j: int|
                0 <= j < k && ss.contains(#[trigger] strs(needs@)[j]) ==> strs(order@).contains(
                    strs(needs@)[j],
                ),
        decreases needs@.len() - k,
    {
        let d = needs[k].as_str();
        assert(strs(needs@)[k as int] == d@);
        if holds(sel, d) && !holds(order, d) {
            proof {
                assert(strs(sel@).to_set().contains(d@));
                assert(deps(jobs, x@).contains(d@)) by {
                    assert(deps(jobs, x@)[k as int] == d@);
                }
            }
            return false;
        }
        proof {
            if ss.contains(d@) {
                assert(strs(sel@).contains(d@));
            }
        }
        k += 1;
    }
    proof {
        assert forall|d: Seq<char>| #[trigger]
            deps(jobs, x@).contains(d) && ss.contains(d) implies strs(order@).contains(d) by {
            let j = choose|j: int| 0 <= j < deps(jobs, x@).len() && deps(jobs, x@)[j] == d;
            assert(strs(needs@)[j] == d);
        }
    }
    true
}

fn copy_of(s: &String) -> (r: String)
    ensures
        r@ == s@,
{
    s.clone()
}

} // verus!
