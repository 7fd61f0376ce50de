//! The contexts an expression is evaluated in.
use crate::strmap::StrMap;
use crate::value::{ObjectMap, SpecValue, Value};
use vstd::prelude::*;

verus! {

/// The status of the running job, as `success()`, `failure()` and
/// `cancelled()` see it.
#[derive(Debug, Clone, Copy, PartialEq, Eq, Structural)]
pub enum JobStatus {
    Success,
    Failure,
    Cancelled,
}

impl Default for JobStatus {
    fn default() -> (s: JobStatus)
        ensures
            s == JobStatus::Success,
    {
        JobStatus::Success
    }
}

/// Every context an expression can read.
pub struct ExpressionContext {
    /// The `github` context, read member by member.
    pub github: Value,
    pub env: StrMap,
    pub secrets: StrMap,
    pub vars: StrMap,
    pub runner: StrMap,
    pub inputs: StrMap,
    /// The values of the current matrix combination.
    pub matrix: Value,
    /// `fail-fast`, `job-index`, `job-total`, `max-parallel`.
    pub strategy: Value,
    /// The results and outputs of the jobs this one needs.
    pub needs: Value,
    /// Status, container and services of the job.
    pub job: Value,
    /// Outputs, outcome and conclusion of the steps run so far.
    pub steps: Value,
    pub job_status: JobStatus,
}

/// An empty object.
pub open spec fn empty_object() -> SpecValue {
    SpecValue::Object(Seq::empty())
}

impl ExpressionContext {
    /// A context whose value contexts are empty objects, whose maps are
    /// empty and whose job status is success.
    pub fn new() -> (c: ExpressionContext)
        ensures
            c.github@ == empty_object(),
            c.matrix@ == empty_object(),
            c.strategy@ == empty_object(),
            c.needs@ == empty_object(),
            c.job@ == empty_object(),
            c.steps@ == empty_object(),
            c.env@ == Map::<Seq<char>, Seq<char>>::empty(),
            c.secrets@ == Map::<Seq<char>, Seq<char>>::empty(),
            c.vars@ == Map::<Seq<char>, Seq<char>>::empty(),
            c.runner@ == Map::<Seq<char>, Seq<char>>::empty(),
            c.inputs@ == Map::<Seq<char>, Seq<char>>::empty(),
            c.job_status == JobStatus::Success,
    {
        ExpressionContext {
            github: Value::Object(ObjectMap::new()),
            env: StrMap::new(),
            secrets: StrMap::new(),
            vars: StrMap::new(),
            runner: StrMap::new(),
            inputs: StrMap::new(),
            matrix: Value::Object(ObjectMap::new()),
            strategy: Value::Object(ObjectMap::new()),
            needs: Value::Object(ObjectMap::new()),
            job: Value::Object(ObjectMap::new()),
            steps: Value::Object(ObjectMap::new()),
            job_status: JobStatus::Success,
        }
    }
}

impl ExpressionContext {
    /// A copy of the contexts.
    pub fn copy(&self) -> (c: ExpressionContext)
        ensures
            c.github@ == self.github@,
            c.env@ == self.env@,
            c.env.entries() == self.env.entries(),
            c.secrets@ == self.secrets@,
            c.vars@ == self.vars@,
            c.runner@ == self.runner@,
            c.inputs@ == self.inputs@,
            c.inputs.entries() == self.inputs.entries(),
            c.matrix@ == self.matrix@,
            c.strategy@ == self.strategy@,
            c.needs@ == self.needs@,
            c.job@ == self.job@,
            c.steps@ == self.steps@,
            c.job_status == self.job_status,
    {
        ExpressionContext {
            github: self.github.copy(),
            env: self.env.copy(),
            secrets: self.secrets.copy(),
            vars: self.vars.copy(),
            runner: self.runner.copy(),
            inputs: self.inputs.copy(),
            matrix: self.matrix.copy(),
            strategy: self.strategy.copy(),
            needs: self.needs.copy(),
            job: self.job.copy(),
            steps: self.steps.copy(),
            job_status: self.job_status,
        }
    }
}

impl Default for ExpressionContext {
    /// The contexts of `ExpressionContext::new`.
    fn default() -> (c: ExpressionContext)
        ensures
            c.github@ == empty_object(),
            c.matrix@ == empty_object(),
            c.strategy@ == empty_object(),
            c.needs@ == empty_object(),
            c.job@ == empty_object(),
            c.steps@ == empty_object(),
            c.env@ == Map::<Seq<char>, Seq<char>>::empty(),
            c.secrets@ == Map::<Seq<char>, Seq<char>>::empty(),
            c.vars@ == Map::<Seq<char>, Seq<char>>::empty(),
            c.runner@ == Map::<Seq<char>, Seq<char>>::empty(),
            c.inputs@ == Map::<Seq<char>, Seq<char>>::empty(),
            c.job_status == JobStatus::Success,
    {
        ExpressionContext::new()
    }
}

} // verus!
