//! The workflow model: what a workflow file declares, as plain values.
use crate::strmap::StrMap;
use crate::text::{chars_of, lines, lines_of, push_str, string_of};
use crate::value::ObjectMap;
use vstd::prelude::*;

verus! {

/// The GitHub Actions event types.
#[derive(Debug, Clone, Copy, PartialEq, Eq, Structural, Hash)]
pub enum Event {
    BranchProtectionRule,
    CheckRun,
    CheckSuite,
    Create,
    Delete,
    Deployment,
    DeploymentStatus,
    Discussion,
    DiscussionComment,
    Fork,
    Gollum,
    IssueComment,
    Issues,
    Label,
    MergeGroup,
    Milestone,
    PageBuild,
    Project,
    ProjectCard,
    ProjectColumn,
    PublicEvent,
    PullRequest,
    PullRequestComment,
    PullRequestReview,
    PullRequestReviewComment,
    PullRequestTarget,
    Push,
    RegistryPackage,
    Release,
    RepositoryDispatch,
    Schedule,
    Status,
    Watch,
    WorkflowCall,
    WorkflowDispatch,
    WorkflowRun,
}

/// The name of an event as workflow files write it.
pub open spec fn event_name(e: Event) -> Seq<char> {
    match e {
        Event::BranchProtectionRule => "branch_protection_rule"@,
        Event::CheckRun => "check_run"@,
        Event::CheckSuite => "check_suite"@,
        Event::Create => "create"@,
        Event::Delete => "delete"@,
        Event::Deployment => "deployment"@,
        Event::DeploymentStatus => "deployment_status"@,
        Event::Discussion => "discussion"@,
        Event::DiscussionComment => "discussion_comment"@,
        Event::Fork => "fork"@,
        Event::Gollum => "gollum"@,
        Event::IssueComment => "issue_comment"@,
        Event::Issues => "issues"@,
        Event::Label => "label"@,
        Event::MergeGroup => "merge_group"@,
        Event::Milestone => "milestone"@,
        Event::PageBuild => "page_build"@,
        Event::Project => "project"@,
        Event::ProjectCard => "project_card"@,
        Event::ProjectColumn => "project_column"@,
        Event::PublicEvent => "public"@,
        Event::PullRequest => "pull_request"@,
        Event::PullRequestComment => "pull_request_comment"@,
        Event::PullRequestReview => "pull_request_review"@,
        Event::PullRequestReviewComment => "pull_request_review_comment"@,
        Event::PullRequestTarget => "pull_request_target"@,
        Event::Push => "push"@,
        Event::RegistryPackage => "registry_package"@,
        Event::Release => "release"@,
        Event::RepositoryDispatch => "repository_dispatch"@,
        Event::Schedule => "schedule"@,
        Event::Status => "status"@,
        Event::Watch => "watch"@,
        Event::WorkflowCall => "workflow_call"@,
        Event::WorkflowDispatch => "workflow_dispatch"@,
        Event::WorkflowRun => "workflow_run"@,
    }
}

/// Distinct events have distinct names.
#[verifier::rlimit(100)]
pub proof fn lemma_event_names_distinct(e1: Event, e2: Event)
    requires
        e1 != e2,
    ensures
        event_name(e1) != event_name(e2),
{
    reveal_strlit("branch_protection_rule");
    reveal_strlit("check_run");
    reveal_strlit("check_suite");
    reveal_strlit("create");
    reveal_strlit("delete");
    reveal_strlit("deployment");
    reveal_strlit("deployment_status");
    reveal_strlit("discussion");
    reveal_strlit("discussion_comment");
    reveal_strlit("fork");
    reveal_strlit("gollum");
    reveal_strlit("issue_comment");
    reveal_strlit("issues");
    reveal_strlit("label");
    reveal_strlit("merge_group");
    reveal_strlit("milestone");
    reveal_strlit("page_build");
    reveal_strlit("project");
    reveal_strlit("project_card");
    reveal_strlit("project_column");
    reveal_strlit("public");
    reveal_strlit("pull_request");
    reveal_strlit("pull_request_comment");
    reveal_strlit("pull_request_review");
    reveal_strlit("pull_request_review_comment");
    reveal_strlit("pull_request_target");
    reveal_strlit("push");
    reveal_strlit("registry_package");
    reveal_strlit("release");
    reveal_strlit("repository_dispatch");
    reveal_strlit("schedule");
    reveal_strlit("status");
    reveal_strlit("watch");
    reveal_strlit("workflow_call");
    reveal_strlit("workflow_dispatch");
    reveal_strlit("workflow_run");
    assert("branch_protection_rule"@.len() == 22);
    assert("check_run"@.len() == 9);
    assert("check_suite"@.len() == 11);
    assert("create"@.len() == 6);
    assert("delete"@.len() == 6);
    assert("deployment"@.len() == 10);
    assert("deployment_status"@.len() == 17);
    assert("discussion"@.len() == 10);
    assert("discussion_comment"@.len() == 18);
    assert("fork"@.len() == 4);
    assert("gollum"@.len() == 6);
    assert("issue_comment"@.len() == 13);
    assert("issues"@.len() == 6);
    assert("label"@.len() == 5);
    assert("merge_group"@.len() == 11);
    assert("milestone"@.len() == 9);
    assert("page_build"@.len() == 10);
    assert("project"@.len() == 7);
    assert("project_card"@.len() == 12);
    assert("project_column"@.len() == 14);
    assert("public"@.len() == 6);
    assert("pull_request"@.len() == 12);
    assert("pull_request_comment"@.len() == 20);
    assert("pull_request_review"@.len() == 19);
    assert("pull_request_review_comment"@.len() == 27);
    assert("pull_request_target"@.len() == 19);
    assert("push"@.len() == 4);
    assert("registry_package"@.len() == 16);
    assert("release"@.len() == 7);
    assert("repository_dispatch"@.len() == 19);
    assert("schedule"@.len() == 8);
    assert("status"@.len() == 6);
    assert("watch"@.len() == 5);
    assert("workflow_call"@.len() == 13);
    assert("workflow_dispatch"@.len() == 17);
    assert("workflow_run"@.len() == 12);
    assert("fork"@[0] != "push"@[0]);
    assert("label"@[0] != "watch"@[0]);
    assert("create"@[0] != "delete"@[0]);
    assert("create"@[0] != "gollum"@[0]);
    assert("create"@[0] != "issues"@[0]);
    assert("create"@[0] != "public"@[0]);
    assert("create"@[0] != "status"@[0]);
    assert("delete"@[0] != "gollum"@[0]);
    assert("delete"@[0] != "issues"@[0]);
    assert("delete"@[0] != "public"@[0]);
    assert("delete"@[0] != "status"@[0]);
    assert("gollum"@[0] != "issues"@[0]);
    assert("gollum"@[0] != "public"@[0]);
    assert("gollum"@[0] != "status"@[0]);
    assert("issues"@[0] != "public"@[0]);
    assert("issues"@[0] != "status"@[0]);
    assert("public"@[0] != "status"@[0]);
    assert("project"@[0] != "release"@[0]);
    assert("check_run"@[0] != "milestone"@[0]);
    assert("deployment"@[1] != "discussion"@[1]);
    assert("deployment"@[0] != "page_build"@[0]);
    assert("discussion"@[0] != "page_build"@[0]);
    assert("check_suite"@[0] != "merge_group"@[0]);
    assert("project_card"@[1] != "pull_request"@[1]);
    assert("project_card"@[0] != "workflow_run"@[0]);
    assert("pull_request"@[0] != "workflow_run"@[0]);
    assert("issue_comment"@[0] != "workflow_call"@[0]);
    assert("deployment_status"@[0] != "workflow_dispatch"@[0]);
    assert("pull_request_review"@[13] != "pull_request_target"@[13]);
    assert("pull_request_review"@[0] != "repository_dispatch"@[0]);
    assert("pull_request_target"@[0] != "repository_dispatch"@[0]);
}

impl Event {
    /// The name of the event as workflow files write it (`event_name`).
    pub fn as_str(self) -> (s: &'static str)
        ensures
            s@ == event_name(self),
    {
        match self {
            Event::BranchProtectionRule => "branch_protection_rule",
            Event::CheckRun => "check_run",
            Event::CheckSuite => "check_suite",
            Event::Create => "create",
            Event::Delete => "delete",
            Event::Deployment => "deployment",
            Event::DeploymentStatus => "deployment_status",
            Event::Discussion => "discussion",
            Event::DiscussionComment => "discussion_comment",
            Event::Fork => "fork",
            Event::Gollum => "gollum",
            Event::IssueComment => "issue_comment",
            Event::Issues => "issues",
            Event::Label => "label",
            Event::MergeGroup => "merge_group",
            Event::Milestone => "milestone",
            Event::PageBuild => "page_build",
            Event::Project => "project",
            Event::ProjectCard => "project_card",
            Event::ProjectColumn => "project_column",
            Event::PublicEvent => "public",
            Event::PullRequest => "pull_request",
            Event::PullRequestComment => "pull_request_comment",
            Event::PullRequestReview => "pull_request_review",
            Event::PullRequestReviewComment => "pull_request_review_comment",
            Event::PullRequestTarget => "pull_request_target",
            Event::Push => "push",
            Event::RegistryPackage => "registry_package",
            Event::Release => "release",
            Event::RepositoryDispatch => "repository_dispatch",
            Event::Schedule => "schedule",
            Event::Status => "status",
            Event::Watch => "watch",
            Event::WorkflowCall => "workflow_call",
            Event::WorkflowDispatch => "workflow_dispatch",
            Event::WorkflowRun => "workflow_run",
        }
    }
}

/// The views of a list of strings.
pub open spec fn strs(v: Seq<String>) -> Seq<Seq<char>> {
    v.map_values(|s: String| s@)
}

/// A copy of a list of strings.
pub fn copy_strings(v: &Vec<String>) -> (r: Vec<String>)
    ensures
        strs(r@) == strs(v@),
{
    let mut r: Vec<String> = Vec::new();
    let mut i: usize = 0;
    while i < v.len()
        invariant
            i <= v@.len(),
            strs(r@) == strs(v@).take(i as int),
        decreases v@.len() - i,
    {
        let ghost before = r@;
        r.push(v[i].clone());
        assert(strs(r@) =~= strs(before).push(v@[i as int]@));
        assert(strs(v@).take(i + 1) =~= strs(v@).take(i as int).push(v@[i as int]@));
        i += 1;
    }
    assert(strs(v@).take(i as int) =~= strs(v@));
    r
}

/// The events a workflow runs on: one, a list, or a map from event to its
/// filters.
pub enum Trigger {
    Single(String),
    Multiple(Vec<String>),
    Mapping(Vec<(String, Option<TriggerConfig>)>),
}

/// The event names of a trigger, in the order written.
pub open spec fn trigger_events(t: &Trigger) -> Seq<Seq<char>> {
    match t {
        Trigger::Single(s) => seq![s@],
        Trigger::Multiple(v) => strs(v@),
        Trigger::Mapping(m) => m@.map_values(|e: (String, Option<TriggerConfig>)| e.0@),
    }
}

impl Trigger {
    /// The event names of the trigger (`trigger_events`).
    pub fn events(&self) -> (r: Vec<String>)
        ensures
            strs(r@) == trigger_events(self),
    {
        match self {
            Trigger::Single(s) => {
                let r = vec![s.clone()];
                assert(strs(r@) =~= seq![s@]);
                r
            },
            Trigger::Multiple(v) => copy_strings(v),
            Trigger::Mapping(m) => {
                let mut r: Vec<String> = Vec::new();
                let mut i: usize = 0;
                while i < m.len()
                    invariant
                        i <= m@.len(),
                        strs(r@) == m@.map_values(|e: (String, Option<TriggerConfig>)| e.0@).take(
                            i as int,
                        ),
                    decreases m@.len() - i,
                {
                    let ghost before = r@;
                    r.push(m[i].0.clone());
                    assert(strs(r@) =~= strs(before).push(m@[i as int].0@));
                    assert(m@.map_values(|e: (String, Option<TriggerConfig>)| e.0@).take(i + 1)
                        =~= m@.map_values(|e: (String, Option<TriggerConfig>)| e.0@).take(
                        i as int,
                    ).push(m@[i as int].0@));
                    i += 1;
                }
                assert(m@.map_values(|e: (String, Option<TriggerConfig>)| e.0@).take(i as int)
                    =~= m@.map_values(|e: (String, Option<TriggerConfig>)| e.0@));
                r
            },
        }
    }
}

/// The filters of an event trigger.
pub struct TriggerConfig {
    pub branches: Option<Vec<String>>,
    pub tags: Option<Vec<String>>,
    pub paths: Option<Vec<String>>,
    pub paths_ignore: Option<Vec<String>>,
    pub types: Option<Vec<String>>,
}

/// Workflow-wide defaults.
pub struct Defaults {
    pub run: Option<RunDefaults>,
}

/// Defaults of `run` steps.
pub struct RunDefaults {
    pub shell: Option<String>,
    pub working_directory: Option<String>,
}

/// A workflow: its jobs by id, in the order written.
pub struct Workflow {
    pub name: Option<String>,
    pub on: Option<Trigger>,
    pub env: Option<StrMap>,
    pub defaults: Option<Defaults>,
    pub jobs: Vec<(String, Job)>,
}

/// A job of a workflow.
pub struct Job {
    pub name: Option<String>,
    pub runs_on: Option<RunsOn>,
    pub needs: Option<JobNeeds>,
    pub steps: Option<Vec<Step>>,
    pub env: Option<StrMap>,
    pub condition: Option<String>,
    pub container: Option<Container>,
    pub services: Option<Vec<(String, ServiceContainer)>>,
    pub strategy: Option<Strategy>,
    pub timeout_minutes: Option<u64>,
    pub continue_on_error: Option<bool>,
    pub outputs: Option<StrMap>,
}

/// The runner labels of a job: one or a list.
pub enum RunsOn {
    Single(String),
    Multiple(Vec<String>),
}

/// The labels of a `runs-on` value.
pub open spec fn runs_on_labels(r: &RunsOn) -> Seq<Seq<char>> {
    match r {
        RunsOn::Single(s) => seq![s@],
        RunsOn::Multiple(v) => strs(v@),
    }
}

/// Texts joined with `, ` between them.
pub open spec fn comma_joined(s: Seq<Seq<char>>) -> Seq<char>
    decreases s.len(),
{
    if s.len() == 0 {
        Seq::empty()
    } else if s.len() == 1 {
        s[0]
    } else {
        comma_joined(s.drop_last()) + ", "@ + s.last()
    }
}

impl RunsOn {
    /// The labels (`runs_on_labels`).
    pub fn labels(&self) -> (r: Vec<String>)
        ensures
            strs(r@) == runs_on_labels(self),
    {
        match self {
            RunsOn::Single(s) => {
                let r = vec![s.clone()];
                assert(strs(r@) =~= seq![s@]);
                r
            },
            RunsOn::Multiple(v) => copy_strings(v),
        }
    }

    /// The labels joined with `, `, as the runner shows them.
    pub fn to_display(&self) -> (r: String)
        ensures
            r@ == comma_joined(runs_on_labels(self)),
    {
        let labels = self.labels();
        let mut r = String::new();
        let mut i: usize = 0;
        while i < labels.len()
            invariant
                i <= labels@.len(),
                strs(labels@) == runs_on_labels(self),
                r@ == comma_joined(strs(labels@).take(i as int)),
            decreases labels@.len() - i,
        {
            if i > 0 {
                push_str(&mut r, ", ");
            }
            push_str(&mut r, labels[i].as_str());
            proof {
                let t = strs(labels@).take(i + 1);
                assert(t.drop_last() =~= strs(labels@).take(i as int));
                if i == 0 {
                    assert(r@ =~= t[0]);
                }
            }
            i += 1;
        }
        assert(strs(labels@).take(i as int) =~= strs(labels@));
        r
    }
}

/// The jobs a job needs: one or a list.
pub enum JobNeeds {
    Single(String),
    Multiple(Vec<String>),
}

/// The job ids of a `needs` value.
pub open spec fn needs_list(n: &JobNeeds) -> Seq<Seq<char>> {
    match n {
        JobNeeds::Single(s) => seq![s@],
        JobNeeds::Multiple(v) => strs(v@),
    }
}

impl JobNeeds {
    /// The job ids (`needs_list`).
    pub fn as_vec(&self) -> (r: Vec<String>)
        ensures
            strs(r@) == needs_list(self),
    {
        match self {
            JobNeeds::Single(s) => {
                let r = vec![s.clone()];
                assert(strs(r@) =~= seq![s@]);
                r
            },
            JobNeeds::Multiple(v) => copy_strings(v),
        }
    }
}

/// A step of a job.
pub struct Step {
    pub id: Option<String>,
    pub name: Option<String>,
    pub run: Option<String>,
    pub uses: Option<String>,
    pub with: Option<ObjectMap>,
    pub env: Option<StrMap>,
    pub condition: Option<String>,
    pub shell: Option<String>,
    pub working_directory: Option<String>,
    pub continue_on_error: Option<bool>,
    pub timeout_minutes: Option<u64>,
}

/// The container of a job: an image, or a full configuration.
pub enum Container {
    Image(String),
    Config(ContainerConfig),
}

impl Container {
    /// The image of the container.
    pub fn image(&self) -> (s: &str)
        ensures
            s@ == match self {
                Container::Image(i) => i@,
                Container::Config(c) => c.image@,
            },
    {
        match self {
            Container::Image(s) => s.as_str(),
            Container::Config(c) => c.image.as_str(),
        }
    }
}

/// A container configuration.
pub struct ContainerConfig {
    pub image: String,
    pub env: Option<StrMap>,
    pub ports: Option<Vec<String>>,
    pub volumes: Option<Vec<String>>,
    pub options: Option<String>,
    pub credentials: Option<ContainerCredentials>,
}

/// Registry credentials of a container.
pub struct ContainerCredentials {
    pub username: Option<String>,
    pub password: Option<String>,
}

/// A service container of a job.
pub struct ServiceContainer {
    pub image: String,
    pub env: Option<StrMap>,
    pub ports: Option<Vec<String>>,
    pub volumes: Option<Vec<String>>,
    pub options: Option<String>,
    pub credentials: Option<ContainerCredentials>,
}

/// The strategy of a job.
pub struct Strategy {
    pub matrix: Option<Matrix>,
    pub fail_fast: Option<bool>,
    pub max_parallel: Option<u32>,
}

/// A build matrix: its dimensions, and the combinations to add and to
/// leave out.
pub struct Matrix {
    pub additions: Option<Vec<ObjectMap>>,
    pub exclude: Option<Vec<ObjectMap>>,
    pub dimensions: ObjectMap,
}

/// The number of bytes of a character in UTF-8.
pub open spec fn utf8_len(c: char) -> nat {
    if (c as u32) < 0x80 {
        1
    } else if (c as u32) < 0x800 {
        2
    } else if (c as u32) < 0x10000 {
        3
    } else {
        4
    }
}

/// The number of bytes of a text in UTF-8 (what `str::len` counts).
pub open spec fn utf8_size(s: Seq<char>) -> nat
    decreases s.len(),
{
    if s.len() == 0 {
        0
    } else {
        utf8_size(s.drop_last()) + utf8_len(s.last())
    }
}

/// How many leading characters fit in `n` bytes.
pub open spec fn chars_within(s: Seq<char>, n: int) -> nat
    decreases s.len(),
{
    if s.len() == 0 || utf8_len(s[0]) > n {
        0
    } else {
        1 + chars_within(s.drop_first(), n - utf8_len(s[0]))
    }
}

/// The first line of a command (`(empty)` when it has none).
pub open spec fn first_line(run: Seq<char>) -> Seq<char> {
    if lines_of(run).len() > 0 {
        lines_of(run)[0]
    } else {
        "(empty)"@
    }
}

/// Whether byte `n` of the text falls between two characters.
pub open spec fn byte_boundary(s: Seq<char>, n: int) -> bool {
    utf8_size(s.take(chars_within(s, n) as int)) == n
}

/// The name a step is shown under: its name; else the first line of its
/// command, cut to 57 bytes and `...` when longer than 60 bytes; else what
/// it uses; else `(unnamed step)`.
pub open spec fn step_display_name(s: Step) -> Seq<char> {
    match s.name {
        Some(n) => n@,
        None => match s.run {
            Some(r) => {
                let l = first_line(r@);
                if utf8_size(l) > 60 {
                    l.take(chars_within(l, 57) as int) + "..."@
                } else {
                    l
                }
            },
            None => match s.uses {
                Some(u) => u@,
                None => "(unnamed step)"@,
            },
        },
    }
}

proof fn lemma_size_prefix(s: Seq<char>, i: int)
    requires
        0 <= i <= s.len(),
    ensures
        utf8_size(s.take(i)) <= utf8_size(s),
    decreases s.len() - i,
{
    if i < s.len() {
        lemma_size_prefix(s, i + 1);
        assert(s.take(i + 1).drop_last() =~= s.take(i));
    } else {
        assert(s.take(i) =~= s);
    }
}

fn char_size(c: char) -> (n: usize)
    ensures
        n == utf8_len(c),
{
    let v = c as u32;
    if v < 0x80 {
        1
    } else if v < 0x800 {
        2
    } else if v < 0x10000 {
        3
    } else {
        4
    }
}

impl Step {
    /// The name the step is shown under (`step_display_name`). A command
    /// whose first line is longer than 60 bytes is cut at byte 57, which
    /// must fall between two characters.
    pub fn display_name(&self) -> (r: String)
        requires
            self.name is None && self.run is Some && utf8_size(first_line(self.run->0@)) > 60
                ==> byte_boundary(first_line(self.run->0@), 57),
        ensures
            r@ == step_display_name(*self),
    {
        if let Some(name) = &self.name {
            return name.clone();
        }
        if let Some(run) = &self.run {
            let cs = chars_of(run.as_str());
            let ls = lines(cs.as_slice());
            let l: Vec<char> = if ls.len() > 0 {
                assert(ls@[0]@ == lines_of(run@)[0]);
                let mut c: Vec<char> = Vec::new();
                let mut k: usize = 0;
                while k < ls[0].len()
                    invariant
                        ls@.len() > 0,
                        k <= ls@[0]@.len(),
                        c@ == ls@[0]@.take(k as int),
                    decreases ls@[0]@.len() - k,
                {
                    c.push(ls[0][k]);
                    assert(ls@[0]@.take(k + 1) =~= ls@[0]@.take(k as int).push(ls@[0]@[k as int]));
                    k += 1;
                }
                assert(ls@[0]@.take(k as int) =~= ls@[0]@);
                c
            } else {
                let e = String::from_str("(empty)");
                chars_of(e.as_str())
            };
            let ghost lv = first_line(run@);
            assert(l@ == lv);
            let mut total: usize = 0;
            let mut i: usize = 0;
            while i < l.len() && total <= 60
                invariant
                    i <= l@.len(),
                    total == utf8_size(l@.take(i as int)),
                    total <= 64,
                decreases l@.len() - i,
            {
                total += char_size(l[i]);
                assert(l@.take(i + 1).drop_last() =~= l@.take(i as int));
                i += 1;
            }
            proof {
                lemma_size_prefix(l@, i as int);
                if i == l@.len() {
                    assert(l@.take(i as int) =~= l@);
                }
            }
            if total <= 60 {
                return string_of(l.as_slice());
            }
            let mut j: usize = 0;
            let mut acc: usize = 0;
            assert(l@.skip(0) =~= l@);
            while j < l.len() && acc + char_size(l[j]) <= 57
                invariant
                    j <= l@.len(),
                    acc <= 57,
                    chars_within(l@, 57) == j + chars_within(l@.skip(j as int), 57 - acc),
                decreases l@.len() - j,
            {
                proof {
                    assert(l@.skip(j as int)[0] == l@[j as int]);
                    assert(l@.skip(j as int).drop_first() =~= l@.skip(j + 1));
                }
                acc += char_size(l[j]);
                j += 1;
            }
            proof {
                if j < l@.len() {
                    assert(l@.skip(j as int)[0] == l@[j as int]);
                }
            }
            let mut out = String::new();
            let mut q: usize = 0;
            while q < j
                invariant
                    j <= l@.len(),
                    q <= j,
                    out@ == l@.take(q as int),
                decreases j - q,
            {
                crate::text::push_char(&mut out, l[q]);
                assert(l@.take(q + 1) =~= l@.take(q as int).push(l@[q as int]));
                q += 1;
            }
            push_str(&mut out, "...");
            return out;
        }
        match &self.uses {
            Some(u) => u.clone(),
            None => String::from_str("(unnamed step)"),
        }
    }
}

} // verus!
