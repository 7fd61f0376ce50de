//! The results of steps, jobs and composite actions, the configuration of
//! a workflow run, and how a Node.js action's run is judged.
use crate::env_files::{github_file, parse_github_file_content};
use crate::error::{Error, SpecError};
use crate::shell::ExecResult;
use crate::strmap::StrMap;
use crate::text::push_str;
use vstd::prelude::*;

verus! {

/// What running a step gave.
pub struct StepResult {
    pub success: bool,
    pub outputs: StrMap,
}

/// What running a job gave.
pub struct JobResult {
    pub success: bool,
    pub outputs: StrMap,
}

/// What running a composite action gave.
pub struct CompositeResult {
    pub outputs: StrMap,
    pub success: bool,
}

/// The configuration of a workflow run; paths are given as text.
pub struct EngineConfig<'a> {
    pub event_name: &'a str,
    pub workspace: &'a str,
    pub extra_env: &'a StrMap,
    pub secrets: &'a StrMap,
    pub target_job: Option<&'a str>,
    pub event_file: Option<&'a str>,
    pub runner_temp: &'a str,
    pub actions_cache: &'a str,
    pub default_shell: &'a str,
}

/// The script that runs a Node.js action's entry point.
pub open spec fn node_script_text(main_file: Seq<char>) -> Seq<char> {
    "node '"@ + main_file + "'"@
}

/// The script that runs a Node.js action's entry point
/// (`node_script_text`); it is run with `sh` from the action's directory.
pub fn node_script(main_file: &str) -> (s: String)
    ensures
        s@ == node_script_text(main_file@),
{
    let mut s = String::from_str("node '");
    push_str(&mut s, main_file);
    push_str(&mut s, "'");
    assert(s@ =~= node_script_text(main_file@));
    s
}

/// Judges the run of a Node.js action: a non-zero exit code fails it as
/// step `main_file` of job `action`; otherwise its outputs are what it
/// wrote to `GITHUB_OUTPUT` (whose content is given).
pub fn run_node_action(main_file: &str, result: &ExecResult, github_output: &str) -> (r: Result<
    StrMap,
    Error,
>)
    ensures
        result.exit_code != 0 ==> (r matches Err(e) && e@ == SpecError::StepFailed {
            job: "action"@,
            step: main_file@,
            exit_code: result.exit_code as int,
        }),
        result.exit_code == 0 ==> (r matches Ok(m) && m@ == github_file(github_output@)),
{
    if result.exit_code != 0 {
        return Err(
            Error::StepFailed {
                job: String::from_str("action"),
                step: String::from_str(main_file),
                exit_code: result.exit_code,
            },
        );
    }
    Ok(parse_github_file_content(github_output))
}

} // verus!
