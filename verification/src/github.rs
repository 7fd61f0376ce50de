//! The `github` context, the `GITHUB_*` environment variables and what is
//! read from the repository's git metadata.
use crate::strmap::{StrMap, fold_insert};
use crate::text::{chars_of, find_char, find_char_from, find_chars, find_from, has_prefix, has_suffix, lemma_find_char_from, lemma_find_from, push_str, starts_with_str, string_of_range};
use crate::value::{ObjectMap, SpecValue, Value};
use vstd::prelude::*;

verus! {

/// `s` without every trailing repetition of `suf` (`str::trim_end_matches`
/// with a non-empty pattern).
pub open spec fn trim_end_matches(s: Seq<char>, suf: Seq<char>) -> Seq<char>
    decreases s.len(),
{
    if suf.len() > 0 && has_suffix(s, suf) {
        trim_end_matches(s.take(s.len() - suf.len()), suf)
    } else {
        s
    }
}

/// The second `:`-separated piece of `s`, if `s` has a `:`
/// (`s.split(':').nth(1)`).
pub open spec fn second_colon_piece(s: Seq<char>) -> Option<Seq<char>> {
    match find_char_from(s, ':', 0) {
        None => None,
        Some(k) => {
            let after = s.skip(k + 1);
            match find_char_from(after, ':', 0) {
                Some(k2) => Some(after.take(k2)),
                None => Some(after),
            }
        },
    }
}

/// The `owner/repo` of a GitHub remote URL: after `git@host:` for an SSH
/// URL, after `github.com/` otherwise; a trailing `.git` dropped.
pub open spec fn repo_of_url(url: Seq<char>) -> Option<Seq<char>> {
    if has_prefix(url, "git@"@) {
        match second_colon_piece(url.skip(4)) {
            Some(p) => Some(trim_end_matches(p, ".git"@)),
            None => None,
        }
    } else {
        match find_from(url, "github.com/"@, 0) {
            Some(idx) => Some(trim_end_matches(url.skip(idx + 11), ".git"@)),
            None => None,
        }
    }
}

/// The name of a git ref: without `refs/heads/` or `refs/tags/`.
pub open spec fn ref_name_of(r: Seq<char>) -> Seq<char> {
    if has_prefix(r, "refs/heads/"@) {
        r.skip(11)
    } else if has_prefix(r, "refs/tags/"@) {
        r.skip(10)
    } else {
        r
    }
}

/// The type of a git ref: `tag` under `refs/tags/`, `branch` otherwise.
pub open spec fn ref_type_of(r: Seq<char>) -> Seq<char> {
    if has_prefix(r, "refs/tags/"@) {
        "tag"@
    } else {
        "branch"@
    }
}

/// The owner part of `owner/repo`: what comes before the first `/`.
pub open spec fn owner_of(repository: Seq<char>) -> Seq<char> {
    match find_char_from(repository, '/', 0) {
        Some(k) => repository.take(k),
        None => repository,
    }
}

/// The runner OS label for a target operating system.
pub open spec fn os_label(target_os: Seq<char>) -> Seq<char> {
    if target_os == "macos"@ {
        "macOS"@
    } else if target_os == "windows"@ {
        "Windows"@
    } else {
        "Linux"@
    }
}

/// The runner architecture label for a target architecture.
pub open spec fn arch_label(target_arch: Seq<char>) -> Seq<char> {
    if target_arch == "aarch64"@ {
        "ARM64"@
    } else if target_arch == "x86"@ {
        "X86"@
    } else {
        "X64"@
    }
}

/// `s` without every trailing repetition of `suf`.
fn trim_end_repeated(s: &[char], suf: &[char]) -> (r: String)
    requires
        suf@.len() > 0,
    ensures
        r@ == trim_end_matches(s@, suf@),
{
    let mut end = s.len();
    let n = suf.len();
    assert(s@.take(end as int) =~= s@);
    while end >= n && crate::text::matches_at(s, suf, end - n)
        invariant
            end <= s@.len(),
            n == suf@.len() > 0,
            trim_end_matches(s@, suf@) == trim_end_matches(s@.take(end as int), suf@),
        decreases end,
    {
        assert(s@.take(end as int).skip(end - n) =~= s@.subrange(end - n, end as int));
        assert(s@.take(end as int).take(end - n) =~= s@.take(end - n));
        end -= n;
    }
    proof {
        if end >= n {
            assert(s@.take(end as int).skip(end - n) =~= s@.subrange(end - n, end as int));
        }
    }
    string_of_range(s, 0, end)
}

/// The `owner/repo` of a GitHub remote URL (`repo_of_url`).
pub fn extract_repo_from_url(url: &str) -> (r: Option<String>)
    ensures
        match repo_of_url(url@) {
            Some(p) => r matches Some(s) && s@ == p,
            None => r is None,
        },
{
    let cs = chars_of(url);
    let n = cs.len();
    let dot_git = chars_of(".git");
    proof {
        reveal_strlit(".git");
        reveal_strlit("git@");
        reveal_strlit("github.com/");
    }
    if starts_with_str(url, "git@") {
        let rest = string_of_range(cs.as_slice(), 4, n);
        let rc = chars_of(rest.as_str());
        assert(rc@ =~= url@.skip(4));
        let m = rc.len();
        match find_char(rc.as_slice(), ':', 0) {
            None => {
                return None;
            },
            Some(k) => {
                proof {
                    lemma_find_char_from(rc@, ':', 0);
                }
                let after = string_of_range(rc.as_slice(), k + 1, m);
                let ac = chars_of(after.as_str());
                let am = ac.len();
                assert(ac@ =~= rc@.skip(k + 1));
                let piece = match find_char(ac.as_slice(), ':', 0) {
                    Some(k2) => {
                        proof {
                            lemma_find_char_from(ac@, ':', 0);
                        }
                        string_of_range(ac.as_slice(), 0, k2)
                    },
                    None => string_of_range(ac.as_slice(), 0, am),
                };
                assert(ac@.take(am as int) =~= ac@);
                let pc = chars_of(piece.as_str());
                return Some(trim_end_repeated(pc.as_slice(), dot_git.as_slice()));
            },
        }
    }
    let marker = chars_of("github.com/");
    match find_chars(cs.as_slice(), marker.as_slice(), 0) {
        Some(idx) => {
            proof {
                lemma_find_from(cs@, marker@, 0);
            }
            let path = string_of_range(cs.as_slice(), idx + 11, n);
            let pc = chars_of(path.as_str());
            assert(pc@ =~= url@.skip(idx + 11));
            Some(trim_end_repeated(pc.as_slice(), dot_git.as_slice()))
        },
        None => None,
    }
}

/// The name of a git ref (`ref_name_of`).
pub fn ref_name(git_ref: &str) -> (r: String)
    ensures
        r@ == ref_name_of(git_ref@),
{
    let cs = chars_of(git_ref);
    let n = cs.len();
    proof {
        reveal_strlit("refs/heads/");
        reveal_strlit("refs/tags/");
    }
    if starts_with_str(git_ref, "refs/heads/") {
        string_of_range(cs.as_slice(), 11, n)
    } else if starts_with_str(git_ref, "refs/tags/") {
        string_of_range(cs.as_slice(), 10, n)
    } else {
        let r = string_of_range(cs.as_slice(), 0, n);
        assert(cs@.subrange(0, n as int) =~= cs@);
        r
    }
}

/// The type of a git ref (`ref_type_of`).
pub fn ref_type(git_ref: &str) -> (r: String)
    ensures
        r@ == ref_type_of(git_ref@),
{
    if starts_with_str(git_ref, "refs/tags/") {
        String::from_str("tag")
    } else {
        String::from_str("branch")
    }
}

/// The owner part of `owner/repo` (`owner_of`).
pub fn repository_owner(repository: &str) -> (r: String)
    ensures
        r@ == owner_of(repository@),
{
    let cs = chars_of(repository);
    let n = cs.len();
    match find_char(cs.as_slice(), '/', 0) {
        Some(k) => {
            proof {
                lemma_find_char_from(cs@, '/', 0);
            }
            string_of_range(cs.as_slice(), 0, k)
        },
        None => {
            assert(cs@.subrange(0, n as int) =~= cs@);
            string_of_range(cs.as_slice(), 0, n)
        },
    }
}

/// The runner OS label for the operating system the runner was built for
/// (`os_label`).
pub fn detect_os(target_os: &str) -> (r: &'static str)
    ensures
        r@ == os_label(target_os@),
{
    if crate::text::str_eq(target_os, "macos") {
        "macOS"
    } else if crate::text::str_eq(target_os, "windows") {
        "Windows"
    } else {
        "Linux"
    }
}

/// The runner architecture label for the architecture the runner was built
/// for (`arch_label`).
pub fn detect_arch(target_arch: &str) -> (r: &'static str)
    ensures
        r@ == arch_label(target_arch@),
{
    if crate::text::str_eq(target_arch, "aarch64") {
        "ARM64"
    } else if crate::text::str_eq(target_arch, "x86") {
        "X86"
    } else {
        "X64"
    }
}

/// The repository, commit and ref of a workspace, from what git reported:
/// the `origin` URL, the `HEAD` commit and the symbolic ref of `HEAD`
/// (each `None` where git failed).  Defaults: `local/repo`, forty zeros,
/// `refs/heads/main`; a remote URL that names no GitHub repository counts as
/// no URL.
pub fn detect_git_info(
    remote_url: Option<String>,
    head_sha: Option<String>,
    head_ref: Option<String>,
) -> (r: (String, String, String))
    ensures
        r.0@ == match remote_url {
            Some(u) => match repo_of_url(u@) {
                Some(p) => p,
                None => "local/repo"@,
            },
            None => "local/repo"@,
        },
        r.1@ == match head_sha {
            Some(s) => s@,
            None => "0000000000000000000000000000000000000000"@,
        },
        r.2@ == match head_ref {
            Some(s) => s@,
            None => "refs/heads/main"@,
        },
{
    let repository = match remote_url {
        Some(u) => match extract_repo_from_url(u.as_str()) {
            Some(p) => p,
            None => String::from_str("local/repo"),
        },
        None => String::from_str("local/repo"),
    };
    let sha = match head_sha {
        Some(s) => s,
        None => String::from_str("0000000000000000000000000000000000000000"),
    };
    let git_ref = match head_ref {
        Some(s) => s,
        None => String::from_str("refs/heads/main"),
    };
    (repository, sha, git_ref)
}

/// The `GITHUB_*` and `RUNNER_*` variables of a job, in the order in which
/// they are set.
pub open spec fn github_env_entries(
    event_name: Seq<char>,
    workspace: Seq<char>,
    repository: Seq<char>,
    sha: Seq<char>,
    git_ref: Seq<char>,
    job_id: Seq<char>,
    runner_temp: Seq<char>,
    target_os: Seq<char>,
    target_arch: Seq<char>,
) -> Seq<(Seq<char>, Seq<char>)> {
    seq![
        ("CI"@, "true"@),
        ("GITHUB_ACTIONS"@, "true"@),
        ("GITHUB_EVENT_NAME"@, event_name),
        ("GITHUB_WORKSPACE"@, workspace),
        ("GITHUB_REPOSITORY"@, repository),
        ("GITHUB_SHA"@, sha),
        ("GITHUB_REF"@, git_ref),
        ("GITHUB_REF_NAME"@, ref_name_of(git_ref)),
        ("GITHUB_REF_TYPE"@, ref_type_of(git_ref)),
        ("GITHUB_JOB"@, job_id),
        ("GITHUB_REPOSITORY_OWNER"@, owner_of(repository)),
        ("GITHUB_ACTOR"@, "local"@),
        ("GITHUB_RUN_ID"@, "1"@),
        ("GITHUB_RUN_NUMBER"@, "1"@),
        ("GITHUB_RUN_ATTEMPT"@, "1"@),
        ("GITHUB_SERVER_URL"@, "https://github.com"@),
        ("GITHUB_API_URL"@, "https://api.github.com"@),
        ("GITHUB_OUTPUT"@, runner_temp + "/github_output"@),
        ("GITHUB_ENV"@, runner_temp + "/github_env"@),
        ("GITHUB_PATH"@, runner_temp + "/github_path"@),
        ("GITHUB_STATE"@, runner_temp + "/github_state"@),
        ("GITHUB_STEP_SUMMARY"@, runner_temp + "/github_step_summary"@),
        ("GITHUB_EVENT_PATH"@, runner_temp + "/event.json"@),
        ("RUNNER_OS"@, os_label(target_os)),
        ("RUNNER_ARCH"@, arch_label(target_arch)),
        ("RUNNER_TEMP"@, runner_temp),
        ("RUNNER_TOOL_CACHE"@, runner_temp + "/../tool_cache"@),
    ]
}

/// A string made of `a` followed by `b`.
pub fn concat(a: &str, b: &str) -> (r: String)
    ensures
        r@ == a@ + b@,
{
    let mut r = String::new();
    push_str(&mut r, a);
    push_str(&mut r, b);
    assert(r@ =~= a@ + b@);
    r
}

/// Builds the `GITHUB_*` and `RUNNER_*` variables of a job
/// (`github_env_entries`), given the workspace and the runner's temporary
/// directory as text and the operating system and architecture the runner
/// was built for.
pub fn build_github_env(
    event_name: &str,
    workspace: &str,
    repository: &str,
    sha: &str,
    git_ref: &str,
    job_id: &str,
    runner_temp: &str,
    target_os: &str,
    target_arch: &str,
) -> (m: StrMap)
    ensures
        m@ == fold_insert(
            Map::empty(),
            github_env_entries(
                event_name@,
                workspace@,
                repository@,
                sha@,
                git_ref@,
                job_id@,
                runner_temp@,
                target_os@,
                target_arch@,
            ),
        ),
{
    let mut v: Vec<(String, String)> = Vec::new();
    v.push((String::from_str("CI"), String::from_str("true")));
    v.push((String::from_str("GITHUB_ACTIONS"), String::from_str("true")));
    v.push((String::from_str("GITHUB_EVENT_NAME"), String::from_str(event_name)));
    v.push((String::from_str("GITHUB_WORKSPACE"), String::from_str(workspace)));
    v.push((String::from_str("GITHUB_REPOSITORY"), String::from_str(repository)));
    v.push((String::from_str("GITHUB_SHA"), String::from_str(sha)));
    v.push((String::from_str("GITHUB_REF"), String::from_str(git_ref)));
    v.push((String::from_str("GITHUB_REF_NAME"), ref_name(git_ref)));
    v.push((String::from_str("GITHUB_REF_TYPE"), ref_type(git_ref)));
    v.push((String::from_str("GITHUB_JOB"), String::from_str(job_id)));
    v.push((String::from_str("GITHUB_REPOSITORY_OWNER"), repository_owner(repository)));
    v.push((String::from_str("GITHUB_ACTOR"), String::from_str("local")));
    v.push((String::from_str("GITHUB_RUN_ID"), String::from_str("1")));
    v.push((String::from_str("GITHUB_RUN_NUMBER"), String::from_str("1")));
    v.push((String::from_str("GITHUB_RUN_ATTEMPT"), String::from_str("1")));
    v.push((String::from_str("GITHUB_SERVER_URL"), String::from_str("https://github.com")));
    v.push((String::from_str("GITHUB_API_URL"), String::from_str("https://api.github.com")));
    v.push((String::from_str("GITHUB_OUTPUT"), concat(runner_temp, "/github_output")));
    v.push((String::from_str("GITHUB_ENV"), concat(runner_temp, "/github_env")));
    v.push((String::from_str("GITHUB_PATH"), concat(runner_temp, "/github_path")));
    v.push((String::from_str("GITHUB_STATE"), concat(runner_temp, "/github_state")));
    v.push((String::from_str("GITHUB_STEP_SUMMARY"), concat(runner_temp, "/github_step_summary")));
    v.push((String::from_str("GITHUB_EVENT_PATH"), concat(runner_temp, "/event.json")));
    v.push((String::from_str("RUNNER_OS"), String::from_str(detect_os(target_os))));
    v.push((String::from_str("RUNNER_ARCH"), String::from_str(detect_arch(target_arch))));
    v.push((String::from_str("RUNNER_TEMP"), String::from_str(runner_temp)));
    v.push((String::from_str("RUNNER_TOOL_CACHE"), concat(runner_temp, "/../tool_cache")));
    assert(crate::strmap::pairs_view(v@) =~= github_env_entries(
        event_name@,
        workspace@,
        repository@,
        sha@,
        git_ref@,
        job_id@,
        runner_temp@,
        target_os@,
        target_arch@,
    ));
    StrMap::from_pairs(&v)
}

/// The members of the `github` context, in the order in which they are
/// set.
pub open spec fn github_context_pairs(
    event_name: Seq<char>,
    workspace: Seq<char>,
    repository: Seq<char>,
    sha: Seq<char>,
    git_ref: Seq<char>,
    job_id: Seq<char>,
    event_payload: SpecValue,
) -> Seq<(Seq<char>, SpecValue)> {
    seq![
        ("event_name"@, SpecValue::Str(event_name)),
        ("event"@, event_payload),
        ("repository"@, SpecValue::Str(repository)),
        ("sha"@, SpecValue::Str(sha)),
        ("ref"@, SpecValue::Str(git_ref)),
        ("ref_name"@, SpecValue::Str(ref_name_of(git_ref))),
        ("ref_type"@, SpecValue::Str(ref_type_of(git_ref))),
        ("job"@, SpecValue::Str(job_id)),
        ("workspace"@, SpecValue::Str(workspace)),
        ("action"@, SpecValue::Str(""@)),
        ("action_path"@, SpecValue::Str(""@)),
        ("actor"@, SpecValue::Str("local"@)),
        ("actor_id"@, SpecValue::Str("0"@)),
        ("run_id"@, SpecValue::Str("1"@)),
        ("run_number"@, SpecValue::Str("1"@)),
        ("run_attempt"@, SpecValue::Str("1"@)),
        ("server_url"@, SpecValue::Str("https://github.com"@)),
        ("api_url"@, SpecValue::Str("https://api.github.com"@)),
        ("graphql_url"@, SpecValue::Str("https://api.github.com/graphql"@)),
        ("repository_owner"@, SpecValue::Str(owner_of(repository))),
        ("workflow"@, SpecValue::Str(""@)),
        ("head_ref"@, SpecValue::Str(""@)),
        ("base_ref"@, SpecValue::Str(""@)),
        ("token"@, SpecValue::Str(""@)),
        ("retention_days"@, SpecValue::Str("90"@)),
    ]
}

fn str_value(s: &str) -> (v: Value)
    ensures
        v@ == SpecValue::Str(s@),
{
    Value::String(String::from_str(s))
}

/// Builds the `github` context of a job (`github_context_pairs`), given the
/// workspace as text and the event payload.
pub fn build_github_context(
    event_name: &str,
    workspace: &str,
    repository: &str,
    sha: &str,
    git_ref: &str,
    job_id: &str,
    event_payload: &Value,
) -> (r: Value)
    ensures
        r@ == SpecValue::Object(
            crate::value::obj_fold(
                Seq::empty(),
                github_context_pairs(
                    event_name@,
                    workspace@,
                    repository@,
                    sha@,
                    git_ref@,
                    job_id@,
                    event_payload@,
                ),
            ),
        ),
{
    let mut v: Vec<(String, Value)> = Vec::new();
    v.push((String::from_str("event_name"), str_value(event_name)));
    v.push((String::from_str("event"), event_payload.copy()));
    v.push((String::from_str("repository"), str_value(repository)));
    v.push((String::from_str("sha"), str_value(sha)));
    v.push((String::from_str("ref"), str_value(git_ref)));
    v.push((String::from_str("ref_name"), Value::String(ref_name(git_ref))));
    v.push((String::from_str("ref_type"), Value::String(ref_type(git_ref))));
    v.push((String::from_str("job"), str_value(job_id)));
    v.push((String::from_str("workspace"), str_value(workspace)));
    v.push((String::from_str("action"), str_value("")));
    v.push((String::from_str("action_path"), str_value("")));
    v.push((String::from_str("actor"), str_value("local")));
    v.push((String::from_str("actor_id"), str_value("0")));
    v.push((String::from_str("run_id"), str_value("1")));
    v.push((String::from_str("run_number"), str_value("1")));
    v.push((String::from_str("run_attempt"), str_value("1")));
    v.push((String::from_str("server_url"), str_value("https://github.com")));
    v.push((String::from_str("api_url"), str_value("https://api.github.com")));
    v.push((String::from_str("graphql_url"), str_value("https://api.github.com/graphql")));
    v.push((String::from_str("repository_owner"), Value::String(repository_owner(repository))));
    v.push((String::from_str("workflow"), str_value("")));
    v.push((String::from_str("head_ref"), str_value("")));
    v.push((String::from_str("base_ref"), str_value("")));
    v.push((String::from_str("token"), str_value("")));
    v.push((String::from_str("retention_days"), str_value("90")));
    assert(crate::value::member_pairs_view(v@) =~= github_context_pairs(
        event_name@,
        workspace@,
        repository@,
        sha@,
        git_ref@,
        job_id@,
        event_payload@,
    ));
    Value::Object(ObjectMap::from_pairs(&v))
}

} // verus!
