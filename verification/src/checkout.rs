//! The decisions of the `actions/checkout` emulation and of the artifact
//! actions (`actions/upload-artifact`, `actions/download-artifact`); the
//! runner runs `git` and copies the files.
use crate::builtin::{input_or_empty, strs, trimmed_lines, trimmed_lines_from};
use crate::error::{Error, SpecError, error_text};
use crate::functions::{parse_usize, parse_usize_text};
use crate::strmap::StrMap;
use crate::text::{chars_of, contains_chars, contains_seq, has_prefix, lines_of, nat_text, push_decimal, push_str, starts_with_str, str_eq};
use vstd::prelude::*;

verus! {

/// What the checkout emulation does.
pub enum CheckoutPlan {
    /// Nothing: the workspace already is a git repository, or there is
    /// no repository to clone.
    Nothing,
    /// Clone `url` to `path` (the workspace when absent, otherwise the path
    /// under it) with history `depth` deep (all of it for 0).
    Clone { repository: String, url: String, depth: u32, path: Option<String> },
}

/// An input that is present.
pub open spec fn present(inputs: Map<Seq<char>, Seq<char>>, name: Seq<char>) -> Option<Seq<char>> {
    if inputs.dom().contains(name) {
        Some(inputs[name])
    } else {
        None
    }
}

/// The URL a repository is cloned from: as given when it is a URL (holds
/// `://`) or an SSH address (starts with `git@`), otherwise its GitHub
/// address.
pub open spec fn clone_url(repository: Seq<char>) -> Seq<char> {
    if contains_seq(repository, "://"@) || has_prefix(repository, "git@"@) {
        repository
    } else {
        "https://github.com/"@ + repository + ".git"@
    }
}

/// A `u32` written in decimal, with an optional `+` (`str::parse::<u32>`).
pub open spec fn parse_u32(s: Seq<char>) -> Option<nat> {
    match parse_usize(s) {
        Some(v) => if v <= u32::MAX {
            Some(v)
        } else {
            None
        },
        None => None,
    }
}

/// The depth of the clone: the `fetch-depth` input (written with `-` or,
/// failing that, `_`) read as a `u32`, 1 when missing or unreadable.
pub open spec fn fetch_depth(inputs: Map<Seq<char>, Seq<char>>) -> nat {
    let given = match present(inputs, "INPUT_FETCH-DEPTH"@) {
        Some(v) => Some(v),
        None => present(inputs, "INPUT_FETCH_DEPTH"@),
    };
    match given {
        Some(v) => match parse_u32(v) {
            Some(d) => d,
            None => 1,
        },
        None => 1,
    }
}

fn get_input(inputs: &StrMap, name: &str) -> (r: Option<String>)
    ensures
        match present(inputs@, name@) {
            Some(v) => r matches Some(x) && x@ == v,
            None => r is None,
        },
{
    match inputs.get(name) {
        Some(v) => Some(v.clone()),
        None => None,
    }
}

fn is_empty_text(s: &String) -> (b: bool)
    ensures
        b == (s@.len() == 0),
{
    chars_of(s.as_str()).len() == 0
}

fn parse_u32_text(s: &str) -> (r: Option<u32>)
    ensures
        match parse_u32(s@) {
            Some(v) => r == Some(v as u32),
            None => r is None,
        },
{
    let cs = chars_of(s);
    match parse_usize_text(cs.as_slice()) {
        Some(v) => if v <= 0xffff_ffffusize {
            Some(v as u32)
        } else {
            None
        },
        None => None,
    }
}

/// Decides the checkout (see `CheckoutPlan`) from the inputs and whether
/// the workspace holds a `.git` directory.
pub fn checkout_plan(inputs: &StrMap, is_git_repo: bool) -> (r: CheckoutPlan)
    ensures
        is_git_repo ==> r is Nothing,
        !is_git_repo && input_or_empty(inputs@, "INPUT_REPOSITORY"@).len() == 0 ==> r is Nothing,
        !is_git_repo && input_or_empty(inputs@, "INPUT_REPOSITORY"@).len() > 0 ==> (
        r matches CheckoutPlan::Clone { repository, url, depth, path } && repository@
            == input_or_empty(inputs@, "INPUT_REPOSITORY"@) && url@ == clone_url(repository@)
            && depth == fetch_depth(inputs@) && match present(inputs@, "INPUT_PATH"@) {
            Some(p) => path matches Some(x) && x@ == p,
            None => path is None,
        }),
{
    if is_git_repo {
        return CheckoutPlan::Nothing;
    }
    let repository = match get_input(inputs, "INPUT_REPOSITORY") {
        Some(v) => v,
        None => String::new(),
    };
    if is_empty_text(&repository) {
        return CheckoutPlan::Nothing;
    }
    let rc = chars_of(repository.as_str());
    let mark = chars_of("://");
    let url = if contains_chars(rc.as_slice(), mark.as_slice()) || starts_with_str(
        repository.as_str(),
        "git@",
    ) {
        repository.clone()
    } else {
        let mut u = String::from_str("https://github.com/");
        push_str(&mut u, repository.as_str());
        push_str(&mut u, ".git");
        u
    };
    let given = match get_input(inputs, "INPUT_FETCH-DEPTH") {
        Some(v) => Some(v),
        None => get_input(inputs, "INPUT_FETCH_DEPTH"),
    };
    let depth: u32 = match given {
        Some(v) => match parse_u32_text(v.as_str()) {
            Some(d) => d,
            None => 1,
        },
        None => 1,
    };
    let path = get_input(inputs, "INPUT_PATH");
    CheckoutPlan::Clone { repository, url, depth, path }
}

/// The arguments of the `git clone`: `--depth` and the depth unless it is
/// 0, then the URL and the destination.
pub open spec fn clone_args_of(url: Seq<char>, depth: nat, dest: Seq<char>) -> Seq<Seq<char>> {
    seq!["clone"@] + (if depth > 0 {
        seq!["--depth"@, nat_text(depth)]
    } else {
        Seq::empty()
    }) + seq![url, dest]
}

/// The arguments of the `git clone` (`clone_args_of`).
pub fn clone_args(url: &str, depth: u32, dest: &str) -> (r: Vec<String>)
    ensures
        strs(r@) == clone_args_of(url@, depth as nat, dest@),
{
    let mut r: Vec<String> = Vec::new();
    r.push(String::from_str("clone"));
    if depth > 0 {
        r.push(String::from_str("--depth"));
        let mut d = String::new();
        push_decimal(&mut d, depth as u64);
        r.push(d);
    }
    r.push(String::from_str(url));
    r.push(String::from_str(dest));
    assert(strs(r@) =~= clone_args_of(url@, depth as nat, dest@));
    r
}

/// The error of a path that an action's input names outside the
/// workspace.
pub fn unsafe_path(action: &str, cause: &Error) -> (e: Error)
    ensures
        e@ == (SpecError::Action { action: action@, message: "unsafe path: "@ + error_text(cause@) }),
{
    let mut m = String::from_str("unsafe path: ");
    let t = cause.to_string();
    push_str(&mut m, t.as_str());
    Error::Action { action: String::from_str(action), message: m }
}

/// What the upload emulation works with.
pub struct UploadPlan {
    /// The artifact's name (`artifact` by default).
    pub name: String,
    /// The path patterns: the non-empty lines of the path input, trimmed.
    pub patterns: Vec<String>,
    /// What to do when no file matches: `error` fails, `warn` (the
    /// default) warns, anything else ignores it.
    pub if_no_files: String,
}

/// An input, or a default when it is missing.
pub open spec fn input_or(inputs: Map<Seq<char>, Seq<char>>, name: Seq<char>, d: Seq<char>) -> Seq<char> {
    match present(inputs, name) {
        Some(v) => v,
        None => d,
    }
}

/// Reads the inputs of an upload; refused without a path input.
pub fn upload_plan(inputs: &StrMap) -> (r: Result<UploadPlan, Error>)
    ensures
        input_or_empty(inputs@, "INPUT_PATH"@).len() == 0 ==> (r matches Err(e) && e@
            == SpecError::Action {
            action: "actions/upload-artifact"@,
            message: "path input is required"@,
        }),
        input_or_empty(inputs@, "INPUT_PATH"@).len() > 0 ==> (r matches Ok(p) && p.name@ == input_or(
            inputs@,
            "INPUT_NAME"@,
            "artifact"@,
        ) && strs(p.patterns@) == trimmed_lines_from(
            lines_of(input_or_empty(inputs@, "INPUT_PATH"@)),
            0,
        ) && p.if_no_files@ == match present(inputs@, "INPUT_IF-NO-FILES-FOUND"@) {
            Some(v) => v,
            None => input_or(inputs@, "INPUT_IF_NO_FILES_FOUND"@, "warn"@),
        }),
{
    let path = match get_input(inputs, "INPUT_PATH") {
        Some(v) => v,
        None => String::new(),
    };
    if is_empty_text(&path) {
        return Err(
            Error::Action {
                action: String::from_str("actions/upload-artifact"),
                message: String::from_str("path input is required"),
            },
        );
    }
    let name = match get_input(inputs, "INPUT_NAME") {
        Some(v) => v,
        None => String::from_str("artifact"),
    };
    let if_no_files = match get_input(inputs, "INPUT_IF-NO-FILES-FOUND") {
        Some(v) => v,
        None => match get_input(inputs, "INPUT_IF_NO_FILES_FOUND") {
            Some(v) => v,
            None => String::from_str("warn"),
        },
    };
    let patterns = trimmed_lines(path.as_str());
    Ok(UploadPlan { name, patterns, if_no_files })
}

/// Judges an upload once the files are copied: with no file and
/// `if-no-files-found: error` it fails; otherwise its output
/// `artifact-id` is the artifact's name.
pub fn upload_result(plan: &UploadPlan, file_count: u64) -> (r: Result<StrMap, Error>)
    ensures
        file_count == 0 && plan.if_no_files@ == "error"@ ==> (r matches Err(e) && e@
            == SpecError::Action {
            action: "actions/upload-artifact"@,
            message: "no files found to upload"@,
        }),
        !(file_count == 0 && plan.if_no_files@ == "error"@) ==> (r matches Ok(m) && m@
            == Map::<Seq<char>, Seq<char>>::empty().insert("artifact-id"@, plan.name@)),
{
    if file_count == 0 && str_eq(plan.if_no_files.as_str(), "error") {
        return Err(
            Error::Action {
                action: String::from_str("actions/upload-artifact"),
                message: String::from_str("no files found to upload"),
            },
        );
    }
    let mut m = StrMap::new();
    m.insert(String::from_str("artifact-id"), plan.name.clone());
    Ok(m)
}

/// What the download emulation works with: the artifact's name
/// (`artifact` by default) and the destination path (`.` by default).
pub struct DownloadPlan {
    pub name: String,
    pub path: String,
}

/// Reads the inputs of a download.
pub fn download_plan(inputs: &StrMap) -> (r: DownloadPlan)
    ensures
        r.name@ == input_or(inputs@, "INPUT_NAME"@, "artifact"@),
        r.path@ == input_or(inputs@, "INPUT_PATH"@, "."@),
{
    let name = match get_input(inputs, "INPUT_NAME") {
        Some(v) => v,
        None => String::from_str("artifact"),
    };
    let path = match get_input(inputs, "INPUT_PATH") {
        Some(v) => v,
        None => String::from_str("."),
    };
    DownloadPlan { name, path }
}

/// The error of a download whose artifact was never uploaded.
pub fn artifact_missing(name: &str) -> (e: Error)
    ensures
        e@ == (SpecError::Action {
            action: "actions/download-artifact"@,
            message: "artifact '"@ + name@ + "' not found"@,
        }),
{
    let mut m = String::from_str("artifact '");
    push_str(&mut m, name);
    push_str(&mut m, "' not found");
    Error::Action { action: String::from_str("actions/download-artifact"), message: m }
}

} // verus!
