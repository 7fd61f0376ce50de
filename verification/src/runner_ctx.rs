//! The `runner` context of the expression language.
use crate::paths::{joined, parent_of, path_join, path_parent};
use crate::strmap::{StrMap, fold_insert, pairs_view};
use crate::text::{to_uppercase, uppercase_of, str_eq};
use vstd::prelude::*;

verus! {

/// The `runner.arch` label of an architecture name (as Rust names them):
/// `X64`, `ARM64`, `ARM`, or the name in upper case.
pub open spec fn runner_arch(arch: Seq<char>) -> Seq<char> {
    if arch == "x86_64"@ {
        "X64"@
    } else if arch == "aarch64"@ {
        "ARM64"@
    } else if arch == "arm"@ {
        "ARM"@
    } else {
        uppercase_of(arch)
    }
}

/// The `runner.arch` label of the architecture the runner was built for
/// (`runner_arch`).
pub fn detect_arch(arch: &str) -> (r: String)
    ensures
        r@ == runner_arch(arch@),
{
    if str_eq(arch, "x86_64") {
        String::from_str("X64")
    } else if str_eq(arch, "aarch64") {
        String::from_str("ARM64")
    } else if str_eq(arch, "arm") {
        String::from_str("ARM")
    } else {
        to_uppercase(arch)
    }
}

/// The `runner` context entries for a temporary directory, in the order in
/// which they are set; the tool cache sits beside the temporary directory.
pub open spec fn runner_entries(temp: Seq<char>, arch: Seq<char>) -> Seq<(Seq<char>, Seq<char>)> {
    seq![
        ("os"@, "Linux"@),
        ("arch"@, runner_arch(arch)),
        ("name"@, "gha-runner-local"@),
        ("temp"@, temp),
        ("tool_cache"@, joined(
            match parent_of(temp) {
                Some(p) => p,
                None => temp,
            },
            "tool_cache"@,
        )),
        ("environment"@, "self-hosted"@),
    ]
}

/// Builds the `runner` context (`runner_entries`) for the runner's
/// temporary directory and the architecture it was built for.
pub fn build_runner_context(temp: &str, arch: &str) -> (m: StrMap)
    ensures
        m@ == fold_insert(Map::empty(), runner_entries(temp@, arch@)),
{
    let parent = match path_parent(temp) {
        Some(p) => p,
        None => String::from_str(temp),
    };
    let mut v: Vec<(String, String)> = Vec::new();
    v.push((String::from_str("os"), String::from_str("Linux")));
    v.push((String::from_str("arch"), detect_arch(arch)));
    v.push((String::from_str("name"), String::from_str("gha-runner-local")));
    v.push((String::from_str("temp"), String::from_str(temp)));
    v.push((String::from_str("tool_cache"), path_join(parent.as_str(), "tool_cache")));
    v.push((String::from_str("environment"), String::from_str("self-hosted")));
    assert(pairs_view(v@) =~= runner_entries(temp@, arch@));
    StrMap::from_pairs(&v)
}

} // verus!
