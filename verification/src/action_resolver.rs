//! Resolving the `uses:` reference of a step to the directory of the action
//! it names: a local `./path` inside the workspace, or `owner/repo@version`
//! (with an optional subpath) inside the actions cache.
use crate::error::{Error, SpecError};
use crate::paths::{canon_view, canonical_answer, exists_answer, canonicalize, joined, path_exists, path_join, path_starts_with, starts_with_path};
use crate::text::{
    chars_of, find_char, find_char_from, has_prefix, lemma_find_char_from, push_str,
    replace_char, replace_char_of, split_char, split_on, starts_with_str, str_eq, string_of_range,
};
use vstd::prelude::*;

verus! {

/// A resolved action reference.
pub enum ActionRef {
    /// A local action, by its resolved directory.
    Local(String),
    /// A remote action `owner/repo@version`, by its directory in the cache.
    Remote { dir: String, owner_repo: String, version: String },
}

/// What resolving a reference leads to: the action, or a clone into the
/// cache that must happen first.
pub enum ActionRequest {
    Resolved(ActionRef),
    /// `owner_repo` at `version` must be cloned into `cache_dir`; the action
    /// then lies in `action_dir`.
    Clone { owner_repo: String, version: String, cache_dir: String, action_dir: String },
}

/// The error of an action reference.
pub open spec fn action_error(action: Seq<char>, message: Seq<char>) -> SpecError {
    SpecError::Action { action, message }
}

fn make_action_error(action: &str, message: String) -> (e: Error)
    ensures
        e@ == action_error(action@, message@),
{
    Error::Action { action: String::from_str(action), message }
}

/// A path component that cannot lead out of the cache: not empty, not `.`
/// or `..`, without a backslash.
pub open spec fn valid_component(c: Seq<char>) -> bool {
    c.len() > 0 && c != "."@ && c != ".."@ && !c.contains('\\')
}

/// The message of an invalid path component.
pub open spec fn component_message(c: Seq<char>) -> Seq<char> {
    "invalid path component in action reference: '"@ + c + "'"@
}

/// Refuses a path component that could lead out of the cache
/// (`valid_component`).
pub fn validate_path_component(component: &str, action: &str) -> (r: Result<(), Error>)
    ensures
        valid_component(component@) ==> r is Ok,
        !valid_component(component@) ==> (r matches Err(e) && e@ == action_error(
            action@,
            component_message(component@),
        )),
{
    let cs = chars_of(component);
    let has_backslash = find_char(cs.as_slice(), '\\', 0).is_some();
    proof {
        lemma_find_char_from(cs@, '\\', 0);
        if component@.contains('\\') {
            let j = choose|j: int| 0 <= j < component@.len() && component@[j] == '\\';
            assert(cs@[j] == '\\');
        }
        if has_backslash {
            let k = find_char_from(cs@, '\\', 0)->0;
            assert(component@[k] == '\\');
        }
    }
    if cs.len() == 0 || str_eq(component, ".") || str_eq(component, "..") || has_backslash {
        let mut m = String::from_str("invalid path component in action reference: '");
        push_str(&mut m, component);
        push_str(&mut m, "'");
        assert(m@ =~= component_message(component@));
        return Err(make_action_error(action, m));
    }
    Ok(())
}

/// `owner/repo[/subpath]` and the version of a reference: split at the
/// first `@`; `None` without one.
pub open spec fn action_ref_parts(uses: Seq<char>) -> Option<(Seq<char>, Seq<char>)> {
    match find_char_from(uses, '@', 0) {
        Some(k) => Some((uses.take(k), uses.skip(k + 1))),
        None => None,
    }
}

/// The message of a reference without a version.
pub open spec fn missing_version_message() -> Seq<char> {
    "invalid action reference: missing @version"@
}

/// Splits a reference at its first `@` (`action_ref_parts`).
pub fn parse_action_ref(uses: &str) -> (r: Result<(String, String), Error>)
    ensures
        match action_ref_parts(uses@) {
            Some((p, v)) => r matches Ok((a, b)) && a@ == p && b@ == v,
            None => r matches Err(e) && e@ == action_error(uses@, missing_version_message()),
        },
{
    let cs = chars_of(uses);
    let n = cs.len();
    match find_char(cs.as_slice(), '@', 0) {
        Some(k) => {
            proof {
                lemma_find_char_from(cs@, '@', 0);
            }
            Ok((string_of_range(cs.as_slice(), 0, k), string_of_range(cs.as_slice(), k + 1, n)))
        },
        None => Err(
            make_action_error(uses, String::from_str("invalid action reference: missing @version")),
        ),
    }
}

/// `owner/repo` and the subpath of `owner/repo[/subpath]`: the subpath is
/// what follows the second `/`, if there is one.
pub open spec fn subpath_parts(repo_path: Seq<char>) -> (Seq<char>, Option<Seq<char>>) {
    match find_char_from(repo_path, '/', 0) {
        Some(k1) => match find_char_from(repo_path, '/', k1 + 1) {
            Some(k2) => (repo_path.take(k2), Some(repo_path.skip(k2 + 1))),
            None => (repo_path, None),
        },
        None => (repo_path, None),
    }
}

/// Splits `owner/repo/subpath` into `owner/repo` and the subpath
/// (`subpath_parts`).
pub fn split_subpath(repo_path: &str) -> (r: (String, Option<String>))
    ensures
        r.0@ == subpath_parts(repo_path@).0,
        match subpath_parts(repo_path@).1 {
            Some(s) => r.1 matches Some(t) && t@ == s,
            None => r.1 is None,
        },
{
    let cs = chars_of(repo_path);
    let n = cs.len();
    match find_char(cs.as_slice(), '/', 0) {
        Some(k1) => {
            proof {
                lemma_find_char_from(cs@, '/', 0);
            }
            match find_char(cs.as_slice(), '/', k1 + 1) {
                Some(k2) => {
                    proof {
                        lemma_find_char_from(cs@, '/', k1 + 1);
                    }
                    return (
                        string_of_range(cs.as_slice(), 0, k2),
                        Some(string_of_range(cs.as_slice(), k2 + 1, n)),
                    );
                },
                None => {},
            }
        },
        None => {},
    }
    assert(cs@.subrange(0, n as int) =~= cs@);
    (string_of_range(cs.as_slice(), 0, n), None)
}

/// The first invalid component among `segs`, if any.
pub open spec fn first_invalid(segs: Seq<Seq<char>>) -> Option<Seq<char>>
    decreases segs.len(),
{
    if segs.len() == 0 {
        None
    } else if !valid_component(segs[0]) {
        Some(segs[0])
    } else {
        first_invalid(segs.drop_first())
    }
}

/// What a remote reference names: `owner/repo`, the version and the
/// subpath; or the error that refuses it (no `@`, or an invalid version or
/// subpath component).
pub open spec fn remote_parts(uses: Seq<char>) -> Result<
    (Seq<char>, Seq<char>, Option<Seq<char>>),
    SpecError,
> {
    match action_ref_parts(uses) {
        None => Err(action_error(uses, missing_version_message())),
        Some((repo_path, version)) => {
            let (owner_repo, sub) = subpath_parts(repo_path);
            if !valid_component(version) {
                Err(action_error(uses, component_message(version)))
            } else {
                match sub {
                    Some(s) => match first_invalid(split_char(s, '/')) {
                        Some(c) => Err(action_error(uses, component_message(c))),
                        None => Ok((owner_repo, version, sub)),
                    },
                    None => Ok((owner_repo, version, sub)),
                }
            }
        },
    }
}

/// The cache directory of `owner/repo` at a version.
pub open spec fn cache_dir_of(cache: Seq<char>, owner_repo: Seq<char>, version: Seq<char>) -> Seq<
    char,
> {
    joined(joined(cache, replace_char_of(owner_repo, '/', '_')), version)
}

/// The action directory: the cache directory, or the subpath within it.
pub open spec fn action_dir_of(cache_dir: Seq<char>, sub: Option<Seq<char>>) -> Seq<char> {
    match sub {
        Some(s) => joined(cache_dir, s),
        None => cache_dir,
    }
}

fn prefixed(prefix: &str, rest: &str) -> (s: String)
    ensures
        s@ == prefix@ + rest@,
{
    let mut s = String::from_str(prefix);
    push_str(&mut s, rest);
    s
}

/// What a remote action gives once its cache directory is in place, for
/// the file system's answers: whether the action directory exists, its
/// canonical form `c` and that of the actions cache `k`.  An action
/// directory that exists must resolve inside the resolved cache.
pub open spec fn remote_outcome(
    uses: Seq<char>,
    dir_exists: bool,
    c: Result<Seq<char>, Seq<char>>,
    k: Result<Seq<char>, Seq<char>>,
) -> Result<(), SpecError> {
    if !dir_exists {
        Ok(())
    } else {
        match c {
            Err(m) => Err(action_error(uses, "cannot resolve action dir: "@ + m)),
            Ok(cd) => match k {
                Err(m) => Err(action_error(uses, "cannot resolve actions cache: "@ + m)),
                Ok(kd) => if path_starts_with(cd, kd) {
                    Ok(())
                } else {
                    Err(action_error(uses, "action path escapes the actions cache directory"@))
                },
            },
        }
    }
}

/// Whether `r` is what `remote_outcome` gives: the remote action at
/// `action_dir`, or the error.
pub open spec fn remote_result(
    r: Result<ActionRef, Error>,
    o: Result<(), SpecError>,
    action_dir: Seq<char>,
    owner_repo: Seq<char>,
    version: Seq<char>,
) -> bool {
    match o {
        Ok(_) => r matches Ok(ActionRef::Remote { dir, owner_repo: or, version: v }) && dir@
            == action_dir && or@ == owner_repo && v@ == version,
        Err(e) => r matches Err(x) && x@ == e,
    }
}

/// Decides a remote action from the file system's answers
/// (`remote_outcome`).
pub fn remote_decision(
    uses: &str,
    owner_repo: String,
    version: String,
    action_dir: String,
    dir_exists: bool,
    canonical: Result<String, String>,
    cache_canonical: Result<String, String>,
) -> (r: Result<ActionRef, Error>)
    ensures
        remote_result(
            r,
            remote_outcome(uses@, dir_exists, canon_view(canonical), canon_view(cache_canonical)),
            action_dir@,
            owner_repo@,
            version@,
        ),
{
    if dir_exists {
        let cd = match canonical {
            Ok(c) => c,
            Err(e) => {
                return Err(
                    make_action_error(uses, prefixed("cannot resolve action dir: ", e.as_str())),
                );
            },
        };
        let kd = match cache_canonical {
            Ok(c) => c,
            Err(e) => {
                return Err(
                    make_action_error(uses, prefixed("cannot resolve actions cache: ", e.as_str())),
                );
            },
        };
        if !starts_with_path(cd.as_str(), kd.as_str()) {
            return Err(
                make_action_error(
                    uses,
                    String::from_str("action path escapes the actions cache directory"),
                ),
            );
        }
    }
    Ok(ActionRef::Remote { dir: action_dir, owner_repo, version })
}

/// Whether the answers were given about the paths a remote action asks
/// about: `d` by `Path::exists` about the action directory and, when it
/// exists, `c` and `k` by `Path::canonicalize` about it and about the
/// actions cache.
pub open spec fn remote_asked(
    actions_cache: Seq<char>,
    action_dir: Seq<char>,
    d: bool,
    c: Result<Seq<char>, Seq<char>>,
    k: Result<Seq<char>, Seq<char>>,
) -> bool {
    exists_answer(action_dir, d) && (d ==> canonical_answer(action_dir, c) && canonical_answer(
        actions_cache,
        k,
    ))
}

/// Whether `r` is what `remote_outcome` gives for answers the file system
/// gave about the paths asked about (`remote_asked`).
pub open spec fn remote_to(
    r: Result<ActionRef, Error>,
    uses: Seq<char>,
    actions_cache: Seq<char>,
    action_dir: Seq<char>,
    owner_repo: Seq<char>,
    version: Seq<char>,
) -> bool {
    exists|d: bool, c: Result<Seq<char>, Seq<char>>, k: Result<Seq<char>, Seq<char>>|
        remote_asked(actions_cache, action_dir, d, c, k) && remote_result(
            r,
            #[trigger] remote_outcome(uses, d, c, k),
            action_dir,
            owner_repo,
            version,
        )
}

/// The remote action once its cache directory is in place: asks the file
/// system whether the action directory exists and, if so, for the
/// canonical forms of it and of the actions cache, and decides by
/// `remote_outcome`.
pub fn check_remote_action(
    uses: &str,
    actions_cache: &str,
    owner_repo: String,
    version: String,
    action_dir: String,
) -> (r: Result<ActionRef, Error>)
    ensures
        remote_to(r, uses@, actions_cache@, action_dir@, owner_repo@, version@),
{
    let ghost (ad, o, v) = (action_dir@, owner_repo@, version@);
    let dir_exists = path_exists(action_dir.as_str());
    let (canonical, cache_canonical) = if dir_exists {
        (canonicalize(action_dir.as_str()), canonicalize(actions_cache))
    } else {
        (Err(String::new()), Err(String::new()))
    };
    let ghost (c, k) = (canon_view(canonical), canon_view(cache_canonical));
    let r = remote_decision(uses, owner_repo, version, action_dir, dir_exists, canonical, cache_canonical);
    assert(remote_result(r, remote_outcome(uses@, dir_exists, c, k), ad, o, v));
    assert(remote_asked(actions_cache@, ad, dir_exists, c, k));
    r
}

/// What a local action gives, for the file system's answers: the
/// canonical form `c` of the action path and `w` of the workspace.  The
/// action's canonical directory must lie inside the canonical workspace.
pub open spec fn local_outcome(
    uses: Seq<char>,
    action_path: Seq<char>,
    c: Result<Seq<char>, Seq<char>>,
    w: Result<Seq<char>, Seq<char>>,
) -> Result<Seq<char>, SpecError> {
    match c {
        Err(_) => Err(action_error(uses, "local action not found: "@ + action_path)),
        Ok(cd) => match w {
            Err(m) => Err(action_error(uses, "cannot resolve workspace: "@ + m)),
            Ok(wd) => if path_starts_with(cd, wd) {
                Ok(cd)
            } else {
                Err(action_error(uses, "local action '"@ + uses + "' resolves outside the workspace"@))
            },
        },
    }
}

/// Whether `r` is what `local_outcome` gives: the local action at that
/// directory, or the error.
pub open spec fn local_result(r: Result<ActionRequest, Error>, o: Result<Seq<char>, SpecError>) -> bool {
    match o {
        Ok(p) => r matches Ok(ActionRequest::Resolved(ActionRef::Local(q))) && q@ == p,
        Err(e) => r matches Err(x) && x@ == e,
    }
}

/// Decides a local action from the file system's answers
/// (`local_outcome`).
pub fn local_decision(
    uses: &str,
    action_path: &str,
    canonical: Result<String, String>,
    ws_canonical: Result<String, String>,
) -> (r: Result<ActionRequest, Error>)
    ensures
        local_result(r, local_outcome(uses@, action_path@, canon_view(canonical), canon_view(ws_canonical))),
{
    let cd = match canonical {
        Ok(c) => c,
        Err(_) => {
            return Err(make_action_error(uses, prefixed("local action not found: ", action_path)));
        },
    };
    let wd = match ws_canonical {
        Ok(c) => c,
        Err(e) => {
            return Err(make_action_error(uses, prefixed("cannot resolve workspace: ", e.as_str())));
        },
    };
    if !starts_with_path(cd.as_str(), wd.as_str()) {
        let mut m = String::from_str("local action '");
        push_str(&mut m, uses);
        push_str(&mut m, "' resolves outside the workspace");
        return Err(make_action_error(uses, m));
    }
    Ok(ActionRequest::Resolved(ActionRef::Local(cd)))
}

/// Whether `r` is what `local_outcome` gives for the local action `uses`
/// in `workspace`, for the answers `Path::canonicalize` gave about the
/// workspace joined with `uses` and about the workspace.
pub open spec fn local_to(r: Result<ActionRequest, Error>, uses: Seq<char>, workspace: Seq<char>) -> bool {
    exists|c: Result<Seq<char>, Seq<char>>, w: Result<Seq<char>, Seq<char>>|
        canonical_answer(joined(workspace, uses), c) && canonical_answer(workspace, w) && local_result(
            r,
            #[trigger] local_outcome(uses, joined(workspace, uses), c, w),
        )
}

/// Whether `r` is the request for a remote action whose cache directory
/// exists (`cache_exists`) or not: a clone when it does not, otherwise the
/// action or error that `o` (`remote_outcome`) gives.
pub open spec fn request_holds(
    r: Result<ActionRequest, Error>,
    cache_exists: bool,
    o: Result<(), SpecError>,
    cache_dir: Seq<char>,
    action_dir: Seq<char>,
    owner_repo: Seq<char>,
    version: Seq<char>,
) -> bool {
    if !cache_exists {
        r matches Ok(ActionRequest::Clone { owner_repo: or, version: v, cache_dir: cd, action_dir: ad })
            && or@ == owner_repo && v@ == version && cd@ == cache_dir && ad@ == action_dir
    } else {
        match o {
            Ok(_) => r matches Ok(ActionRequest::Resolved(ActionRef::Remote { dir, owner_repo: or, version: v }))
                && dir@ == action_dir && or@ == owner_repo && v@ == version,
            Err(e) => r matches Err(x) && x@ == e,
        }
    }
}

/// Whether `r` is the request for a remote action, for answers the file
/// system gave: `ce` by `Path::exists` about the cache directory, then
/// (when it exists) those of `remote_asked`.
pub open spec fn remote_request_to(
    r: Result<ActionRequest, Error>,
    uses: Seq<char>,
    actions_cache: Seq<char>,
    cache_dir: Seq<char>,
    action_dir: Seq<char>,
    owner_repo: Seq<char>,
    version: Seq<char>,
) -> bool {
    exists|ce: bool, d: bool, c: Result<Seq<char>, Seq<char>>, k: Result<Seq<char>, Seq<char>>|
        exists_answer(cache_dir, ce) && (ce ==> remote_asked(actions_cache, action_dir, d, c, k))
            && #[trigger] request_holds(
            r,
            ce,
            remote_outcome(uses, d, c, k),
            cache_dir,
            action_dir,
            owner_repo,
            version,
        )
}

/// Resolves a local `./path` action inside the workspace: asks the file
/// system for the canonical forms of the workspace joined with the path
/// and of the workspace, and decides by `local_outcome`.
fn resolve_local(uses: &str, workspace: &str) -> (r: Result<ActionRequest, Error>)
    ensures
        local_to(r, uses@, workspace@),
{
    let action_path = path_join(workspace, uses);
    let canonical = canonicalize(action_path.as_str());
    let ws_canonical = canonicalize(workspace);
    let ghost (c, w) = (canon_view(canonical), canon_view(ws_canonical));
    let r = local_decision(uses, action_path.as_str(), canonical, ws_canonical);
    assert(local_result(r, local_outcome(uses@, joined(workspace@, uses@), c, w)));
    assert(canonical_answer(joined(workspace@, uses@), c) && canonical_answer(workspace@, w));
    r
}

/// Validates each `/`-separated segment of a subpath, in order.
fn validate_segments(segs: &Vec<String>, uses: &str) -> (r: Result<(), Error>)
    ensures
        match first_invalid(segs@.map_values(|x: String| x@)) {
            Some(c) => r matches Err(e) && e@ == action_error(uses@, component_message(c)),
            None => r is Ok,
        },
{
    let ghost all = segs@.map_values(|x: String| x@);
    assert(all.skip(0) =~= all);
    let mut i: usize = 0;
    while i < segs.len()
        invariant
            i <= segs@.len(),
            all == segs@.map_values(|x: String| x@),
            first_invalid(all) == first_invalid(all.skip(i as int)),
        decreases segs@.len() - i,
    {
        let r = validate_path_component(segs[i].as_str(), uses);
        proof {
            assert(all.skip(i as int)[0] == segs@[i as int]@);
            assert(all.skip(i as int).drop_first() =~= all.skip(i + 1));
        }
        if r.is_err() {
            return r;
        }
        i += 1;
    }
    proof {
        assert(all.skip(i as int).len() == 0);
    }
    Ok(())
}

/// The messages of a reference refused before any file system work.
pub open spec fn prefix_refusal(uses: Seq<char>) -> Option<Seq<char>> {
    if has_prefix(uses, "../"@) {
        Some("relative parent paths (../) are not allowed for security reasons; use ./ instead"@)
    } else if has_prefix(uses, "./"@) {
        None
    } else if has_prefix(uses, "docker://"@) {
        Some("docker:// actions not yet supported in emulator mode"@)
    } else {
        None
    }
}

/// Resolves a `uses:` reference.  `../` and `docker://` references are
/// refused; a `./path` is resolved inside the workspace and must stay
/// there; any other reference is `owner/repo[/subpath]@version`, refused
/// when `remote_parts` refuses it, and otherwise found in the actions cache
/// at `cache_dir_of`: a clone is asked for when that directory does not
/// exist yet, and an existing action directory must resolve inside the
/// cache.
pub fn resolve_action(uses: &str, workspace: &str, actions_cache: &str) -> (r: Result<
    ActionRequest,
    Error,
>)
    ensures
        prefix_refusal(uses@) matches Some(m) ==> (r matches Err(e) && e@ == action_error(uses@, m)),
        prefix_refusal(uses@) is None && has_prefix(uses@, "./"@) ==> local_to(r, uses@, workspace@),
        prefix_refusal(uses@) is None && !has_prefix(uses@, "./"@) ==> match remote_parts(uses@) {
            Err(e) => r matches Err(err) && err@ == e,
            Ok((owner_repo, version, sub)) => remote_request_to(
                r,
                uses@,
                actions_cache@,
                cache_dir_of(actions_cache@, owner_repo, version),
                action_dir_of(cache_dir_of(actions_cache@, owner_repo, version), sub),
                owner_repo,
                version,
            ),
        },
{
    proof {
        reveal_strlit("../");
        reveal_strlit("./");
        reveal_strlit("docker://");
    }
    if starts_with_str(uses, "../") {
        return Err(
            make_action_error(
                uses,
                String::from_str(
                    "relative parent paths (../) are not allowed for security reasons; use ./ instead",
                ),
            ),
        );
    }
    if starts_with_str(uses, "./") {
        return resolve_local(uses, workspace);
    }
    if starts_with_str(uses, "docker://") {
        return Err(
            make_action_error(
                uses,
                String::from_str("docker:// actions not yet supported in emulator mode"),
            ),
        );
    }
    let (repo_path, version) = match parse_action_ref(uses) {
        Ok(p) => p,
        Err(e) => {
            return Err(e);
        },
    };
    let (owner_repo, subpath) = split_subpath(repo_path.as_str());
    match validate_path_component(version.as_str(), uses) {
        Ok(()) => {},
        Err(e) => {
            return Err(e);
        },
    }
    match &subpath {
        Some(sub) => {
            let segs = split_on(sub.as_str(), '/');
            match validate_segments(&segs, uses) {
                Ok(()) => {},
                Err(e) => {
                    return Err(e);
                },
            }
        },
        None => {},
    }
    let flat = replace_char(owner_repo.as_str(), '/', '_');
    let repo_dir = path_join(actions_cache, flat.as_str());
    let cache_dir = path_join(repo_dir.as_str(), version.as_str());
    let action_dir = match &subpath {
        Some(sub) => path_join(cache_dir.as_str(), sub.as_str()),
        None => crate::text::copy_string(&cache_dir),
    };
    let ghost (cdv, adv, ov, vv) = (cache_dir@, action_dir@, owner_repo@, version@);
    let cache_exists = path_exists(cache_dir.as_str());
    if !cache_exists {
        let r = Ok(ActionRequest::Clone { owner_repo, version, cache_dir, action_dir });
        let ghost none: Result<Seq<char>, Seq<char>> = Err(Seq::empty());
        assert(request_holds(r, false, remote_outcome(uses@, false, none, none), cdv, adv, ov, vv));
        return r;
    }
    let checked = check_remote_action(uses, actions_cache, owner_repo, version, action_dir);
    let ghost (d, c, k) = choose|d: bool, c: Result<Seq<char>, Seq<char>>, k: Result<Seq<char>, Seq<char>>|
        remote_asked(actions_cache@, adv, d, c, k) && remote_result(
            checked,
            #[trigger] remote_outcome(uses@, d, c, k),
            adv,
            ov,
            vv,
        );
    let r = match checked {
        Ok(a) => Ok(ActionRequest::Resolved(a)),
        Err(e) => Err(e),
    };
    assert(request_holds(r, true, remote_outcome(uses@, d, c, k), cdv, adv, ov, vv));
    r
}

/// The URL an action's repository is cloned from.
pub fn action_clone_url(owner_repo: &str) -> (r: String)
    ensures
        r@ == "https://github.com/"@ + owner_repo@ + ".git"@,
{
    let mut r = String::from_str("https://github.com/");
    push_str(&mut r, owner_repo);
    push_str(&mut r, ".git");
    r
}

/// The error of an action whose clone failed (`git clone failed`, with
/// the cause when the command could not run).
pub fn clone_failed(owner_repo: &str, cause: Option<&str>) -> (e: Error)
    ensures
        e@ == (SpecError::Action {
            action: owner_repo@,
            message: match cause {
                Some(c) => "git clone failed: "@ + c@,
                None => "git clone failed"@,
            },
        }),
{
    let m = match cause {
        Some(c) => {
            let mut m = String::from_str("git clone failed: ");
            push_str(&mut m, c);
            m
        },
        None => String::from_str("git clone failed"),
    };
    Error::Action { action: String::from_str(owner_repo), message: m }
}

/// The error of an action whose version could not be checked out (the
/// cause when the command could not run).
pub fn checkout_failed(owner_repo: &str, version: &str, cause: Option<&str>) -> (e: Error)
    ensures
        e@ == (SpecError::Action {
            action: owner_repo@,
            message: match cause {
                Some(c) => "git checkout "@ + version@ + " failed: "@ + c@,
                None => "version '"@ + version@ + "' not found in "@ + owner_repo@,
            },
        }),
{
    let m = match cause {
        Some(c) => {
            let mut m = String::from_str("git checkout ");
            push_str(&mut m, version);
            push_str(&mut m, " failed: ");
            push_str(&mut m, c);
            m
        },
        None => {
            let mut m = String::from_str("version '");
            push_str(&mut m, version);
            push_str(&mut m, "' not found in ");
            push_str(&mut m, owner_repo);
            m
        },
    };
    Error::Action { action: String::from_str(owner_repo), message: m }
}

/// What an action's `action.yml` declares.
pub struct ActionYml {
    pub name: Option<String>,
    pub description: Option<String>,
    /// The inputs by name, in the order written.
    pub inputs: Option<Vec<(String, ActionInput)>>,
    pub runs: ActionRuns,
}

/// An input of an action.
pub struct ActionInput {
    pub description: Option<String>,
    pub required: Option<bool>,
    pub default: Option<String>,
}

/// How an action runs: `composite` steps, a Node.js entry point, or a
/// container image.
pub struct ActionRuns {
    pub using: String,
    pub steps: Option<Vec<CompositeStep>>,
    pub main: Option<String>,
    pub pre: Option<String>,
    pub post: Option<String>,
    pub image: Option<String>,
    pub entrypoint: Option<String>,
    pub args: Option<Vec<String>>,
}

/// A step of a composite action.
pub struct CompositeStep {
    pub name: Option<String>,
    pub run: Option<String>,
    pub uses: Option<String>,
    pub shell: Option<String>,
    pub working_directory: Option<String>,
    pub env: Option<crate::strmap::StrMap>,
    pub condition: Option<String>,
    pub with: Option<crate::strmap::StrMap>,
    pub id: Option<String>,
}

} // verus!
