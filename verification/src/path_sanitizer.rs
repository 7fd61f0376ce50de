//! Resolving a user-provided path inside a jail directory: `..` and
//! absolute paths are refused, and what the file system resolves a path to
//! (symbolic links included) must stay under the jail.
use crate::error::{Error, SpecError};
use crate::paths::{
    absolute, canon_view, canonical_answer, exists_answer, canonicalize, components, components_of, path_exists, is_absolute, joined, path_join,
    path_starts_with, starts_with_path, texts,
};
use crate::text::{copy_string, push_str, str_eq};
use vstd::prelude::*;

verus! {

/// Whether a path has a `..` component.
pub open spec fn has_parent_component(p: Seq<char>) -> bool {
    exists|i: int| 0 <= i < components_of(p).len() && components_of(p)[i] == ".."@
}

/// Whether a list of component texts holds `..`.
fn has_parent(cs: &Vec<String>) -> (b: bool)
    ensures
        b == exists|i: int| 0 <= i < cs@.len() && cs@[i]@ == ".."@,
{
    let mut i: usize = 0;
    while i < cs.len()
        invariant
            i <= cs@.len(),
            forall|j: int| 0 <= j < i ==> cs@[j]@ != ".."@,
        decreases cs@.len() - i,
    {
        if str_eq(cs[i].as_str(), "..") {
            return true;
        }
        i += 1;
    }
    false
}

/// The message of a path that resolves outside its jail.
pub open spec fn outside_text(user_path: Seq<char>, base: Seq<char>) -> Seq<char> {
    "'"@ + user_path + "' resolves outside of '"@ + base + "'"@
}

/// The message of a path that the file system could not resolve.
pub open spec fn unresolved_text(what: Seq<char>, p: Seq<char>, err: Seq<char>) -> Seq<char> {
    what + "'"@ + p + "': "@ + err
}

fn quoted_error(what: &str, p: &str, err: &str) -> (e: Error)
    ensures
        e@ == SpecError::PathTraversal(unresolved_text(what@, p@, err@)),
{
    let mut m = String::new();
    push_str(&mut m, what);
    push_str(&mut m, "'");
    push_str(&mut m, p);
    push_str(&mut m, "': ");
    push_str(&mut m, err);
    assert(m@ =~= unresolved_text(what@, p@, err@));
    Error::PathTraversal(m)
}

fn outside_error(user_path: &str, base: &str) -> (e: Error)
    ensures
        e@ == SpecError::PathTraversal(outside_text(user_path@, base@)),
{
    let mut m = String::new();
    push_str(&mut m, "'");
    push_str(&mut m, user_path);
    push_str(&mut m, "' resolves outside of '");
    push_str(&mut m, base);
    push_str(&mut m, "'");
    assert(m@ =~= outside_text(user_path@, base@));
    Error::PathTraversal(m)
}

/// Keeps a resolved path if it lies under the resolved jail, as
/// `Path::starts_with` compares them; refuses it otherwise.
pub fn check_within(resolved: String, jail: &str, user_path: &str, base: &str) -> (r: Result<
    String,
    Error,
>)
    ensures
        path_starts_with(resolved@, jail@) ==> (r matches Ok(p) && p@ == resolved@),
        !path_starts_with(resolved@, jail@) ==> (r matches Err(e) && e@ == SpecError::PathTraversal(
            outside_text(user_path@, base@),
        )),
{
    if starts_with_path(resolved.as_str(), jail) {
        Ok(resolved)
    } else {
        Err(outside_error(user_path, base))
    }
}

/// What the file system answers for a path: nothing is there, or
/// something is and this is its canonical form, or something is and
/// canonicalizing it failed with this message.
pub enum Probe {
    Missing,
    Resolved(String),
    Unresolved(String),
}

/// The mathematical form of a `Probe`.
pub ghost enum SpecProbe {
    Missing,
    Resolved(Seq<char>),
    Unresolved(Seq<char>),
}

impl View for Probe {
    type V = SpecProbe;

    open spec fn view(&self) -> SpecProbe {
        match self {
            Probe::Missing => SpecProbe::Missing,
            Probe::Resolved(c) => SpecProbe::Resolved(c@),
            Probe::Unresolved(m) => SpecProbe::Unresolved(m@),
        }
    }
}

/// A result of a path or an error, by views.
pub open spec fn res_view(r: Result<String, Error>) -> Result<Seq<char>, SpecError> {
    match r {
        Ok(s) => Ok(s@),
        Err(e) => Err(e@),
    }
}

/// Whether `a` is an answer the file system gave about `p`: `Path::exists`
/// answered, and when something was there, `Path::canonicalize` too.
pub open spec fn probe_answer(p: Seq<char>, a: SpecProbe) -> bool {
    match a {
        SpecProbe::Missing => exists_answer(p, false),
        SpecProbe::Resolved(c) => exists_answer(p, true) && canonical_answer(p, Ok(c)),
        SpecProbe::Unresolved(m) => exists_answer(p, true) && canonical_answer(p, Err(m)),
    }
}

/// Asks the file system whether something is at `p` and, if so, for its
/// canonical form (`Path::exists`, then `Path::canonicalize`).
fn probe(p: &str) -> (r: Probe)
    ensures
        probe_answer(p@, r@),
{
    if path_exists(p) {
        match canonicalize(p) {
            Ok(c) => Probe::Resolved(c),
            Err(e) => Probe::Unresolved(e),
        }
    } else {
        Probe::Missing
    }
}

/// The jail of a base, given what the file system answered for it: its
/// canonical form, or the base itself when nothing is there.
pub open spec fn jail_outcome(base: Seq<char>, p: SpecProbe) -> Result<Seq<char>, SpecError> {
    match p {
        SpecProbe::Missing => Ok(base),
        SpecProbe::Resolved(c) => Ok(c),
        SpecProbe::Unresolved(m) => Err(
            SpecError::PathTraversal(unresolved_text("cannot resolve base "@, base, m)),
        ),
    }
}

/// Decides the jail of a base from what the file system answered for it
/// (`jail_outcome`).
pub fn jail_of(base: &str, p: Probe) -> (r: Result<String, Error>)
    ensures
        res_view(r) == jail_outcome(base@, p@),
{
    match p {
        Probe::Missing => Ok(String::from_str(base)),
        Probe::Resolved(c) => Ok(c),
        Probe::Unresolved(m) => Err(quoted_error("cannot resolve base ", base, m.as_str())),
    }
}

/// What a path that exists gives: its canonical form when that lies under
/// the jail.
pub open spec fn found_outcome(p: SpecProbe, jail: Seq<char>, user_path: Seq<char>, base: Seq<char>) -> Result<Seq<char>, SpecError> {
    match p {
        SpecProbe::Resolved(c) => if path_starts_with(c, jail) {
            Ok(c)
        } else {
            Err(SpecError::PathTraversal(outside_text(user_path, base)))
        },
        SpecProbe::Unresolved(m) => Err(
            SpecError::PathTraversal(unresolved_text("cannot resolve "@, user_path, m)),
        ),
        SpecProbe::Missing => Err(SpecError::PathTraversal(user_path)),
    }
}

/// What a prefix met on the walk gives: the prefix itself when nothing is
/// there, otherwise its canonical form, which must lie under the jail.
pub open spec fn prefix_outcome(
    next: Seq<char>,
    p: SpecProbe,
    jail: Seq<char>,
    user_path: Seq<char>,
    base: Seq<char>,
) -> Result<Seq<char>, SpecError> {
    match p {
        SpecProbe::Missing => Ok(next),
        SpecProbe::Resolved(c) => if path_starts_with(c, jail) {
            Ok(c)
        } else {
            Err(SpecError::PathTraversal(outside_text(user_path, base)))
        },
        SpecProbe::Unresolved(m) => Err(
            SpecError::PathTraversal(unresolved_text("cannot resolve "@, next, m)),
        ),
    }
}

/// Decides a step of the walk from what the file system answered for the
/// prefix `next` (`prefix_outcome`).
pub fn prefix_decision(next: String, p: Probe, jail: &str, user_path: &str, base: &str) -> (r: Result<
    String,
    Error,
>)
    ensures
        res_view(r) == prefix_outcome(next@, p@, jail@, user_path@, base@),
{
    match p {
        Probe::Missing => Ok(next),
        Probe::Resolved(c) => check_within(c, jail, user_path, base),
        Probe::Unresolved(m) => Err(quoted_error("cannot resolve ", next.as_str(), m.as_str())),
    }
}

/// The walk over the components of a path that does not exist, from the
/// jail: each component but `.` is joined to where the walk stands, and
/// the answer for that prefix decides the next standing point
/// (`prefix_outcome`).  `ps` holds one answer per component.
pub open spec fn walk_outcome(
    segs: Seq<Seq<char>>,
    ps: Seq<SpecProbe>,
    jail: Seq<char>,
    user_path: Seq<char>,
    base: Seq<char>,
) -> Result<Seq<char>, SpecError>
    decreases ps.len(),
{
    if ps.len() == 0 {
        Ok(jail)
    } else {
        match walk_outcome(segs, ps.drop_last(), jail, user_path, base) {
            Err(e) => Err(e),
            Ok(cur) => {
                let seg = segs[ps.len() - 1];
                if seg == "."@ {
                    Ok(cur)
                } else {
                    prefix_outcome(joined(cur, seg), ps.last(), jail, user_path, base)
                }
            },
        }
    }
}

/// What resolving `user_path` under `base` gives, where `joined_path` is
/// the two joined, for the file system's answers: `bp` for the base, `jp`
/// for the joined path, and `ps` for the prefixes met on the walk.  A `..`
/// component is refused; a joined path that exists gives its canonical
/// form, which must lie under the jail; otherwise every existing prefix on
/// the walk must resolve under the jail, and the joined path is the result.
pub open spec fn resolve_outcome(
    base: Seq<char>,
    joined_path: Seq<char>,
    user_path: Seq<char>,
    bp: SpecProbe,
    jp: SpecProbe,
    ps: Seq<SpecProbe>,
) -> Result<Seq<char>, SpecError> {
    if has_parent_component(user_path) {
        Err(SpecError::PathTraversal(user_path))
    } else {
        match jail_outcome(base, bp) {
            Err(e) => Err(e),
            Ok(jail) => match jp {
                SpecProbe::Missing => match walk_outcome(
                    components_of(user_path),
                    ps,
                    jail,
                    user_path,
                    base,
                ) {
                    Err(e) => Err(e),
                    Ok(_) => Ok(joined_path),
                },
                _ => found_outcome(jp, jail, user_path, base),
            },
        }
    }
}

/// Whether each answer of `ps` on the walk was given about the prefix the
/// walk stood at: the point reached so far joined with the component
/// (`.` asks nothing, and nothing is asked after the walk stops).
pub open spec fn walk_asked(
    segs: Seq<Seq<char>>,
    ps: Seq<SpecProbe>,
    jail: Seq<char>,
    user_path: Seq<char>,
    base: Seq<char>,
) -> bool
    decreases ps.len(),
{
    if ps.len() == 0 {
        true
    } else {
        walk_asked(segs, ps.drop_last(), jail, user_path, base) && match walk_outcome(
            segs,
            ps.drop_last(),
            jail,
            user_path,
            base,
        ) {
            Ok(cur) => segs[ps.len() - 1] == "."@ || probe_answer(
                joined(cur, segs[ps.len() - 1]),
                ps.last(),
            ),
            Err(_) => true,
        }
    }
}

/// Whether the answers were given about the paths `resolve_outcome` asks
/// about: `bp` about the base, then `jp` about the joined path, then `ps`
/// about the prefixes on the walk (nothing is asked for a path with a
/// `..` component, nor after an error).
pub open spec fn resolve_asked(
    base: Seq<char>,
    joined_path: Seq<char>,
    user_path: Seq<char>,
    bp: SpecProbe,
    jp: SpecProbe,
    ps: Seq<SpecProbe>,
) -> bool {
    !has_parent_component(user_path) ==> probe_answer(base, bp) && match jail_outcome(base, bp) {
        Ok(jail) => probe_answer(joined_path, jp) && (jp is Missing ==> walk_asked(
            components_of(user_path),
            ps,
            jail,
            user_path,
            base,
        )),
        Err(_) => true,
    }
}

/// Whether `r` is the result of resolving `user_path` under `base`
/// (`resolve_outcome`) for answers the file system gave about the paths
/// asked about (`resolve_asked`), one per component on the walk.
pub open spec fn resolves_to(
    base: Seq<char>,
    joined_path: Seq<char>,
    user_path: Seq<char>,
    r: Result<Seq<char>, SpecError>,
) -> bool {
    exists|bp: SpecProbe, jp: SpecProbe, ps: Seq<SpecProbe>|
        ps.len() == components_of(user_path).len() && resolve_asked(
            base,
            joined_path,
            user_path,
            bp,
            jp,
            ps,
        ) && #[trigger] resolve_outcome(base, joined_path, user_path, bp, jp, ps) == r
}

proof fn lemma_walk_pad(
    segs: Seq<Seq<char>>,
    ps: Seq<SpecProbe>,
    n: nat,
    jail: Seq<char>,
    user_path: Seq<char>,
    base: Seq<char>,
)
    requires
        walk_outcome(segs, ps, jail, user_path, base) is Err,
        walk_asked(segs, ps, jail, user_path, base),
    ensures
        walk_outcome(segs, ps + Seq::new(n, |i: int| SpecProbe::Missing), jail, user_path, base)
            == walk_outcome(segs, ps, jail, user_path, base),
        walk_asked(segs, ps + Seq::new(n, |i: int| SpecProbe::Missing), jail, user_path, base),
    decreases n,
{
    let pad = Seq::new(n, |i: int| SpecProbe::Missing);
    if n == 0 {
        assert(ps + pad =~= ps);
    } else {
        let shorter = Seq::new((n - 1) as nat, |i: int| SpecProbe::Missing);
        lemma_walk_pad(segs, ps, (n - 1) as nat, jail, user_path, base);
        assert((ps + pad).drop_last() =~= ps + shorter);
    }
}

/// Resolves `joined_path` (the base joined with `user_path`) inside
/// `base`, asking the file system about the paths `resolve_asked` names:
/// the result is `resolve_outcome` of the answers it gave.
fn resolve_under(base: &str, joined_path: String, user_path: &str) -> (r: Result<String, Error>)
    ensures
        resolves_to(base@, joined_path@, user_path@, res_view(r)),
{
    let parts = components(user_path);
    let found = has_parent(&parts);
    let ghost segs = components_of(user_path@);
    let ghost n = segs.len();
    proof {
        assert(texts(parts@).len() == parts@.len());
        assert forall|i: int| 0 <= i < parts@.len() implies parts@[i]@ == segs[i] by {
            assert(texts(parts@)[i] == parts@[i]@);
        }
        if has_parent_component(user_path@) {
            let i = choose|i: int| 0 <= i < segs.len() && segs[i] == ".."@;
            assert(parts@[i]@ == ".."@);
        }
    }
    let ghost missing = Seq::new(n, |i: int| SpecProbe::Missing);
    if found {
        proof {
            let i = choose|i: int| 0 <= i < parts@.len() && parts@[i]@ == ".."@;
            assert(segs[i] == ".."@);
        }
        let r = Err(Error::PathTraversal(String::from_str(user_path)));
        assert(resolve_outcome(base@, joined_path@, user_path@, SpecProbe::Missing, SpecProbe::Missing, missing) == res_view(r));
        assert(resolve_asked(base@, joined_path@, user_path@, SpecProbe::Missing, SpecProbe::Missing, missing));
        return r;
    }
    let bp = probe(base);
    let ghost bpv = bp@;
    let jail = match jail_of(base, bp) {
        Ok(j) => j,
        Err(e) => {
            let r = Err(e);
            assert(resolve_outcome(base@, joined_path@, user_path@, bpv, SpecProbe::Missing, missing) == res_view(r));
            assert(resolve_asked(base@, joined_path@, user_path@, bpv, SpecProbe::Missing, missing));
            return r;
        },
    };
    let jp = probe(joined_path.as_str());
    let ghost jpv = jp@;
    match jp {
        Probe::Resolved(c) => {
            let r = check_within(c, jail.as_str(), user_path, base);
            assert(resolve_outcome(base@, joined_path@, user_path@, bpv, jpv, missing) == res_view(r));
            assert(resolve_asked(base@, joined_path@, user_path@, bpv, jpv, missing));
            return r;
        },
        Probe::Unresolved(m) => {
            let r = Err(quoted_error("cannot resolve ", user_path, m.as_str()));
            assert(resolve_outcome(base@, joined_path@, user_path@, bpv, jpv, missing) == res_view(r));
            assert(resolve_asked(base@, joined_path@, user_path@, bpv, jpv, missing));
            return r;
        },
        Probe::Missing => {},
    }
    let mut current = copy_string(&jail);
    let ghost mut trace: Seq<SpecProbe> = Seq::empty();
    let mut i: usize = 0;
    while i < parts.len()
        invariant
            i <= parts@.len() == n,
            n == segs.len(),
            segs == components_of(user_path@),
            forall|k: int| 0 <= k < parts@.len() ==> parts@[k]@ == segs[k],
            !has_parent_component(user_path@),
            jail_outcome(base@, bpv) == Ok::<Seq<char>, SpecError>(jail@),
            jpv == SpecProbe::Missing,
            probe_answer(base@, bpv),
            probe_answer(joined_path@, jpv),
            trace.len() == i,
            walk_asked(segs, trace, jail@, user_path@, base@),
            walk_outcome(segs, trace, jail@, user_path@, base@) == Ok::<Seq<char>, SpecError>(current@),
        decreases parts@.len() - i,
    {
        let ghost before = trace;
        if str_eq(parts[i].as_str(), ".") {
            proof {
                trace = trace.push(SpecProbe::Missing);
                assert(trace.drop_last() =~= before);
            }
        } else {
            let next = path_join(current.as_str(), parts[i].as_str());
            let p = probe(next.as_str());
            let ghost pv = p@;
            let step = prefix_decision(next, p, jail.as_str(), user_path, base);
            proof {
                trace = trace.push(pv);
                assert(trace.drop_last() =~= before);
            }
            match step {
                Ok(c) => {
                    current = c;
                },
                Err(e) => {
                    let r = Err(e);
                    proof {
                        assert(segs[i as int] != "."@);
                        assert(trace.len() - 1 == i);
                        assert(walk_outcome(segs, trace, jail@, user_path@, base@) == res_view(r));
                        let rest = (n - trace.len()) as nat;
                        lemma_walk_pad(segs, trace, rest, jail@, user_path@, base@);
                        let full = trace + Seq::new(rest, |k: int| SpecProbe::Missing);
                        assert(trace.len() == i + 1);
                        assert(i + 1 <= n);
                        assert(rest + trace.len() == n);
                        assert(full.len() == segs.len());
                        assert(resolve_outcome(base@, joined_path@, user_path@, bpv, jpv, full) == res_view(r));
                        assert(resolve_asked(base@, joined_path@, user_path@, bpv, jpv, full));
                    }
                    return r;
                },
            }
        }
        i += 1;
    }
    let r = Ok(joined_path);
    assert(resolve_outcome(base@, joined_path@, user_path@, bpv, jpv, trace) == res_view(r));
    assert(resolve_asked(base@, joined_path@, user_path@, bpv, jpv, trace));
    r
}

/// Resolves `user_path` inside the jail `base`: an absolute path, or one
/// with a `..` component, is refused with the path itself as the message;
/// otherwise the result is that of resolving the base joined with
/// `user_path` under `base` (`resolves_to`), for the answers the file
/// system gave about the paths asked about.
pub fn safe_resolve(base: &str, user_path: &str) -> (r: Result<String, Error>)
    ensures
        absolute(user_path@) ==> (r matches Err(e) && e@ == SpecError::PathTraversal(user_path@)),
        !absolute(user_path@) ==> resolves_to(base@, joined(base@, user_path@), user_path@, res_view(r)),
{
    if is_absolute(user_path) {
        return Err(Error::PathTraversal(String::from_str(user_path)));
    }
    let j = path_join(base, user_path);
    resolve_under(base, j, user_path)
}

/// The message of an absolute path that lies under none of the allowed
/// roots.
pub open spec fn not_under_roots_text(user_path: Seq<char>) -> Seq<char> {
    "'"@ + user_path + "' is not under any allowed root"@
}

fn not_under_roots(user_path: &str) -> (e: Error)
    ensures
        e@ == SpecError::PathTraversal(not_under_roots_text(user_path@)),
{
    let mut m = String::new();
    push_str(&mut m, "'");
    push_str(&mut m, user_path);
    push_str(&mut m, "' is not under any allowed root");
    assert(m@ =~= not_under_roots_text(user_path@));
    Error::PathTraversal(m)
}

/// The canonical forms of roots, by views.
pub open spec fn roots_view(v: Seq<Result<String, String>>) -> Seq<Result<Seq<char>, Seq<char>>> {
    v.map_values(|x: Result<String, String>| canon_view(x))
}

/// Whether a path lies under one of the roots whose canonical form is
/// known (a root that could not be resolved matches nothing).
pub open spec fn root_match(p: Seq<char>, rcs: Seq<Result<Seq<char>, Seq<char>>>) -> bool {
    exists|i: int| 0 <= i < rcs.len() && (#[trigger] rcs[i]) is Ok && path_starts_with(p, rcs[i]->Ok_0)
}

/// Whether each of `rcs` is the answer `Path::canonicalize` gave about the
/// root at the same place.
pub open spec fn roots_asked(roots: Seq<Seq<char>>, rcs: Seq<Result<Seq<char>, Seq<char>>>) -> bool {
    rcs.len() == roots.len() && forall|i: int| 0 <= i < roots.len() ==> canonical_answer(roots[i], #[trigger] rcs[i])
}

/// Asks the file system for the canonical form of each root.
fn canonical_roots(roots: &[String]) -> (r: Vec<Result<String, String>>)
    ensures
        roots_asked(texts(roots@), roots_view(r@)),
{
    let mut r: Vec<Result<String, String>> = Vec::new();
    let mut i: usize = 0;
    while i < roots.len()
        invariant
            i <= roots@.len(),
            r@.len() == i,
            forall|k: int| 0 <= k < i ==> canonical_answer(roots@[k]@, #[trigger] canon_view(r@[k])),
        decreases roots@.len() - i,
    {
        r.push(canonicalize(roots[i].as_str()));
        i += 1;
    }
    proof {
        assert forall|k: int| 0 <= k < roots@.len() implies canonical_answer(texts(roots@)[k], #[trigger] roots_view(r@)[k]) by {
            assert(canon_view(r@[k]) == roots_view(r@)[k]);
        }
    }
    r
}

/// Whether `p` lies under one of the resolved roots (`root_match`).
fn under_any_root(p: &str, rcs: &Vec<Result<String, String>>) -> (b: bool)
    ensures
        b == root_match(p@, roots_view(rcs@)),
{
    let ghost v = roots_view(rcs@);
    let mut i: usize = 0;
    while i < rcs.len()
        invariant
            i <= rcs@.len(),
            v == roots_view(rcs@),
            forall|k: int| 0 <= k < i ==> !((#[trigger] v[k]) is Ok && path_starts_with(p@, v[k]->Ok_0)),
        decreases rcs@.len() - i,
    {
        match &rcs[i] {
            Ok(rc) => {
                if starts_with_path(p, rc.as_str()) {
                    assert(v[i as int] is Ok && path_starts_with(p@, v[i as int]->Ok_0));
                    return true;
                }
            },
            Err(_) => {},
        }
        i += 1;
    }
    false
}

/// The prefixes of a path, one per component: the first component, then
/// each prefix joined with the next component.
pub open spec fn prefix_paths(cs: Seq<Seq<char>>) -> Seq<Seq<char>>
    decreases cs.len(),
{
    if cs.len() == 0 {
        Seq::empty()
    } else {
        let ps = prefix_paths(cs.drop_last());
        ps.push(joined(if ps.len() == 0 { Seq::empty() } else { ps.last() }, cs.last()))
    }
}

proof fn lemma_prefix_paths_len(cs: Seq<Seq<char>>)
    ensures
        prefix_paths(cs).len() == cs.len(),
    decreases cs.len(),
{
    if cs.len() > 0 {
        lemma_prefix_paths_len(cs.drop_last());
    }
}

proof fn lemma_prefix_paths_index(cs: Seq<Seq<char>>, i: int)
    requires
        0 <= i < cs.len(),
    ensures
        prefix_paths(cs)[i] == joined(
            if i == 0 {
                Seq::empty()
            } else {
                prefix_paths(cs)[i - 1]
            },
            cs[i],
        ),
    decreases cs.len(),
{
    let d = cs.drop_last();
    lemma_prefix_paths_len(d);
    if i < cs.len() - 1 {
        lemma_prefix_paths_index(d, i);
    }
}

/// Whether no prefix that lies under a root resolves, by the answers
/// `ans` of the file system (one per prefix), outside every root.
pub open spec fn prefixes_ok(
    pre: Seq<Seq<char>>,
    ans: Seq<SpecProbe>,
    rcs: Seq<Result<Seq<char>, Seq<char>>>,
) -> bool {
    forall|k: int|
        0 <= k < pre.len() && root_match(pre[k], rcs) && (#[trigger] ans[k]) is Resolved ==> root_match(
            ans[k]->Resolved_0,
            rcs,
        )
}

/// Whether each answer of `ans` about a prefix that lies under a root was
/// given about that prefix (nothing is asked about the others).
pub open spec fn prefixes_asked(
    pre: Seq<Seq<char>>,
    ans: Seq<SpecProbe>,
    rcs: Seq<Result<Seq<char>, Seq<char>>>,
) -> bool {
    ans.len() == pre.len() && forall|k: int|
        0 <= k < pre.len() && root_match(pre[k], rcs) ==> probe_answer(pre[k], #[trigger] ans[k])
}

/// For an absolute path that does not exist, checks that each existing
/// prefix of it that lies under a root resolves under a root: it asks the
/// file system about those prefixes, and succeeds exactly when
/// `prefixes_ok` holds of the answers.
fn validate_prefix_components(path: &str, rcs: &Vec<Result<String, String>>, user_path: &str) -> (r: Result<
    (),
    Error,
>)
    ensures
        exists|ans: Seq<SpecProbe>|
            prefixes_asked(prefix_paths(components_of(path@)), ans, roots_view(rcs@)) && (r is Ok
                <==> #[trigger] prefixes_ok(prefix_paths(components_of(path@)), ans, roots_view(rcs@))),
        r matches Err(e) ==> e@ == SpecError::PathTraversal(not_under_roots_text(user_path@)),
{
    let parts = components(path);
    let ghost cs = components_of(path@);
    let ghost v = roots_view(rcs@);
    proof {
        assert(texts(parts@).len() == parts@.len());
        assert forall|k: int| 0 <= k < parts@.len() implies parts@[k]@ == cs[k] by {
            assert(texts(parts@)[k] == parts@[k]@);
        }
        lemma_prefix_paths_len(cs);
    }
    let ghost pre = prefix_paths(cs);
    let mut current = String::new();
    let mut ok = true;
    let ghost mut ans: Seq<SpecProbe> = Seq::empty();
    let mut i: usize = 0;
    while i < parts.len()
        invariant
            i <= parts@.len() == cs.len() == pre.len(),
            cs == components_of(path@),
            pre == prefix_paths(cs),
            v == roots_view(rcs@),
            forall|k: int| 0 <= k < parts@.len() ==> parts@[k]@ == cs[k],
            ans.len() == i,
            i > 0 ==> current@ == pre[i - 1],
            i == 0 ==> current@ == Seq::<char>::empty(),
            forall|k: int| 0 <= k < i && root_match(pre[k], v) ==> probe_answer(pre[k], #[trigger] ans[k]),
            ok ==> forall|k: int|
                0 <= k < i && root_match(pre[k], v) && (#[trigger] ans[k]) is Resolved ==> root_match(
                    ans[k]->Resolved_0,
                    v,
                ),
            !ok ==> exists|k: int|
                0 <= k < i && root_match(pre[k], v) && (#[trigger] ans[k]) is Resolved && !root_match(
                    ans[k]->Resolved_0,
                    v,
                ),
        decreases parts@.len() - i,
    {
        proof {
            lemma_prefix_paths_index(cs, i as int);
        }
        current = path_join(current.as_str(), parts[i].as_str());
        assert(current@ == pre[i as int]);
        let ghost before = ans;
        if under_any_root(current.as_str(), rcs) {
            let p = probe(current.as_str());
            let ghost pv = p@;
            proof {
                ans = ans.push(pv);
            }
            match p {
                Probe::Resolved(c) => {
                    if !under_any_root(c.as_str(), rcs) {
                        ok = false;
                        assert(ans[i as int] is Resolved && !root_match(ans[i as int]->Resolved_0, v));
                    }
                },
                _ => {},
            }
        } else {
            proof {
                ans = ans.push(SpecProbe::Missing);
            }
        }
        proof {
            assert forall|k: int| 0 <= k < i ==> ans[k] == before[k] by {}
        }
        i += 1;
    }
    proof {
        if !ok {
            let k = choose|k: int|
                0 <= k < i && root_match(pre[k], v) && (#[trigger] ans[k]) is Resolved && !root_match(
                    ans[k]->Resolved_0,
                    v,
                );
            assert(!prefixes_ok(pre, ans, v));
        } else {
            assert(prefixes_ok(pre, ans, v));
        }
        assert(prefixes_asked(pre, ans, v));
    }
    if ok {
        Ok(())
    } else {
        Err(not_under_roots(user_path))
    }
}

/// What an absolute path gives, for the file system's answers: `up` for
/// the path, `prefix_ok` for its prefixes (`prefixes_ok`) and `rcs` for
/// the roots.  One that exists gives its canonical form, which must lie
/// under a root; one that does not is the result as it is written, when
/// its prefixes pass and it lies under a root.
pub open spec fn within_outcome(
    user_path: Seq<char>,
    up: SpecProbe,
    prefix_ok: bool,
    rcs: Seq<Result<Seq<char>, Seq<char>>>,
) -> Result<Seq<char>, SpecError> {
    match up {
        SpecProbe::Unresolved(m) => Err(
            SpecError::PathTraversal(unresolved_text("cannot resolve "@, user_path, m)),
        ),
        SpecProbe::Resolved(c) => if root_match(c, rcs) {
            Ok(c)
        } else {
            Err(SpecError::PathTraversal(not_under_roots_text(user_path)))
        },
        SpecProbe::Missing => if prefix_ok && root_match(user_path, rcs) {
            Ok(user_path)
        } else {
            Err(SpecError::PathTraversal(not_under_roots_text(user_path)))
        },
    }
}

/// Decides an absolute path from the file system's answers
/// (`within_outcome`).
pub fn within_decision(
    user_path: &str,
    up: Probe,
    prefix_ok: bool,
    rcs: &Vec<Result<String, String>>,
) -> (r: Result<String, Error>)
    ensures
        res_view(r) == within_outcome(user_path@, up@, prefix_ok, roots_view(rcs@)),
{
    match up {
        Probe::Unresolved(m) => Err(quoted_error("cannot resolve ", user_path, m.as_str())),
        Probe::Resolved(c) => if under_any_root(c.as_str(), rcs) {
            Ok(c)
        } else {
            Err(not_under_roots(user_path))
        },
        Probe::Missing => if prefix_ok && under_any_root(user_path, rcs) {
            Ok(String::from_str(user_path))
        } else {
            Err(not_under_roots(user_path))
        },
    }
}

/// Whether `r` is what `within_outcome` gives for the absolute path
/// `user_path` and the roots, for answers the file system gave: `up` about
/// the path, `ans` about the prefixes that lie under a root (asked only
/// when nothing is at the path), and `rcs` about the roots.
pub open spec fn within_to(user_path: Seq<char>, roots: Seq<Seq<char>>, r: Result<Seq<char>, SpecError>) -> bool {
    exists|up: SpecProbe, ans: Seq<SpecProbe>, rcs: Seq<Result<Seq<char>, Seq<char>>>|
        roots_asked(roots, rcs) && probe_answer(user_path, up) && (up is Missing ==> prefixes_asked(
            prefix_paths(components_of(user_path)),
            ans,
            rcs,
        )) && #[trigger] within_outcome(
            user_path,
            up,
            prefixes_ok(prefix_paths(components_of(user_path)), ans, rcs),
            rcs,
        ) == r
}

/// Like `safe_resolve`, but an absolute path is allowed when it lies under
/// one of `allowed_roots`, each as the file system resolves it
/// (`within_outcome`): then it is the result, resolved by the file system
/// if it exists.  A relative path is resolved under `base` as by
/// `safe_resolve`.
pub fn safe_resolve_within(base: &str, user_path: &str, allowed_roots: &[String]) -> (r: Result<
    String,
    Error,
>)
    ensures
        !absolute(user_path@) ==> resolves_to(base@, joined(base@, user_path@), user_path@, res_view(r)),
        absolute(user_path@) ==> within_to(user_path@, texts(allowed_roots@), res_view(r)),
{
    if is_absolute(user_path) {
        let rcs = canonical_roots(allowed_roots);
        let up = probe(user_path);
        let ghost upv = up@;
        let ghost v = roots_view(rcs@);
        let ghost cs = components_of(user_path@);
        let prefix_ok = match up {
            Probe::Missing => validate_prefix_components(user_path, &rcs, user_path).is_ok(),
            _ => true,
        };
        let ghost ans: Seq<SpecProbe> = if upv == SpecProbe::Missing {
            choose|ans: Seq<SpecProbe>|
                prefixes_asked(prefix_paths(cs), ans, v) && (prefix_ok <==> #[trigger] prefixes_ok(prefix_paths(cs), ans, v))
        } else {
            Seq::new(cs.len(), |k: int| SpecProbe::Missing)
        };
        let r = within_decision(user_path, up, prefix_ok, &rcs);
        assert(within_outcome(user_path@, upv, prefixes_ok(prefix_paths(cs), ans, v), v) == res_view(r));
        return r;
    }
    let j = path_join(base, user_path);
    resolve_under(base, j, user_path)
}

/// The file system answered alike whenever it was asked about the same
/// path (it did not change between the calls).
pub open spec fn steady_answers() -> bool {
    &&& forall|p: Seq<char>, b1: bool, b2: bool|
        #[trigger] exists_answer(p, b1) && #[trigger] exists_answer(p, b2) ==> b1 == b2
    &&& forall|p: Seq<char>, x: Result<Seq<char>, Seq<char>>, y: Result<Seq<char>, Seq<char>>|
        #[trigger] canonical_answer(p, x) && #[trigger] canonical_answer(p, y) ==> x == y
}

proof fn lemma_probe_unique(p: Seq<char>, a1: SpecProbe, a2: SpecProbe)
    requires
        steady_answers(),
        probe_answer(p, a1),
        probe_answer(p, a2),
    ensures
        a1 == a2,
{
    match a1 {
        SpecProbe::Missing => {
            assert(exists_answer(p, false));
        },
        SpecProbe::Resolved(c) => {
            assert(exists_answer(p, true));
            match a2 {
                SpecProbe::Resolved(c2) => {
                    assert(canonical_answer(p, Ok(c)) && canonical_answer(p, Ok(c2)));
                },
                SpecProbe::Unresolved(m2) => {
                    assert(canonical_answer(p, Ok(c)) && canonical_answer(p, Err(m2)));
                },
                SpecProbe::Missing => {},
            }
        },
        SpecProbe::Unresolved(m) => {
            assert(exists_answer(p, true));
            match a2 {
                SpecProbe::Resolved(c2) => {
                    assert(canonical_answer(p, Err(m)) && canonical_answer(p, Ok(c2)));
                },
                SpecProbe::Unresolved(m2) => {
                    assert(canonical_answer(p, Err(m)) && canonical_answer(p, Err(m2)));
                },
                SpecProbe::Missing => {},
            }
        },
    }
}

proof fn lemma_walk_same(
    segs: Seq<Seq<char>>,
    ps1: Seq<SpecProbe>,
    ps2: Seq<SpecProbe>,
    jail: Seq<char>,
    user_path: Seq<char>,
    base: Seq<char>,
)
    requires
        steady_answers(),
        ps1.len() == ps2.len(),
        walk_asked(segs, ps1, jail, user_path, base),
        walk_asked(segs, ps2, jail, user_path, base),
    ensures
        walk_outcome(segs, ps1, jail, user_path, base) == walk_outcome(segs, ps2, jail, user_path, base),
    decreases ps1.len(),
{
    if ps1.len() > 0 {
        lemma_walk_same(segs, ps1.drop_last(), ps2.drop_last(), jail, user_path, base);
        if let Ok(cur) = walk_outcome(segs, ps1.drop_last(), jail, user_path, base) {
            let seg = segs[ps1.len() - 1];
            if seg != "."@ {
                lemma_probe_unique(joined(cur, seg), ps1.last(), ps2.last());
            }
        }
    }
}

/// Resolving a path twice while the file system answers alike gives the
/// same result: so `safe_resolve_within` gives for a relative path what
/// `safe_resolve` gives.
pub proof fn lemma_resolve_steady(
    base: Seq<char>,
    user_path: Seq<char>,
    r1: Result<Seq<char>, SpecError>,
    r2: Result<Seq<char>, SpecError>,
)
    requires
        steady_answers(),
        resolves_to(base, joined(base, user_path), user_path, r1),
        resolves_to(base, joined(base, user_path), user_path, r2),
    ensures
        r1 == r2,
{
    let j = joined(base, user_path);
    let (bp1, jp1, ps1) = choose|bp: SpecProbe, jp: SpecProbe, ps: Seq<SpecProbe>|
        ps.len() == components_of(user_path).len() && resolve_asked(base, j, user_path, bp, jp, ps)
            && #[trigger] resolve_outcome(base, j, user_path, bp, jp, ps) == r1;
    let (bp2, jp2, ps2) = choose|bp: SpecProbe, jp: SpecProbe, ps: Seq<SpecProbe>|
        ps.len() == components_of(user_path).len() && resolve_asked(base, j, user_path, bp, jp, ps)
            && #[trigger] resolve_outcome(base, j, user_path, bp, jp, ps) == r2;
    if !has_parent_component(user_path) {
        lemma_probe_unique(base, bp1, bp2);
        if let Ok(jail) = jail_outcome(base, bp1) {
            lemma_probe_unique(j, jp1, jp2);
            if jp1 is Missing {
                lemma_walk_same(components_of(user_path), ps1, ps2, jail, user_path, base);
            }
        }
    }
}

/// An absolute path that `safe_resolve_within` accepts lies under the
/// canonical form that `Path::canonicalize` gave for one of the roots.
pub proof fn lemma_within_under_root(user_path: Seq<char>, roots: Seq<Seq<char>>, p: Seq<char>)
    requires
        within_to(user_path, roots, Ok(p)),
    ensures
        exists|i: int, rc: Seq<char>|
            0 <= i < roots.len() && #[trigger] canonical_answer(roots[i], Ok(rc)) && path_starts_with(p, rc),
{
    let (up, ans, rcs) = choose|up: SpecProbe, ans: Seq<SpecProbe>, rcs: Seq<Result<Seq<char>, Seq<char>>>|
        roots_asked(roots, rcs) && probe_answer(user_path, up) && (up is Missing ==> prefixes_asked(
            prefix_paths(components_of(user_path)),
            ans,
            rcs,
        )) && #[trigger] within_outcome(
            user_path,
            up,
            prefixes_ok(prefix_paths(components_of(user_path)), ans, rcs),
            rcs,
        ) == Ok::<Seq<char>, SpecError>(p);
    assert(root_match(p, rcs));
    let i = choose|i: int| 0 <= i < rcs.len() && (#[trigger] rcs[i]) is Ok && path_starts_with(p, rcs[i]->Ok_0);
    assert(canonical_answer(roots[i], rcs[i]));
}

} // verus!
