//! Paths, held as text.  What `std::path` computes from the text alone is
//! named here; what depends on the file system (whether a path exists, what
//! it resolves to) is asked of it, and each answer is recorded against the
//! path it was asked for, with nothing else promised of it.
use vstd::prelude::*;

verus! {

/// What `Path::join` gives for a base and a path.
pub uninterp spec fn joined(base: Seq<char>, p: Seq<char>) -> Seq<char>;

/// What `Path::parent` gives for a path.
pub uninterp spec fn parent_of(p: Seq<char>) -> Option<Seq<char>>;

/// What `Path::is_absolute` gives for a path.
pub uninterp spec fn absolute(p: Seq<char>) -> bool;

/// What `Path::starts_with` gives: whether `base`'s components are a
/// prefix of `p`'s.
pub uninterp spec fn path_starts_with(p: Seq<char>, base: Seq<char>) -> bool;

/// The text of each item that `Path::components` yields for a path.
pub uninterp spec fn components_of(p: Seq<char>) -> Seq<Seq<char>>;

/// Whether `Path::exists` answered `b` when asked about `p`.  A record of
/// answers, not a function of the path: when the file system changes
/// between two calls, both answers hold; nothing else is known of it.
pub uninterp spec fn exists_answer(p: Seq<char>, b: bool) -> bool;

/// Whether `Path::canonicalize` answered `r` (the canonical form, or the
/// text of the error) when asked about `p`.  A record of answers, not a
/// function of the path: when the file system changes between two calls,
/// both answers hold; nothing else is known of it.
pub uninterp spec fn canonical_answer(p: Seq<char>, r: Result<Seq<char>, Seq<char>>) -> bool;

/// A canonical form or the error of computing it, by views.
pub open spec fn canon_view(r: Result<String, String>) -> Result<Seq<char>, Seq<char>> {
    match r {
        Ok(c) => Ok(c@),
        Err(m) => Err(m@),
    }
}

/// The views of a list of strings.
pub open spec fn texts(v: Seq<String>) -> Seq<Seq<char>> {
    v.map_values(|s: String| s@)
}

/// Calls `Path::join`; the result is named by `joined`.  As its
/// documentation says, an absolute path replaces the base.
#[verifier::external_body]
pub(crate) fn path_join(base: &str, p: &str) -> (r: String)
    ensures
        r@ == joined(base@, p@),
        absolute(p@) ==> r@ == p@,
{
    std::path::Path::new(base).join(p).to_string_lossy().into_owned()
}

/// Calls `Path::parent`; the result is named by `parent_of`.
#[verifier::external_body]
pub(crate) fn path_parent(p: &str) -> (r: Option<String>)
    ensures
        match parent_of(p@) {
            Some(q) => r matches Some(s) && s@ == q,
            None => r is None,
        },
{
    std::path::Path::new(p).parent().map(|q| q.to_string_lossy().into_owned())
}

/// Calls `Path::is_absolute`; the result is named by `absolute`.
#[verifier::external_body]
pub(crate) fn is_absolute(p: &str) -> (b: bool)
    ensures
        b == absolute(p@),
{
    std::path::Path::new(p).is_absolute()
}

/// Calls `Path::starts_with`; the result is named by `path_starts_with`.
#[verifier::external_body]
pub(crate) fn starts_with_path(p: &str, base: &str) -> (b: bool)
    ensures
        b == path_starts_with(p@, base@),
{
    std::path::Path::new(p).starts_with(base)
}

/// Calls `Path::components`, each item given as its text (`..` for a
/// parent directory, `.` for the current one); the result is named by
/// `components_of`.
#[verifier::external_body]
pub(crate) fn components(p: &str) -> (r: Vec<String>)
    ensures
        texts(r@) == components_of(p@),
{
    std::path::Path::new(p).components().map(|c| c.as_os_str().to_string_lossy().into_owned()).collect()
}

/// Calls `Path::exists`: whether the file system holds something at the
/// path (following symbolic links).  It depends on the file system, so
/// the answer is only recorded against the path (`exists_answer`).
#[verifier::external_body]
pub(crate) fn path_exists(p: &str) -> (b: bool)
    ensures
        exists_answer(p@, b),
{
    std::path::Path::new(p).exists()
}

/// Calls `Path::canonicalize`: the absolute form of the path with symbolic
/// links resolved, or the text of the error.  It depends on the file
/// system, so the answer is only recorded against the path
/// (`canonical_answer`).
#[verifier::external_body]
pub(crate) fn canonicalize(p: &str) -> (r: Result<String, String>)
    ensures
        canonical_answer(p@, canon_view(r)),
{
    match std::path::Path::new(p).canonicalize() {
        Ok(c) => Ok(c.to_string_lossy().into_owned()),
        Err(e) => Err(e.to_string()),
    }
}

} // verus!
