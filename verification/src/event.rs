//! The event payload (`event.json`) a run starts with.
use crate::json::{json_value, read_json};
use crate::github::{owner_of, repository_owner};
use crate::number::{nat_number, number_from_u64};
use crate::text::split_on;
use crate::text::split_char;
use crate::value::{member_pairs_view, obj_fold, ObjectMap, SpecValue, Value};
use vstd::prelude::*;

verus! {

/// The repository name of `owner/repo`: the second `/`-separated piece, or
/// `repo` when there is none.
pub open spec fn repo_name_of(repository: Seq<char>) -> Seq<char> {
    let pieces = split_char(repository, '/');
    if pieces.len() > 1 {
        pieces[1]
    } else {
        "repo"@
    }
}

/// An object with the given members set in turn.
pub open spec fn object_of(ps: Seq<(Seq<char>, SpecValue)>) -> SpecValue {
    SpecValue::Object(obj_fold(Seq::empty(), ps))
}

/// The `repository` member of a payload.
pub open spec fn repository_payload(repository: Seq<char>) -> SpecValue {
    object_of(
        seq![
            ("full_name"@, SpecValue::Str(repository)),
            ("name"@, SpecValue::Str(repo_name_of(repository))),
            ("owner"@, object_of(seq![("login"@, SpecValue::Str(owner_of(repository)))])),
        ],
    )
}

/// The `sender` member of a payload: the local user, id 0.
pub open spec fn sender_payload() -> SpecValue {
    object_of(seq![("login"@, SpecValue::Str("local"@)), ("id"@, SpecValue::Num(nat_number(0)))])
}

/// The payload made up for an event when none is supplied: a push, an
/// opened pull request (number 1, from `git_ref` into `main`), a manual
/// dispatch with no inputs, or just the repository and sender for any
/// other event.
pub open spec fn default_payload(
    event: Seq<char>,
    repository: Seq<char>,
    sha: Seq<char>,
    git_ref: Seq<char>,
) -> SpecValue {
    object_of(payload_pairs(event, repository, sha, git_ref))
}

/// The members of the made-up payload of an event, in the order in which
/// they are set.
pub open spec fn payload_pairs(
    event: Seq<char>,
    repository: Seq<char>,
    sha: Seq<char>,
    git_ref: Seq<char>,
) -> Seq<(Seq<char>, SpecValue)> {
    let repo = repository_payload(repository);
    let sender = sender_payload();
    if event == "push"@ {
        seq![
            ("ref"@, SpecValue::Str(git_ref)),
            ("before"@, SpecValue::Str("0000000000000000000000000000000000000000"@)),
            ("after"@, SpecValue::Str(sha)),
            ("repository"@, repo),
            ("sender"@, sender),
            (
                "head_commit"@,
                object_of(
                    seq![
                        ("id"@, SpecValue::Str(sha)),
                        ("message"@, SpecValue::Str("local execution"@)),
                    ],
                ),
            ),
            ("commits"@, SpecValue::Array(Seq::empty())),
        ]
    } else if event == "pull_request"@ {
        seq![
            ("action"@, SpecValue::Str("opened"@)),
            ("number"@, SpecValue::Num(nat_number(1))),
            (
                "pull_request"@,
                object_of(
                    seq![
                        ("number"@, SpecValue::Num(nat_number(1))),
                        (
                            "head"@,
                            object_of(
                                seq![
                                    ("ref"@, SpecValue::Str(git_ref)),
                                    ("sha"@, SpecValue::Str(sha)),
                                ],
                            ),
                        ),
                        (
                            "base"@,
                            object_of(
                                seq![
                                    ("ref"@, SpecValue::Str("main"@)),
                                    ("sha"@, SpecValue::Str(sha)),
                                ],
                            ),
                        ),
                        ("title"@, SpecValue::Str("Local PR"@)),
                        ("body"@, SpecValue::Str(""@)),
                    ],
                ),
            ),
            ("repository"@, repo),
            ("sender"@, sender),
        ]
    } else if event == "workflow_dispatch"@ {
        seq![
            ("inputs"@, object_of(Seq::empty())),
            ("ref"@, SpecValue::Str(git_ref)),
            ("repository"@, repo),
            ("sender"@, sender),
        ]
    } else {
        seq![("repository"@, repo), ("sender"@, sender)]
    }
}

/// The payload of a run: the supplied JSON text when there is one and it
/// parses, otherwise the made-up payload of the event.
pub open spec fn event_payload(
    event: Seq<char>,
    repository: Seq<char>,
    sha: Seq<char>,
    git_ref: Seq<char>,
    supplied: Option<Seq<char>>,
) -> SpecValue {
    match supplied {
        Some(text) => match json_value(text) {
            Ok(v) => v,
            Err(_) => default_payload(event, repository, sha, git_ref),
        },
        None => default_payload(event, repository, sha, git_ref),
    }
}

fn text(s: &str) -> (v: Value)
    ensures
        v@ == SpecValue::Str(s@),
{
    Value::String(String::from_str(s))
}

fn key(s: &str) -> (k: String)
    ensures
        k@ == s@,
{
    String::from_str(s)
}

fn object(v: Vec<(String, Value)>) -> (r: Value)
    ensures
        r@ == object_of(member_pairs_view(v@)),
{
    Value::Object(ObjectMap::from_pairs(&v))
}

fn repo_name(repository: &str) -> (r: String)
    ensures
        r@ == repo_name_of(repository@),
{
    let pieces = split_on(repository, '/');
    if pieces.len() > 1 {
        assert(pieces@.map_values(|x: String| x@)[1] == pieces@[1]@);
        pieces[1].clone()
    } else {
        String::from_str("repo")
    }
}

fn repository_value(repository: &str) -> (r: Value)
    ensures
        r@ == repository_payload(repository@),
{
    let mut owner: Vec<(String, Value)> = Vec::new();
    owner.push((key("login"), Value::String(repository_owner(repository))));
    assert(member_pairs_view(owner@) =~= seq![("login"@, SpecValue::Str(owner_of(repository@)))]);
    let mut v: Vec<(String, Value)> = Vec::new();
    v.push((key("full_name"), text(repository)));
    v.push((key("name"), Value::String(repo_name(repository))));
    v.push((key("owner"), object(owner)));
    assert(member_pairs_view(v@) =~= seq![
        ("full_name"@, SpecValue::Str(repository@)),
        ("name"@, SpecValue::Str(repo_name_of(repository@))),
        ("owner"@, object_of(seq![("login"@, SpecValue::Str(owner_of(repository@)))])),
    ]);
    object(v)
}

fn sender_value() -> (r: Value)
    ensures
        r@ == sender_payload(),
{
    let mut v: Vec<(String, Value)> = Vec::new();
    v.push((key("login"), text("local")));
    v.push((key("id"), Value::Number(number_from_u64(0))));
    assert(member_pairs_view(v@) =~= seq![
        ("login"@, SpecValue::Str("local"@)),
        ("id"@, SpecValue::Num(nat_number(0))),
    ]);
    object(v)
}

fn pair_value(k1: &str, v1: Value, k2: &str, v2: Value) -> (r: Value)
    ensures
        r@ == object_of(seq![(k1@, v1@), (k2@, v2@)]),
{
    let mut v: Vec<(String, Value)> = Vec::new();
    v.push((key(k1), v1));
    v.push((key(k2), v2));
    assert(member_pairs_view(v@) =~= seq![(k1@, v1@), (k2@, v2@)]);
    object(v)
}

/// The payload made up for an event (`default_payload`).
pub fn default_event_payload(event: &str, repository: &str, sha: &str, git_ref: &str) -> (r: Value)
    ensures
        r@ == default_payload(event@, repository@, sha@, git_ref@),
{
    let mut v: Vec<(String, Value)> = Vec::new();
    let ghost repo = repository_payload(repository@);
    let ghost sender = sender_payload();
    if crate::text::str_eq(event, "push") {
        proof {
            reveal_strlit("push");
        }
        v.push((key("ref"), text(git_ref)));
        v.push((key("before"), text("0000000000000000000000000000000000000000")));
        v.push((key("after"), text(sha)));
        v.push((key("repository"), repository_value(repository)));
        v.push((key("sender"), sender_value()));
        v.push((key("head_commit"), pair_value("id", text(sha), "message", text("local execution"))));
        let empty: Vec<Value> = Vec::new();
        proof {
            crate::value::lemma_array_view(empty);
            assert(empty@.map_values(|x: Value| x@) =~= Seq::<SpecValue>::empty());
        }
        v.push((key("commits"), Value::Array(empty)));
        assert(member_pairs_view(v@) =~= payload_pairs(event@, repository@, sha@, git_ref@));
    } else if crate::text::str_eq(event, "pull_request") {
        proof {
            reveal_strlit("push");
            reveal_strlit("pull_request");
        }
        v.push((key("action"), text("opened")));
        v.push((key("number"), Value::Number(number_from_u64(1))));
        let mut pr: Vec<(String, Value)> = Vec::new();
        pr.push((key("number"), Value::Number(number_from_u64(1))));
        pr.push((key("head"), pair_value("ref", text(git_ref), "sha", text(sha))));
        pr.push((key("base"), pair_value("ref", text("main"), "sha", text(sha))));
        pr.push((key("title"), text("Local PR")));
        pr.push((key("body"), text("")));
        assert(member_pairs_view(pr@) =~= seq![
            ("number"@, SpecValue::Num(nat_number(1))),
            ("head"@, object_of(seq![("ref"@, SpecValue::Str(git_ref@)), ("sha"@, SpecValue::Str(sha@))])),
            ("base"@, object_of(seq![("ref"@, SpecValue::Str("main"@)), ("sha"@, SpecValue::Str(sha@))])),
            ("title"@, SpecValue::Str("Local PR"@)),
            ("body"@, SpecValue::Str(""@)),
        ]);
        v.push((key("pull_request"), object(pr)));
        v.push((key("repository"), repository_value(repository)));
        v.push((key("sender"), sender_value()));
        assert(member_pairs_view(v@) =~= payload_pairs(event@, repository@, sha@, git_ref@));
    } else if crate::text::str_eq(event, "workflow_dispatch") {
        proof {
            reveal_strlit("push");
            reveal_strlit("pull_request");
            reveal_strlit("workflow_dispatch");
        }
        let none: Vec<(String, Value)> = Vec::new();
        assert(member_pairs_view(none@) =~= Seq::<(Seq<char>, SpecValue)>::empty());
        v.push((key("inputs"), object(none)));
        v.push((key("ref"), text(git_ref)));
        v.push((key("repository"), repository_value(repository)));
        v.push((key("sender"), sender_value()));
        assert(member_pairs_view(v@) =~= payload_pairs(event@, repository@, sha@, git_ref@));
    } else {
        v.push((key("repository"), repository_value(repository)));
        v.push((key("sender"), sender_value()));
        assert(member_pairs_view(v@) =~= payload_pairs(event@, repository@, sha@, git_ref@));
    }
    object(v)
}

/// The payload of a run (`event_payload`): `supplied` is the text of a
/// user-supplied event file, when one was given and could be read.
pub fn generate_event_json(
    event: &str,
    repository: &str,
    sha: &str,
    git_ref: &str,
    supplied: Option<&str>,
) -> (r: Value)
    ensures
        r@ == event_payload(
            event@,
            repository@,
            sha@,
            git_ref@,
            match supplied {
                Some(t) => Some(t@),
                None => None,
            },
        ),
{
    if let Some(t) = supplied {
        if let Ok(v) = read_json(t) {
            return v;
        }
    }
    default_event_payload(event, repository, sha, git_ref)
}

} // verus!
