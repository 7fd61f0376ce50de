//! Reading JSON text: `serde_json` parses it into a tree that holds each
//! number as its JSON text and each object's members in the parser's
//! order; the tree is then turned into a value of the expression language.
use crate::number::{parse_number_text, string_number};
use crate::value::{ObjectMap, SpecValue, Value, lemma_array_view, member_pairs_view, obj_fold};
use serde_json::Value as JsonValue;
use vstd::prelude::*;

verus! {

/// A JSON value as the parser hands it over.
pub enum JsonTree {
    Null,
    Bool(bool),
    /// A number, as its JSON text.
    Number(String),
    Text(String),
    Array(Vec<JsonTree>),
    /// The members, in the parser's order.
    Object(Vec<(String, JsonTree)>),
}

/// The mathematical form of a `JsonTree`.
pub ghost enum SpecJson {
    Null,
    Bool(bool),
    Number(Seq<char>),
    Text(Seq<char>),
    Array(Seq<SpecJson>),
    Object(Seq<(Seq<char>, SpecJson)>),
}

pub open spec fn json_view(t: JsonTree) -> SpecJson
    decreases t,
{
    match t {
        JsonTree::Null => SpecJson::Null,
        JsonTree::Bool(b) => SpecJson::Bool(b),
        JsonTree::Number(s) => SpecJson::Number(s@),
        JsonTree::Text(s) => SpecJson::Text(s@),
        JsonTree::Array(a) => SpecJson::Array(
            Seq::new(
                a@.len(),
                |i: int|
                    if 0 <= i < a@.len() {
                        json_view(a@[i])
                    } else {
                        SpecJson::Null
                    },
            ),
        ),
        JsonTree::Object(ms) => SpecJson::Object(
            Seq::new(
                ms@.len(),
                |i: int|
                    if 0 <= i < ms@.len() {
                        (ms@[i].0@, json_view(ms@[i].1))
                    } else {
                        (Seq::empty(), SpecJson::Null)
                    },
            ),
        ),
    }
}

impl View for JsonTree {
    type V = SpecJson;

    open spec fn view(&self) -> SpecJson {
        json_view(*self)
    }
}

/// What `serde_json::from_str` gives for a text read as any JSON value:
/// the tree, or the parser's message.
pub uninterp spec fn json_parsed(s: Seq<char>) -> Result<SpecJson, Seq<char>>;

/// A JSON value as `serde_json` reads it.
#[verifier::external_type_specification]
#[verifier::external_body]
pub struct ExJsonValue(JsonValue);

/// Reads a JSON text with `serde_json::from_str`; the tree, or the text
/// of the error, is named by `json_parsed`.
#[verifier::external_body]
fn parse_json(s: &str) -> (r: Result<JsonTree, String>)
    ensures
        match json_parsed(s@) {
            Ok(t) => r matches Ok(x) && x@ == t,
            Err(m) => r matches Err(e) && e@ == m,
        },
{
    match serde_json::from_str::<JsonValue>(s) {
        Ok(v) => Ok(json_tree(&v)),
        Err(e) => Err(e.to_string()),
    }
}

/// Hands a `serde_json::Value` over as a `JsonTree`, one for one: a number
/// as the text `serde_json` writes for it, members in the map's order.
#[verifier::external_body]
fn json_tree(v: &JsonValue) -> JsonTree {
    match v {
        JsonValue::Null => JsonTree::Null,
        JsonValue::Bool(b) => JsonTree::Bool(*b),
        JsonValue::Number(n) => JsonTree::Number(n.to_string()),
        JsonValue::String(s) => JsonTree::Text(s.clone()),
        JsonValue::Array(a) => JsonTree::Array(a.iter().map(json_tree).collect()),
        JsonValue::Object(m) => JsonTree::Object(m.iter().map(|(k, x)| (k.clone(), json_tree(x))).collect()),
    }
}

/// The members of an object, each value turned into a value of the
/// expression language.
pub open spec fn members_value(ps: Seq<(Seq<char>, SpecJson)>) -> Seq<(Seq<char>, SpecValue)>
    decreases ps, 0nat,
{
    Seq::new(
        ps.len(),
        |i: int|
            if 0 <= i < ps.len() {
                (ps[i].0, value_of_tree(ps[i].1))
            } else {
                (Seq::empty(), SpecValue::Null)
            },
    )
}

/// A JSON tree as a value of the expression language: a number is read
/// from its text (`string_number`), and an object's members are inserted
/// in order, a later member replacing an earlier one of the same key.
pub open spec fn value_of_tree(t: SpecJson) -> SpecValue
    decreases t, 1nat,
{
    match t {
        SpecJson::Null => SpecValue::Null,
        SpecJson::Bool(b) => SpecValue::Bool(b),
        SpecJson::Number(s) => SpecValue::Num(string_number(s)),
        SpecJson::Text(s) => SpecValue::Str(s),
        SpecJson::Array(xs) => SpecValue::Array(
            Seq::new(
                xs.len(),
                |i: int|
                    if 0 <= i < xs.len() {
                        value_of_tree(xs[i])
                    } else {
                        SpecValue::Null
                    },
            ),
        ),
        SpecJson::Object(ps) => SpecValue::Object(obj_fold(Seq::empty(), members_value(ps))),
    }
}

/// What a JSON text reads as: the value, or the parser's message.
pub open spec fn json_value(s: Seq<char>) -> Result<SpecValue, Seq<char>> {
    match json_parsed(s) {
        Ok(t) => Ok(value_of_tree(t)),
        Err(m) => Err(m),
    }
}

/// Turns a JSON tree into a value of the expression language
/// (`value_of_tree`).
#[verifier::loop_isolation(false)]
pub fn tree_value(t: &JsonTree) -> (v: Value)
    ensures
        v@ == value_of_tree(t@),
    decreases t,
{
    match t {
        JsonTree::Null => Value::Null,
        JsonTree::Bool(b) => Value::Bool(*b),
        JsonTree::Number(s) => Value::Number(parse_number_text(s.as_str())),
        JsonTree::Text(s) => Value::String(s.clone()),
        JsonTree::Array(a) => {
            let mut out: Vec<Value> = Vec::new();
            let mut i: usize = 0;
            while i < a.len()
                invariant
                    i <= a@.len(),
                    out@.len() == i,
                    forall|j: int| 0 <= j < i ==> (#[trigger] out@[j])@ == value_of_tree(
                        json_view(a@[j]),
                    ),
                decreases a@.len() - i,
            {
                proof {
                    assert(decreases_to!(*t => t->Array_0));
                    assert(decreases_to!(t->Array_0 => t->Array_0@));
                    assert(decreases_to!(t->Array_0@ => t->Array_0@[i as int]));
                }
                let x = tree_value(&a[i]);
                out.push(x);
                i += 1;
            }
            proof {
                lemma_array_view(out);
                assert(out@.map_values(|x: Value| x@) =~= value_of_tree(t@)->Array_0);
            }
            Value::Array(out)
        },
        JsonTree::Object(ms) => {
            let mut pairs: Vec<(String, Value)> = Vec::new();
            let mut i: usize = 0;
            while i < ms.len()
                invariant
                    i <= ms@.len(),
                    pairs@.len() == i,
                    forall|j: int| 0 <= j < i ==> (#[trigger] pairs@[j]).0@ == ms@[j].0@
                        && pairs@[j].1@ == value_of_tree(json_view(ms@[j].1)),
                decreases ms@.len() - i,
            {
                proof {
                    assert(decreases_to!(*t => t->Object_0));
                    assert(decreases_to!(t->Object_0 => t->Object_0@));
                    assert(decreases_to!(t->Object_0@ => t->Object_0@[i as int]));
                    assert(decreases_to!(t->Object_0@[i as int] => t->Object_0@[i as int].1));
                }
                let k = ms[i].0.clone();
                let x = tree_value(&ms[i].1);
                pairs.push((k, x));
                i += 1;
            }
            let m = ObjectMap::from_pairs(&pairs);
            proof {
                if let SpecJson::Object(ps) = t@ {
                    assert(member_pairs_view(pairs@) =~= members_value(ps));
                }
            }
            Value::Object(m)
        },
    }
}

/// Reads a JSON text as a value of the expression language
/// (`json_value`): the parser's message when it is not JSON.
pub fn read_json(s: &str) -> (r: Result<Value, String>)
    ensures
        match json_value(s@) {
            Ok(v) => r matches Ok(x) && x@ == v,
            Err(m) => r matches Err(e) && e@ == m,
        },
{
    match parse_json(s) {
        Ok(t) => Ok(tree_value(&t)),
        Err(e) => Err(e),
    }
}

} // verus!
