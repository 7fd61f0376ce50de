//! Expansion of a matrix strategy into the job runs it stands for.
use crate::model::Matrix;
use crate::text::{join_texts, push_str};
use crate::value::{json_text, obj_fold, obj_get, obj_insert, str_lt, string_less, to_plain_json, ObjectMap, SpecValue, Value};
use vstd::prelude::*;

verus! {

/// One combination: matrix variables and their values, in key order.
pub type Combo = Seq<(Seq<char>, SpecValue)>;

/// The views of a list of maps.
pub open spec fn maps_view(v: Seq<ObjectMap>) -> Seq<Combo> {
    v.map_values(|m: ObjectMap| m@)
}

/// The views of a list of values.
pub open spec fn values_view(v: Seq<Value>) -> Seq<SpecValue> {
    v.map_values(|x: Value| x@)
}

/// The views of an optional list of maps.
pub open spec fn opt_maps_view(o: Option<Vec<ObjectMap>>) -> Option<Seq<Combo>> {
    match o {
        Some(v) => Some(maps_view(v@)),
        None => None,
    }
}

/// The values a dimension takes: the elements of an array, any other value
/// on its own.
pub open spec fn dimension_values(v: SpecValue) -> Seq<SpecValue> {
    match v {
        SpecValue::Array(xs) => xs,
        _ => seq![v],
    }
}

/// The dimensions that take at least one value, in key order.
pub open spec fn dimension_list(es: Combo) -> Seq<(Seq<char>, Seq<SpecValue>)>
    decreases es.len(),
{
    if es.len() == 0 {
        Seq::empty()
    } else {
        let rest = dimension_list(es.drop_last());
        let vals = dimension_values(es.last().1);
        if vals.len() == 0 {
            rest
        } else {
            rest.push((es.last().0, vals))
        }
    }
}

/// Each combination extended by each value of one more dimension, the
/// values varying fastest.
pub open spec fn extend_combos(cs: Seq<Combo>, key: Seq<char>, vals: Seq<SpecValue>) -> Seq<Combo>
    decreases cs.len(),
{
    if cs.len() == 0 {
        Seq::empty()
    } else {
        extend_combos(cs.drop_last(), key, vals) + vals.map_values(
            |v: SpecValue| obj_insert(cs.last(), key, v),
        )
    }
}

/// The cartesian product of the dimensions (one empty combination when
/// there are none).
pub open spec fn cartesian(ds: Seq<(Seq<char>, Seq<SpecValue>)>) -> Seq<Combo>
    decreases ds.len(),
{
    if ds.len() == 0 {
        seq![Seq::empty()]
    } else {
        extend_combos(cartesian(ds.drop_last()), ds.last().0, ds.last().1)
    }
}

/// Every variable of the pattern is set in the combination, to the same
/// value.
pub open spec fn matches_pattern(c: Combo, pat: Combo) -> bool {
    forall|i: int| 0 <= i < pat.len() ==> obj_get(c, #[trigger] pat[i].0) == Some(pat[i].1)
}

/// Some exclude pattern matches the combination.
pub open spec fn excluded(c: Combo, excludes: Seq<Combo>) -> bool {
    exists|j: int| 0 <= j < excludes.len() && matches_pattern(c, #[trigger] excludes[j])
}

/// The combinations that no exclude pattern matches, in order.
pub open spec fn drop_excluded(cs: Seq<Combo>, excludes: Seq<Combo>) -> Seq<Combo>
    decreases cs.len(),
{
    if cs.len() == 0 {
        Seq::empty()
    } else {
        let rest = drop_excluded(cs.drop_last(), excludes);
        if excluded(cs.last(), excludes) {
            rest
        } else {
            rest.push(cs.last())
        }
    }
}

/// An addition applies to a combination when each of its variables is
/// either unset there or set to the same value, and at least one is set.
pub open spec fn addition_applies(c: Combo, add: Combo) -> bool {
    &&& forall|i: int|
        0 <= i < add.len() ==> (obj_get(c, #[trigger] add[i].0) is None || obj_get(c, add[i].0)
            == Some(add[i].1))
    &&& exists|i: int| 0 <= i < add.len() && (obj_get(c, #[trigger] add[i].0) is Some)
}

/// The combination with the addition's variables set, where it applies.
pub open spec fn add_to(c: Combo, add: Combo) -> Combo {
    if addition_applies(c, add) {
        obj_fold(c, add)
    } else {
        c
    }
}

/// One addition: merged into every combination it applies to, or appended
/// as a combination of its own when it applies to none.
pub open spec fn apply_addition(cs: Seq<Combo>, add: Combo) -> Seq<Combo> {
    let updated = cs.map_values(|c: Combo| add_to(c, add));
    if exists|i: int| 0 <= i < cs.len() && addition_applies(#[trigger] cs[i], add) {
        updated
    } else {
        updated.push(add)
    }
}

/// The additions taken in order.
pub open spec fn apply_additions(cs: Seq<Combo>, adds: Seq<Combo>) -> Seq<Combo>
    decreases adds.len(),
{
    if adds.len() == 0 {
        cs
    } else {
        apply_addition(apply_additions(cs, adds.drop_last()), adds.last())
    }
}

/// The job runs of a matrix: the cartesian product of its dimensions, less
/// the excluded combinations, with the additions applied.
pub open spec fn matrix_expansion(
    dims: Combo,
    exclude: Option<Seq<Combo>>,
    additions: Option<Seq<Combo>>,
) -> Seq<Combo> {
    let base = cartesian(dimension_list(dims));
    let kept = match exclude {
        Some(ex) => drop_excluded(base, ex),
        None => base,
    };
    match additions {
        Some(adds) => apply_additions(kept, adds),
        None => kept,
    }
}

fn dimension_values_of(v: &Value) -> (r: Vec<Value>)
    ensures
        values_view(r@) == dimension_values(v@),
{
    match v {
        Value::Array(items) => {
            let mut out: Vec<Value> = Vec::new();
            let mut i: usize = 0;
            while i < items.len()
                invariant
                    i <= items@.len(),
                    values_view(out@) == values_view(items@).take(i as int),
                decreases items@.len() - i,
            {
                let x = items[i].copy();
                let ghost prev = out@;
                let ghost xv = x@;
                out.push(x);
                assert(values_view(out@) =~= values_view(prev).push(xv));
                assert(values_view(items@).take(i + 1) =~= values_view(items@).take(i as int).push(
                    items@[i as int]@,
                ));
                i += 1;
            }
            proof {
                crate::value::lemma_array_view(*items);
                assert(values_view(items@).take(i as int) =~= values_view(items@));
            }
            out
        },
        _ => {
            let mut out: Vec<Value> = Vec::new();
            out.push(v.copy());
            assert(values_view(out@) =~= seq![v@]);
            out
        },
    }
}

/// The combination `c` extended by each value in turn.
fn extend_one(c: &ObjectMap, key: &String, vals: &Vec<Value>) -> (r: Vec<ObjectMap>)
    ensures
        maps_view(r@) == values_view(vals@).map_values(|v: SpecValue| obj_insert(c@, key@, v)),
{
    let mut out: Vec<ObjectMap> = Vec::new();
    let mut j: usize = 0;
    while j < vals.len()
        invariant
            j <= vals@.len(),
            maps_view(out@) == values_view(vals@).take(j as int).map_values(
                |v: SpecValue| obj_insert(c@, key@, v),
            ),
        decreases vals@.len() - j,
    {
        let mut m = c.copy();
        m.insert(key.clone(), vals[j].copy());
        let ghost prev = out@;
        let ghost mv = m@;
        out.push(m);
        assert(maps_view(out@) =~= maps_view(prev).push(mv));
        assert(values_view(vals@).take(j + 1) =~= values_view(vals@).take(j as int).push(
            vals@[j as int]@,
        ));
        assert(maps_view(out@) =~= values_view(vals@).take(j + 1).map_values(
            |v: SpecValue| obj_insert(c@, key@, v),
        ));
        j += 1;
    }
    assert(values_view(vals@).take(j as int) =~= values_view(vals@));
    out
}

/// `extend_combos` on concrete maps.
fn extend_all(cs: &Vec<ObjectMap>, key: &String, vals: &Vec<Value>) -> (r: Vec<ObjectMap>)
    ensures
        maps_view(r@) == extend_combos(maps_view(cs@), key@, values_view(vals@)),
{
    let mut out: Vec<ObjectMap> = Vec::new();
    let mut a: usize = 0;
    while a < cs.len()
        invariant
            a <= cs@.len(),
            maps_view(out@) == extend_combos(maps_view(cs@).take(a as int), key@, values_view(vals@)),
        decreases cs@.len() - a,
    {
        let mut more = extend_one(&cs[a], key, vals);
        let ghost before = out@;
        let ghost added = more@;
        out.append(&mut more);
        proof {
            let t = maps_view(cs@).take(a + 1);
            assert(t.drop_last() =~= maps_view(cs@).take(a as int));
            assert(t.last() == cs@[a as int]@);
            assert(maps_view(out@) =~= maps_view(before) + maps_view(added));
        }
        a += 1;
    }
    assert(maps_view(cs@).take(a as int) =~= maps_view(cs@));
    out
}

/// Whether every variable of the pattern is set to the same value in the
/// combination (`matches_pattern`).
fn combo_matches(c: &ObjectMap, pat: &ObjectMap) -> (r: bool)
    ensures
        r == matches_pattern(c@, pat@),
{
    let mut i: usize = 0;
    while i < pat.len()
        invariant
            i <= pat@.len(),
            forall|k: int| 0 <= k < i ==> obj_get(c@, #[trigger] pat@[k].0) == Some(pat@[k].1),
        decreases pat@.len() - i,
    {
        let ok = match c.get(pat.key_at(i).as_str()) {
            Some(v) => v.same_as(pat.value_at(i)),
            None => false,
        };
        if !ok {
            assert(obj_get(c@, pat@[i as int].0) != Some(pat@[i as int].1));
            return false;
        }
        i += 1;
    }
    true
}

/// Whether some exclude pattern matches the combination (`excluded`).
fn is_excluded(c: &ObjectMap, excludes: &Vec<ObjectMap>) -> (r: bool)
    ensures
        r == excluded(c@, maps_view(excludes@)),
{
    let ghost ex = maps_view(excludes@);
    let mut j: usize = 0;
    while j < excludes.len()
        invariant
            j <= excludes@.len(),
            ex == maps_view(excludes@),
            forall|k: int| 0 <= k < j ==> !matches_pattern(c@, #[trigger] ex[k]),
        decreases excludes@.len() - j,
    {
        if combo_matches(c, &excludes[j]) {
            assert(matches_pattern(c@, ex[j as int]));
            return true;
        }
        j += 1;
    }
    false
}

/// The combinations no exclude pattern matches (`drop_excluded`).
fn without_excluded(cs: &Vec<ObjectMap>, excludes: &Vec<ObjectMap>) -> (r: Vec<ObjectMap>)
    ensures
        maps_view(r@) == drop_excluded(maps_view(cs@), maps_view(excludes@)),
{
    let mut out: Vec<ObjectMap> = Vec::new();
    let mut i: usize = 0;
    while i < cs.len()
        invariant
            i <= cs@.len(),
            maps_view(out@) == drop_excluded(maps_view(cs@).take(i as int), maps_view(excludes@)),
        decreases cs@.len() - i,
    {
        let ghost t = maps_view(cs@).take(i + 1);
        assert(t.drop_last() =~= maps_view(cs@).take(i as int));
        assert(t.last() == cs@[i as int]@);
        if !is_excluded(&cs[i], excludes) {
            let m = cs[i].copy();
            let ghost prev = out@;
            let ghost mv = m@;
            out.push(m);
            assert(maps_view(out@) =~= maps_view(prev).push(mv));
        }
        i += 1;
    }
    assert(maps_view(cs@).take(i as int) =~= maps_view(cs@));
    out
}

/// Whether the addition applies to the combination (`addition_applies`).
fn applies_to(c: &ObjectMap, add: &ObjectMap) -> (r: bool)
    ensures
        r == addition_applies(c@, add@),
{
    let mut consistent = true;
    let mut shared = false;
    let mut i: usize = 0;
    while i < add.len()
        invariant
            i <= add@.len(),
            consistent == forall|k: int|
                0 <= k < i ==> (obj_get(c@, #[trigger] add@[k].0) is None || obj_get(c@, add@[k].0)
                    == Some(add@[k].1)),
            shared == exists|k: int| 0 <= k < i && (obj_get(c@, #[trigger] add@[k].0) is Some),
        decreases add@.len() - i,
    {
        let ghost g = obj_get(c@, add@[i as int].0);
        match c.get(add.key_at(i).as_str()) {
            Some(v) => {
                shared = true;
                if !v.same_as(add.value_at(i)) {
                    consistent = false;
                }
            },
            None => {},
        }
        proof {
            if g is Some {
                assert(exists|k: int| 0 <= k < i + 1 && (obj_get(c@, #[trigger] add@[k].0) is Some));
            }
            if !consistent {
                assert(!(obj_get(c@, add@[i as int].0) is None || obj_get(c@, add@[i as int].0)
                    == Some(add@[i as int].1)) || !(forall|k: int|
                    0 <= k < i ==> (obj_get(c@, #[trigger] add@[k].0) is None || obj_get(c@, add@[k].0)
                        == Some(add@[k].1))));
            }
        }
        i += 1;
    }
    consistent && shared
}

/// The combination with all the variables of the addition set
/// (`obj_fold`).
fn merged(c: &ObjectMap, add: &ObjectMap) -> (r: ObjectMap)
    ensures
        r@ == obj_fold(c@, add@),
{
    let mut m = c.copy();
    let mut i: usize = 0;
    while i < add.len()
        invariant
            i <= add@.len(),
            m@ == obj_fold(c@, add@.take(i as int)),
        decreases add@.len() - i,
    {
        m.insert(add.key_at(i).clone(), add.value_at(i).copy());
        assert(add@.take(i + 1).drop_last() =~= add@.take(i as int));
        i += 1;
    }
    assert(add@.take(i as int) =~= add@);
    m
}

/// One addition applied to the combinations (`apply_addition`).
fn with_addition(cs: &Vec<ObjectMap>, add: &ObjectMap) -> (r: Vec<ObjectMap>)
    ensures
        maps_view(r@) == apply_addition(maps_view(cs@), add@),
{
    let ghost cv = maps_view(cs@);
    let mut out: Vec<ObjectMap> = Vec::new();
    let mut matched = false;
    let mut i: usize = 0;
    while i < cs.len()
        invariant
            i <= cs@.len(),
            cv == maps_view(cs@),
            maps_view(out@) == cv.take(i as int).map_values(|c: Combo| add_to(c, add@)),
            matched == exists|k: int| 0 <= k < i && addition_applies(#[trigger] cv[k], add@),
        decreases cs@.len() - i,
    {
        let m = if applies_to(&cs[i], add) {
            matched = true;
            merged(&cs[i], add)
        } else {
            cs[i].copy()
        };
        assert(m@ == add_to(cv[i as int], add@));
        let ghost prev = out@;
        let ghost mv = m@;
        out.push(m);
        assert(maps_view(out@) =~= maps_view(prev).push(mv));
        assert(cv.take(i + 1) =~= cv.take(i as int).push(cv[i as int]));
        assert(maps_view(out@) =~= cv.take(i + 1).map_values(|c: Combo| add_to(c, add@)));
        i += 1;
    }
    assert(cv.take(i as int) =~= cv);
    if !matched {
        let m = add.copy();
        let ghost prev = out@;
        let ghost mv = m@;
        out.push(m);
        assert(maps_view(out@) =~= maps_view(prev).push(mv));
    }
    out
}

/// Expands a matrix strategy into its job runs (`matrix_expansion`):
/// dimensions in key order, the last varying fastest.
pub fn expand_matrix(matrix: &Matrix) -> (r: Vec<ObjectMap>)
    ensures
        maps_view(r@) == matrix_expansion(
            matrix.dimensions@,
            opt_maps_view(matrix.exclude),
            opt_maps_view(matrix.additions),
        ),
{
    let dims = &matrix.dimensions;
    let mut combos: Vec<ObjectMap> = Vec::new();
    combos.push(ObjectMap::new());
    assert(maps_view(combos@) =~= seq![Seq::<(Seq<char>, SpecValue)>::empty()]);
    let ghost es = dims@;
    let mut i: usize = 0;
    while i < dims.len()
        invariant
            i <= es.len(),
            es == dims@,
            maps_view(combos@) == cartesian(dimension_list(es.take(i as int))),
        decreases es.len() - i,
    {
        let vals = dimension_values_of(dims.value_at(i));
        let ghost t = es.take(i + 1);
        assert(t.drop_last() =~= es.take(i as int));
        assert(t.last() == es[i as int]);
        let ghost rest = dimension_list(es.take(i as int));
        assert(dimension_list(t) == (if values_view(vals@).len() == 0 {
            rest
        } else {
            rest.push((es[i as int].0, values_view(vals@)))
        }));
        if vals.len() > 0 {
            let key = dims.key_at(i).clone();
            combos = extend_all(&combos, &key, &vals);
            assert(rest.push((key@, values_view(vals@))).drop_last() =~= rest);
        }
        i += 1;
    }
    assert(es.take(i as int) =~= es);
    let kept = match &matrix.exclude {
        Some(ex) => without_excluded(&combos, ex),
        None => combos,
    };
    match &matrix.additions {
        Some(adds) => {
            let ghost av = maps_view(adds@);
            let mut cur = kept;
            let mut t: usize = 0;
            while t < adds.len()
                invariant
                    t <= adds@.len(),
                    av == maps_view(adds@),
                    maps_view(cur@) == apply_additions(maps_view(kept@), av.take(t as int)),
                decreases adds@.len() - t,
            {
                cur = with_addition(&cur, &adds[t]);
                assert(av.take(t + 1).drop_last() =~= av.take(t as int));
                t += 1;
            }
            assert(av.take(t as int) =~= av);
            cur
        },
        None => kept,
    }
}

/// How a matrix value shows in a label: a string as it is, anything else
/// as compact JSON with numbers as written.
pub open spec fn shown_value(v: SpecValue) -> Seq<char> {
    match v {
        SpecValue::Str(t) => t,
        _ => json_text(v, true),
    }
}

/// `name: value` for one variable.
pub open spec fn part_text(e: (Seq<char>, SpecValue)) -> Seq<char> {
    e.0 + seq![':', ' '] + shown_value(e.1)
}

/// `x` inserted into a sorted list after every text not greater than it.
pub open spec fn insert_text(s: Seq<Seq<char>>, x: Seq<char>) -> Seq<Seq<char>>
    decreases s.len(),
{
    if s.len() == 0 {
        seq![x]
    } else if str_lt(x, s[0]) {
        seq![x] + s
    } else {
        seq![s[0]] + insert_text(s.drop_first(), x)
    }
}

/// The texts in ascending order.
pub open spec fn sort_texts(s: Seq<Seq<char>>) -> Seq<Seq<char>>
    decreases s.len(),
{
    if s.len() == 0 {
        Seq::empty()
    } else {
        insert_text(sort_texts(s.drop_last()), s.last())
    }
}

/// The label of a combination: empty when it sets nothing, otherwise
/// ` (` then its `name: value` parts in ascending order, joined with `, `,
/// then `)`.
pub open spec fn combo_label(c: Combo) -> Seq<char> {
    if c.len() == 0 {
        Seq::empty()
    } else {
        seq![' ', '('] + join_texts(sort_texts(c.map_values(|e: (Seq<char>, SpecValue)| part_text(e))), seq![',', ' '])
            + seq![')']
    }
}

fn shown(v: &Value) -> (r: String)
    ensures
        r@ == shown_value(v@),
{
    match v {
        Value::String(t) => t.clone(),
        _ => to_plain_json(v),
    }
}

/// The texts sorted ascending (`sort_texts`).
fn sorted_texts(v: &Vec<String>) -> (r: Vec<String>)
    ensures
        r@.map_values(|t: String| t@) == sort_texts(v@.map_values(|t: String| t@)),
{
    let ghost sv = v@.map_values(|t: String| t@);
    let mut out: Vec<String> = Vec::new();
    let mut i: usize = 0;
    while i < v.len()
        invariant
            i <= v@.len(),
            sv == v@.map_values(|t: String| t@),
            out@.map_values(|t: String| t@) == sort_texts(sv.take(i as int)),
        decreases v@.len() - i,
    {
        let x = v[i].clone();
        let ghost before = out@.map_values(|t: String| t@);
        assert(sv.take(i + 1).drop_last() =~= sv.take(i as int));
        assert(sv.take(i + 1).last() == x@);
        let mut pos: usize = 0;
        assert(before.skip(0) =~= before);
        assert(before.take(0) =~= Seq::<Seq<char>>::empty());
        while pos < out.len() && !string_less(&x, &out[pos])
            invariant
                pos <= out@.len(),
                before == out@.map_values(|t: String| t@),
                insert_text(before, x@) == before.take(pos as int) + insert_text(
                    before.skip(pos as int),
                    x@,
                ),
            decreases out@.len() - pos,
        {
            proof {
                assert(before.skip(pos as int)[0] == before[pos as int]);
                assert(before.skip(pos as int).drop_first() =~= before.skip(pos + 1));
                assert(before.take(pos + 1) =~= before.take(pos as int).push(before[pos as int]));
                assert(before.take(pos as int) + insert_text(before.skip(pos as int), x@)
                    =~= before.take(pos + 1) + insert_text(before.skip(pos + 1), x@));
            }
            pos += 1;
        }
        proof {
            if pos < out@.len() {
                assert(before.skip(pos as int)[0] == before[pos as int]);
            } else {
                assert(before.skip(pos as int) =~= Seq::<Seq<char>>::empty());
            }
        }
        let ghost xv = x@;
        out.insert(pos, x);
        assert(out@.map_values(|t: String| t@) =~= before.take(pos as int) + insert_text(
            before.skip(pos as int),
            xv,
        ));
        i += 1;
    }
    assert(sv.take(i as int) =~= sv);
    out
}

/// The label of a combination as shown after a job's name
/// (`combo_label`), such as ` (node: 18, os: ubuntu)`.
pub fn format_matrix_combo(combo: &ObjectMap) -> (r: String)
    ensures
        r@ == combo_label(combo@),
{
    if combo.is_empty() {
        return String::new();
    }
    let ghost es = combo@;
    let ghost pv = es.map_values(|e: (Seq<char>, SpecValue)| part_text(e));
    let mut parts: Vec<String> = Vec::new();
    let mut i: usize = 0;
    while i < combo.len()
        invariant
            i <= es.len(),
            es == combo@,
            pv == es.map_values(|e: (Seq<char>, SpecValue)| part_text(e)),
            parts@.map_values(|t: String| t@) == pv.take(i as int),
        decreases es.len() - i,
    {
        let mut p = combo.key_at(i).clone();
        push_str(&mut p, ": ");
        let sv = shown(combo.value_at(i));
        push_str(&mut p, sv.as_str());
        proof {
            reveal_strlit(": ");
        }
        assert(p@ == part_text(es[i as int]));
        let ghost prev = parts@.map_values(|t: String| t@);
        let ghost p_v = p@;
        parts.push(p);
        assert(parts@.map_values(|t: String| t@) =~= prev.push(p_v));
        assert(pv.take(i + 1) =~= pv.take(i as int).push(pv[i as int]));
        i += 1;
    }
    assert(pv.take(i as int) =~= pv);
    let sorted = sorted_texts(&parts);
    let ghost sv = sorted@.map_values(|t: String| t@);
    let mut out = String::new();
    push_str(&mut out, " (");
    proof {
        reveal_strlit(" (");
        reveal_strlit(", ");
        reveal_strlit(")");
    }
    let ghost head = out@;
    assert(head == seq![' ', '(']);
    let mut j: usize = 0;
    while j < sorted.len()
        invariant
            j <= sorted@.len(),
            sv == sorted@.map_values(|t: String| t@),
            out@ == head + join_texts(sv.take(j as int), seq![',', ' ']),
        decreases sorted@.len() - j,
    {
        assert(sv.take(j + 1).drop_last() =~= sv.take(j as int));
        assert(sv.take(j + 1).last() == sorted@[j as int]@);
        let ghost before = out@;
        if j > 0 {
            push_str(&mut out, ", ");
        }
        push_str(&mut out, sorted[j].as_str());
        proof {
            reveal_strlit(", ");
            let prefix = join_texts(sv.take(j as int), seq![',', ' ']);
            if j == 0 {
                assert(sv.take(1) =~= seq![sv[0]]);
                assert(out@ =~= head + join_texts(sv.take(j + 1), seq![',', ' ']));
            } else {
                assert(join_texts(sv.take(j + 1), seq![',', ' ']) == prefix + seq![',', ' ']
                    + sorted@[j as int]@);
                assert(out@ =~= head + join_texts(sv.take(j + 1), seq![',', ' ']));
            }
        }
        j += 1;
    }
    assert(sv.take(j as int) =~= sv);
    push_str(&mut out, ")");
    out
}

/// The number of combinations of the dimensions: the product of the
/// numbers of values.
pub open spec fn dimension_product(ds: Seq<(Seq<char>, Seq<SpecValue>)>) -> nat
    decreases ds.len(),
{
    if ds.len() == 0 {
        1
    } else {
        dimension_product(ds.drop_last()) * ds.last().1.len()
    }
}

proof fn lemma_extend_len(cs: Seq<Combo>, key: Seq<char>, vals: Seq<SpecValue>)
    ensures
        extend_combos(cs, key, vals).len() == cs.len() * vals.len(),
    decreases cs.len(),
{
    if cs.len() > 0 {
        lemma_extend_len(cs.drop_last(), key, vals);
        let n = cs.len() as int;
        let m = vals.len() as int;
        assert((n - 1) * m + m == n * m) by (nonlinear_arith);
    }
}

/// A matrix with neither excludes nor additions has one run per element of
/// the cartesian product: as many as the product of the numbers of values
/// of its dimensions.
pub proof fn law_run_count(dims: Combo)
    ensures
        matrix_expansion(dims, None, None).len() == dimension_product(dimension_list(dims)),
{
    lemma_cartesian_len(dimension_list(dims));
}

proof fn lemma_cartesian_len(ds: Seq<(Seq<char>, Seq<SpecValue>)>)
    ensures
        cartesian(ds).len() == dimension_product(ds),
    decreases ds.len(),
{
    if ds.len() > 0 {
        lemma_cartesian_len(ds.drop_last());
        lemma_extend_len(cartesian(ds.drop_last()), ds.last().0, ds.last().1);
    }
}

/// No combination left after the excludes matches an exclude pattern, and
/// every one left was a combination before.
pub proof fn law_excluded_runs_dropped(cs: Seq<Combo>, excludes: Seq<Combo>)
    ensures
        forall|i: int|
            0 <= i < drop_excluded(cs, excludes).len() ==> !excluded(
                #[trigger] drop_excluded(cs, excludes)[i],
                excludes,
            ) && cs.contains(drop_excluded(cs, excludes)[i]),
    decreases cs.len(),
{
    if cs.len() > 0 {
        law_excluded_runs_dropped(cs.drop_last(), excludes);
        let rest = drop_excluded(cs.drop_last(), excludes);
        assert forall|i: int| 0 <= i < drop_excluded(cs, excludes).len() implies !excluded(
            #[trigger] drop_excluded(cs, excludes)[i],
            excludes,
        ) && cs.contains(drop_excluded(cs, excludes)[i]) by {
            if i < rest.len() {
                assert(drop_excluded(cs, excludes)[i] == rest[i]);
                let k = choose|k: int| 0 <= k < cs.drop_last().len() && cs.drop_last()[k] == rest[i];
                assert(cs[k] == rest[i]);
            } else {
                assert(drop_excluded(cs, excludes)[i] == cs.last());
                assert(cs[cs.len() - 1] == cs.last());
            }
        }
    }
}

/// An addition that applies to no combination adds one run of its own;
/// otherwise the number of runs stays the same.
pub proof fn law_addition_count(cs: Seq<Combo>, add: Combo)
    ensures
        apply_addition(cs, add).len() == cs.len() + (if exists|i: int|
            0 <= i < cs.len() && addition_applies(#[trigger] cs[i], add) {
            0int
        } else {
            1int
        }),
{
}

proof fn lemma_drop_excluded_holds(cs: Seq<Combo>, excludes: Seq<Combo>, c: Combo)
    ensures
        drop_excluded(cs, excludes).contains(c) <==> (cs.contains(c) && !excluded(c, excludes)),
    decreases cs.len(),
{
    if cs.len() > 0 {
        lemma_drop_excluded_holds(cs.drop_last(), excludes, c);
        assert(cs =~= cs.drop_last().push(cs.last()));
        if cs.contains(c) && c != cs.last() {
            let k = choose|k: int| 0 <= k < cs.len() && cs[k] == c;
            assert(cs.drop_last()[k] == c);
        }
        if cs.drop_last().contains(c) {
            let k = choose|k: int| 0 <= k < cs.drop_last().len() && cs.drop_last()[k] == c;
            assert(cs[k] == c);
        }
        let rest = drop_excluded(cs.drop_last(), excludes);
        if !excluded(cs.last(), excludes) {
            assert(rest.push(cs.last())[rest.len() as int] == cs.last());
            if rest.contains(c) {
                let k = choose|k: int| 0 <= k < rest.len() && rest[k] == c;
                assert(rest.push(cs.last())[k] == c);
            }
            if rest.push(cs.last()).contains(c) && c != cs.last() {
                let k = choose|k: int| 0 <= k < rest.len() + 1 && rest.push(cs.last())[k] == c;
                assert(rest[k] == c);
            }
        }
    }
}

/// Without additions, the runs of a matrix are the combinations of its
/// dimensions that no exclude pattern matches: an excluded combination is
/// never a run, and every other one is.
pub proof fn law_excludes_filter_the_product(dims: Combo, excludes: Seq<Combo>, c: Combo)
    ensures
        matrix_expansion(dims, Some(excludes), None).contains(c) <==> (cartesian(dimension_list(dims)).contains(c)
            && !excluded(c, excludes)),
        matrix_expansion(dims, Some(excludes), Some(Seq::empty())) == matrix_expansion(
            dims,
            Some(excludes),
            None,
        ),
{
    lemma_drop_excluded_holds(cartesian(dimension_list(dims)), excludes, c);
}

/// Additions act after the excludes, one at a time, on the runs the
/// earlier steps gave: a further addition is merged into each run it
/// applies to, and when it applies to none it becomes a run of its own at
/// the end, whether or not an exclude pattern matches it.
pub proof fn law_additions_follow_excludes(
    dims: Combo,
    exclude: Option<Seq<Combo>>,
    adds: Seq<Combo>,
    add: Combo,
)
    ensures
        ({
            let before = matrix_expansion(dims, exclude, Some(adds));
            let after = matrix_expansion(dims, exclude, Some(adds.push(add)));
            &&& (forall|i: int| 0 <= i < before.len() ==> !addition_applies(#[trigger] before[i], add))
                ==> after == before.push(add)
            &&& (exists|i: int| 0 <= i < before.len() && addition_applies(#[trigger] before[i], add))
                ==> (after.len() == before.len() && forall|i: int|
                0 <= i < before.len() ==> #[trigger] after[i] == if addition_applies(before[i], add) {
                    obj_fold(before[i], add)
                } else {
                    before[i]
                })
        }),
{
    let base = cartesian(dimension_list(dims));
    let kept = match exclude {
        Some(ex) => drop_excluded(base, ex),
        None => base,
    };
    assert(adds.push(add).drop_last() =~= adds);
    let before = apply_additions(kept, adds);
    assert(matrix_expansion(dims, exclude, Some(adds)) == before);
    let updated = before.map_values(|c: Combo| add_to(c, add));
    if forall|i: int| 0 <= i < before.len() ==> !addition_applies(#[trigger] before[i], add) {
        assert(updated =~= before);
    }
}

} // verus!
