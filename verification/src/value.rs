//! Runtime values of the expression language and their coercions.
use crate::number::{
    json_number_text, num_eq, number_text, one, parse_number_text, spec_zero, string_number,
    zero, Number, SpecNumber,
};
use crate::text::{lowercase_of, push_char, push_str, str_eq, to_lowercase, chars_of};
use crate::strmap::{keys_distinct, map_of};
use vstd::prelude::*;
use vstd::string::*;

verus! {

/// A value of the expression language (JSON-like).
#[derive(Debug)]
pub enum Value {
    Null,
    Bool(bool),
    Number(Number),
    String(String),
    Array(Vec<Value>),
    Object(ObjectMap),
}

/// A map from strings to values, kept in ascending key order with no key
/// twice (the order in which its entries are walked).
#[derive(Debug)]
pub struct ObjectMap {
    entries: Vec<(String, Value)>,
}

pub ghost enum SpecValue {
    Null,
    Bool(bool),
    Num(SpecNumber),
    Str(Seq<char>),
    Array(Seq<SpecValue>),
    Object(Seq<(Seq<char>, SpecValue)>),
}

pub open spec fn value_view(v: Value) -> SpecValue
    decreases v,
{
    match v {
        Value::Null => SpecValue::Null,
        Value::Bool(b) => SpecValue::Bool(b),
        Value::Number(n) => SpecValue::Num(n@),
        Value::String(s) => SpecValue::Str(s@),
        Value::Array(a) => SpecValue::Array(
            Seq::new(
                a@.len(),
                |i: int|
                    if 0 <= i < a@.len() {
                        value_view(a@[i])
                    } else {
                        SpecValue::Null
                    },
            ),
        ),
        Value::Object(m) => SpecValue::Object(entries_view(m)),
    }
}

pub closed spec fn entries_view(m: ObjectMap) -> Seq<(Seq<char>, SpecValue)>
    decreases m,
{
    Seq::new(
        m.entries@.len(),
        |i: int|
            if 0 <= i < m.entries@.len() {
                (m.entries@[i].0@, value_view(m.entries@[i].1))
            } else {
                (Seq::empty(), SpecValue::Null)
            },
    )
}

/// The form of an array is the forms of its elements.
pub proof fn lemma_array_view(items: Vec<Value>)
    ensures
        value_view(Value::Array(items)) == SpecValue::Array(items@.map_values(|x: Value| x@)),
{
    let v = value_view(Value::Array(items));
    if let SpecValue::Array(xs) = v {
        assert forall|i: int| 0 <= i < xs.len() implies xs[i] == items@.map_values(
            |x: Value| x@,
        )[i] by {
            assert(xs[i] == value_view(items@[i]));
        }
        assert(xs =~= items@.map_values(|x: Value| x@));
    }
}

impl View for Value {
    type V = SpecValue;

    open spec fn view(&self) -> SpecValue {
        value_view(*self)
    }
}

impl View for ObjectMap {
    type V = Seq<(Seq<char>, SpecValue)>;

    open spec fn view(&self) -> Seq<(Seq<char>, SpecValue)> {
        entries_view(*self)
    }
}

/// Lexicographic order of strings by code point from position `i` on.
pub open spec fn str_lt_from(a: Seq<char>, b: Seq<char>, i: int) -> bool
    decreases a.len() - i,
{
    if i < 0 {
        false
    } else if i >= a.len() {
        i < b.len()
    } else if i >= b.len() {
        false
    } else if a[i] < b[i] {
        true
    } else if a[i] > b[i] {
        false
    } else {
        str_lt_from(a, b, i + 1)
    }
}

/// `a < b` in the order of Rust strings.
pub open spec fn str_lt(a: Seq<char>, b: Seq<char>) -> bool {
    str_lt_from(a, b, 0)
}

pub proof fn lemma_str_lt_irreflexive(a: Seq<char>, i: int)
    requires
        0 <= i,
    ensures
        !str_lt_from(a, a, i),
    decreases a.len() - i,
{
    if i < a.len() {
        lemma_str_lt_irreflexive(a, i + 1);
    }
}

pub proof fn lemma_str_lt_total(a: Seq<char>, b: Seq<char>, i: int)
    requires
        0 <= i <= a.len(),
        i <= b.len(),
        a.take(i) == b.take(i),
    ensures
        a == b || str_lt_from(a, b, i) || str_lt_from(b, a, i),
        !(str_lt_from(a, b, i) && str_lt_from(b, a, i)),
    decreases a.len() - i,
{
    if i < a.len() && i < b.len() && a[i] == b[i] {
        assert(a.take(i + 1) =~= a.take(i).push(a[i]));
        assert(b.take(i + 1) =~= b.take(i).push(b[i]));
        lemma_str_lt_total(a, b, i + 1);
    } else if i == a.len() && i == b.len() {
        assert(a =~= a.take(i));
        assert(b =~= b.take(i));
    }
}

pub proof fn lemma_str_lt_trans(a: Seq<char>, b: Seq<char>, c: Seq<char>, i: int)
    requires
        0 <= i,
        str_lt_from(a, b, i),
        str_lt_from(b, c, i),
    ensures
        str_lt_from(a, c, i),
    decreases a.len() - i,
{
    if i < a.len() && i < b.len() && i < c.len() && a[i] == b[i] && b[i] == c[i] {
        lemma_str_lt_trans(a, b, c, i + 1);
    }
}

/// Keys strictly ascending.
pub open spec fn keys_sorted(es: Seq<(Seq<char>, SpecValue)>) -> bool {
    forall|i: int, j: int| 0 <= i < j < es.len() ==> str_lt(#[trigger] es[i].0, #[trigger] es[j].0)
}

/// The value stored under `key`.
pub open spec fn obj_get(es: Seq<(Seq<char>, SpecValue)>, key: Seq<char>) -> Option<SpecValue>
    decreases es.len(),
{
    if es.len() == 0 {
        None
    } else if es[0].0 == key {
        Some(es[0].1)
    } else {
        obj_get(es.drop_first(), key)
    }
}

pub proof fn lemma_obj_get_at(es: Seq<(Seq<char>, SpecValue)>, key: Seq<char>, k: int)
    requires
        0 <= k < es.len(),
        es[k].0 == key,
        forall|j: int| 0 <= j < k ==> es[j].0 != key,
    ensures
        obj_get(es, key) == Some(es[k].1),
    decreases k,
{
    if k > 0 {
        lemma_obj_get_at(es.drop_first(), key, k - 1);
    }
}

pub proof fn lemma_obj_get_none(es: Seq<(Seq<char>, SpecValue)>, key: Seq<char>)
    requires
        forall|j: int| 0 <= j < es.len() ==> es[j].0 != key,
    ensures
        obj_get(es, key) is None,
    decreases es.len(),
{
    if es.len() > 0 {
        lemma_obj_get_none(es.drop_first(), key);
    }
}

/// The entries after setting `key` to `v`: replaced in place when present,
/// otherwise inserted at its place in key order.
pub open spec fn obj_insert(es: Seq<(Seq<char>, SpecValue)>, key: Seq<char>, v: SpecValue) -> Seq<
    (Seq<char>, SpecValue),
>
    decreases es.len(),
{
    if es.len() == 0 {
        seq![(key, v)]
    } else if es[0].0 == key {
        es.update(0, (key, v))
    } else if str_lt(key, es[0].0) {
        seq![(key, v)] + es
    } else {
        seq![es[0]] + obj_insert(es.drop_first(), key, v)
    }
}

/// `es` with each pair of `ps` set in turn (`obj_insert`).
pub open spec fn obj_fold(es: Seq<(Seq<char>, SpecValue)>, ps: Seq<(Seq<char>, SpecValue)>) -> Seq<
    (Seq<char>, SpecValue),
>
    decreases ps.len(),
{
    if ps.len() == 0 {
        es
    } else {
        obj_insert(obj_fold(es, ps.drop_last()), ps.last().0, ps.last().1)
    }
}

/// The views of a list of key and value pairs.
pub open spec fn member_pairs_view(v: Seq<(String, Value)>) -> Seq<(Seq<char>, SpecValue)> {
    v.map_values(|p: (String, Value)| (p.0@, p.1@))
}

pub fn string_less(a: &String, b: &String) -> (r: bool)
    ensures
        r == str_lt(a@, b@),
{
    let x = chars_of(a.as_str());
    let y = chars_of(b.as_str());
    let mut i: usize = 0;
    while i < x.len() && i < y.len() && x[i] == y[i]
        invariant
            i <= x@.len(),
            i <= y@.len(),
            x@ == a@,
            y@ == b@,
            str_lt(a@, b@) == str_lt_from(x@, y@, i as int),
        decreases x@.len() - i,
    {
        i += 1;
    }
    if i >= x.len() {
        i < y.len()
    } else if i >= y.len() {
        false
    } else {
        x[i] < y[i]
    }
}

impl ObjectMap {
    #[verifier::type_invariant]
    closed spec fn inv(self) -> bool {
        keys_sorted(entries_view(self))
    }

    /// The empty map.
    pub fn new() -> (m: ObjectMap)
        ensures
            m@ == Seq::<(Seq<char>, SpecValue)>::empty(),
    {
        let m = ObjectMap { entries: Vec::new() };
        assert(entries_view(m) =~= Seq::<(Seq<char>, SpecValue)>::empty());
        m
    }

    /// Keys are in ascending order and unique.
    pub fn sorted(&self)
        ensures
            keys_sorted(self@),
    {
        proof {
            use_type_invariant(self);
        }
    }

    pub fn len(&self) -> (n: usize)
        ensures
            n == self@.len(),
    {
        self.entries.len()
    }

    pub fn is_empty(&self) -> (b: bool)
        ensures
            b == (self@.len() == 0),
    {
        self.entries.len() == 0
    }

    /// The key of entry `i`.
    pub fn key_at(&self, i: usize) -> (k: &String)
        requires
            i < self@.len(),
        ensures
            k@ == self@[i as int].0,
    {
        &self.entries[i].0
    }

    /// The value of entry `i`.
    pub fn value_at(&self, i: usize) -> (v: &Value)
        requires
            i < self@.len(),
        ensures
            v@ == self@[i as int].1,
    {
        &self.entries[i].1
    }

    /// The value stored under `key`, if any.
    pub fn get(&self, key: &str) -> (r: Option<&Value>)
        ensures
            match r {
                Some(v) => obj_get(self@, key@) == Some(v@),
                None => obj_get(self@, key@) is None,
            },
    {
        let mut i: usize = 0;
        while i < self.entries.len()
            invariant
                i <= self@.len(),
                self@.len() == self.entries@.len(),
                forall|j: int| 0 <= j < i ==> self@[j].0 != key@,
            decreases self@.len() - i,
        {
            if str_eq(self.entries[i].0.as_str(), key) {
                proof {
                    lemma_obj_get_at(self@, key@, i as int);
                }
                return Some(&self.entries[i].1);
            }
            i += 1;
        }
        proof {
            lemma_obj_get_none(self@, key@);
        }
        None
    }

    /// Sets `key` to `value` (`obj_insert`).
    pub fn insert(&mut self, key: String, value: Value)
        ensures
            final(self)@ == obj_insert(old(self)@, key@, value@),
    {
        proof {
            use_type_invariant(&*self);
        }
        let ghost old_es = self@;
        let n = self.entries.len();
        let mut i: usize = 0;
        while i < n && string_less(&self.entries[i].0, &key)
            invariant
                i <= n == old_es.len(),
                old_es == entries_view(*self),
                keys_sorted(old_es),
                forall|j: int| 0 <= j < i ==> str_lt(#[trigger] old_es[j].0, key@),
            decreases n - i,
        {
            i += 1;
        }
        let ghost kv = (key@, value@);
        proof {
            lemma_insert_shape(old_es, key@, value@, i as int);
        }
        let same = i < n && str_eq(self.entries[i].0.as_str(), key.as_str());
        let mut v: Vec<(String, Value)> = Vec::new();
        std::mem::swap(&mut v, &mut self.entries);
        let ghost before = v@;
        if same {
            v.set(i, (key, value));
            proof {
                let m = ObjectMap { entries: v };
                assert(entries_view(m) =~= old_es.update(i as int, kv)) by {
                    assert forall|j: int| 0 <= j < old_es.len() implies #[trigger] entries_view(
                        m,
                    )[j] == old_es.update(i as int, kv)[j] by {
                        if j != i {
                            assert(v@[j] == before[j]);
                        }
                    }
                }
            }
            self.entries = v;
        } else {
            v.insert(i, (key, value));
            proof {
                let m = ObjectMap { entries: v };
                assert(entries_view(m) =~= old_es.insert(i as int, kv)) by {
                    assert forall|j: int| 0 <= j < old_es.len() + 1 implies #[trigger] entries_view(
                        m,
                    )[j] == old_es.insert(i as int, kv)[j] by {
                        if j < i {
                            assert(v@[j] == before[j]);
                        } else if j > i {
                            assert(v@[j] == before[j - 1]);
                        }
                    }
                }
            }
            self.entries = v;
        }
    }
}

proof fn lemma_insert_shape(es: Seq<(Seq<char>, SpecValue)>, key: Seq<char>, v: SpecValue, i: int)
    requires
        0 <= i <= es.len(),
        keys_sorted(es),
        forall|j: int| 0 <= j < i ==> str_lt(#[trigger] es[j].0, key),
        i == es.len() || !str_lt(es[i].0, key),
    ensures
        i < es.len() && es[i].0 == key ==> obj_insert(es, key, v) == es.update(i, (key, v)),
        !(i < es.len() && es[i].0 == key) ==> obj_insert(es, key, v) == es.insert(i, (key, v)),
        keys_sorted(obj_insert(es, key, v)),
    decreases i,
{
    if i == 0 {
        if es.len() == 0 {
            assert(obj_insert(es, key, v) =~= es.insert(0, (key, v)));
        } else if es[0].0 == key {
        } else {
            assert(es[0].0.take(0) =~= key.take(0));
            lemma_str_lt_total(es[0].0, key, 0);
            assert(obj_insert(es, key, v) =~= es.insert(0, (key, v)));
        }
    } else {
        let e0 = es[0].0;
        lemma_str_lt_irreflexive(e0, 0);
        assert(e0.take(0) =~= key.take(0));
        lemma_str_lt_total(e0, key, 0);
        let rest = es.drop_first();
        assert forall|a: int, b: int| 0 <= a < b < rest.len() implies str_lt(
            #[trigger] rest[a].0,
            #[trigger] rest[b].0,
        ) by {
            assert(rest[a] == es[a + 1]);
            assert(rest[b] == es[b + 1]);
        }
        assert forall|j: int| 0 <= j < i - 1 implies str_lt(#[trigger] rest[j].0, key) by {
            assert(rest[j] == es[j + 1]);
        }
        lemma_insert_shape(rest, key, v, i - 1);
        if i < es.len() && es[i].0 == key {
            assert(obj_insert(es, key, v) =~= es.update(i, (key, v)));
        } else {
            assert(obj_insert(es, key, v) =~= es.insert(i, (key, v)));
        }
    }
    lemma_insert_sorted(es, key, v, i);
}

proof fn lemma_insert_sorted(es: Seq<(Seq<char>, SpecValue)>, key: Seq<char>, v: SpecValue, i: int)
    requires
        0 <= i <= es.len(),
        keys_sorted(es),
        forall|j: int| 0 <= j < i ==> str_lt(#[trigger] es[j].0, key),
        i == es.len() || !str_lt(es[i].0, key),
    ensures
        i < es.len() && es[i].0 == key ==> keys_sorted(es.update(i, (key, v))),
        !(i < es.len() && es[i].0 == key) ==> keys_sorted(es.insert(i, (key, v))),
{
    if i < es.len() && es[i].0 == key {
        let u = es.update(i, (key, v));
        assert forall|a: int, b: int| 0 <= a < b < u.len() implies str_lt(
            #[trigger] u[a].0,
            #[trigger] u[b].0,
        ) by {
            assert(u[a].0 == es[a].0);
            assert(u[b].0 == es[b].0);
        }
    } else {
        let u = es.insert(i, (key, v));
        if i < es.len() {
            assert(es[i].0.take(0) =~= key.take(0));
            lemma_str_lt_total(es[i].0, key, 0);
        }
        assert forall|a: int, b: int| 0 <= a < b < u.len() implies str_lt(
            #[trigger] u[a].0,
            #[trigger] u[b].0,
        ) by {
            if b < i {
                assert(u[a] == es[a] && u[b] == es[b]);
            } else if b == i {
                assert(u[a] == es[a]);
            } else if a == i {
                assert(u[b] == es[b - 1]);
                if b - 1 > i {
                    assert(str_lt(es[i].0, es[b - 1].0));
                    lemma_str_lt_trans(key, es[i].0, es[b - 1].0, 0);
                }
            } else if a < i {
                assert(u[a] == es[a] && u[b] == es[b - 1]);
                if b - 1 >= i && i < es.len() {
                    if b - 1 > i {
                        assert(str_lt(es[i].0, es[b - 1].0));
                        lemma_str_lt_trans(key, es[i].0, es[b - 1].0, 0);
                    }
                    lemma_str_lt_trans(es[a].0, key, es[b - 1].0, 0);
                }
            } else {
                assert(u[a] == es[a - 1] && u[b] == es[b - 1]);
            }
        }
    }
}


/// The key order of an object map, once stored, is kept by every later
/// insertion: setting a key makes it map to the new value and leaves every
/// other key's value as it was.
pub proof fn law_insert_then_get(es: Seq<(Seq<char>, SpecValue)>, key: Seq<char>, v: SpecValue, other: Seq<char>)
    requires
        keys_sorted(es),
    ensures
        obj_get(obj_insert(es, key, v), key) == Some(v),
        other != key ==> obj_get(obj_insert(es, key, v), other) == obj_get(es, other),
        keys_sorted(obj_insert(es, key, v)),
    decreases es.len(),
{
    if es.len() == 0 {
        assert(obj_insert(es, key, v).drop_first() =~= Seq::<(Seq<char>, SpecValue)>::empty());
        if other != key {
            assert(obj_get(obj_insert(es, key, v), other) == obj_get(
                Seq::<(Seq<char>, SpecValue)>::empty(),
                other,
            ));
        }
    } else if es[0].0 == key {
        assert(obj_insert(es, key, v).drop_first() =~= es.drop_first());
        if other != key {
            assert(obj_get(obj_insert(es, key, v), other) == obj_get(es.drop_first(), other));
        }
    } else if str_lt(key, es[0].0) {
        assert((seq![(key, v)] + es).drop_first() =~= es);
        if other != key {
            assert(obj_get(obj_insert(es, key, v), other) == obj_get(es, other));
        }
    } else {
        let rest = es.drop_first();
        assert forall|a: int, b: int| 0 <= a < b < rest.len() implies str_lt(
            #[trigger] rest[a].0,
            #[trigger] rest[b].0,
        ) by {
            assert(rest[a] == es[a + 1]);
            assert(rest[b] == es[b + 1]);
        }
        law_insert_then_get(rest, key, v, other);
        assert((seq![es[0]] + obj_insert(rest, key, v)).drop_first() =~= obj_insert(rest, key, v));
        if other != key {
            if es[0].0 == other {
                assert(obj_get(obj_insert(es, key, v), other) == Some(es[0].1));
            } else {
                assert(obj_get(obj_insert(es, key, v), other) == obj_get(
                    obj_insert(rest, key, v),
                    other,
                ));
            }
        }
    }
    law_insert_keeps_order(es, key, v);
}

proof fn law_insert_keeps_order(es: Seq<(Seq<char>, SpecValue)>, key: Seq<char>, v: SpecValue)
    requires
        keys_sorted(es),
    ensures
        keys_sorted(obj_insert(es, key, v)),
{
    let i = insert_position(es, key);
    lemma_insert_position(es, key);
    lemma_insert_shape(es, key, v, i);
}

spec fn insert_position(es: Seq<(Seq<char>, SpecValue)>, key: Seq<char>) -> int
    decreases es.len(),
{
    if es.len() == 0 || !str_lt(es[0].0, key) {
        0
    } else {
        1 + insert_position(es.drop_first(), key)
    }
}

proof fn lemma_insert_position(es: Seq<(Seq<char>, SpecValue)>, key: Seq<char>)
    ensures
        0 <= insert_position(es, key) <= es.len(),
        forall|j: int| 0 <= j < insert_position(es, key) ==> str_lt(#[trigger] es[j].0, key),
        insert_position(es, key) == es.len() || !str_lt(es[insert_position(es, key)].0, key),
    decreases es.len(),
{
    if es.len() > 0 && str_lt(es[0].0, key) {
        let rest = es.drop_first();
        lemma_insert_position(rest, key);
        assert forall|j: int| 0 <= j < insert_position(es, key) implies str_lt(
            #[trigger] es[j].0,
            key,
        ) by {
            if j > 0 {
                assert(es[j] == rest[j - 1]);
            }
        }
    }
}

/// Whether a value counts as true: everything but `null`, `false`, zero,
/// and the empty string (NaN is true).
pub open spec fn truthy(v: SpecValue) -> bool {
    match v {
        SpecValue::Null => false,
        SpecValue::Bool(b) => b,
        SpecValue::Num(n) => !(n matches SpecNumber::Finite(_, ds, _) && ds.len() == 0),
        SpecValue::Str(s) => s.len() > 0,
        _ => true,
    }
}

/// The number a value coerces to.
pub open spec fn value_number(v: SpecValue) -> SpecNumber {
    match v {
        SpecValue::Null => spec_zero(),
        SpecValue::Bool(b) => if b {
            SpecNumber::Finite(false, seq![1u8], 1)
        } else {
            spec_zero()
        },
        SpecValue::Num(n) => n,
        SpecValue::Str(s) => string_number(s),
        _ => SpecNumber::NaN,
    }
}

/// Loose equality: same-kind scalars compare directly (strings ignoring
/// case), two arrays or two objects are never equal, and values of
/// different kinds compare as numbers.
pub open spec fn loose_eq(a: SpecValue, b: SpecValue) -> bool {
    match (a, b) {
        (SpecValue::Null, SpecValue::Null) => true,
        (SpecValue::Bool(x), SpecValue::Bool(y)) => x == y,
        (SpecValue::Num(x), SpecValue::Num(y)) => num_eq(x, y),
        (SpecValue::Str(x), SpecValue::Str(y)) => lowercase_of(x) == lowercase_of(y),
        (SpecValue::Array(_), SpecValue::Array(_)) => false,
        (SpecValue::Object(_), SpecValue::Object(_)) => false,
        _ => num_eq(value_number(a), value_number(b)),
    }
}

/// The entries hold exactly the string values of `m`, in key order.
pub open spec fn holds_map(es: Seq<(Seq<char>, SpecValue)>, m: Map<Seq<char>, Seq<char>>) -> bool {
    &&& keys_sorted(es)
    &&& forall|k: Seq<char>|
        #[trigger] obj_get(es, k) == if m.dom().contains(k) {
            Some(SpecValue::Str(m[k]))
        } else {
            None
        }
}

/// The object holding exactly the string values of a map, in key order.
pub open spec fn map_value(m: Map<Seq<char>, Seq<char>>) -> SpecValue {
    SpecValue::Object(choose|es: Seq<(Seq<char>, SpecValue)>| holds_map(es, m))
}

proof fn lemma_get_below(es: Seq<(Seq<char>, SpecValue)>, key: Seq<char>)
    requires
        keys_sorted(es),
        es.len() > 0,
        str_lt(key, es[0].0),
    ensures
        obj_get(es, key) is None,
{
    assert forall|j: int| 0 <= j < es.len() implies es[j].0 != key by {
        lemma_str_lt_irreflexive(key, 0);
        if j > 0 {
            assert(str_lt(es[0].0, es[j].0));
            lemma_str_lt_trans(key, es[0].0, es[j].0, 0);
        }
    }
    lemma_obj_get_none(es, key);
}

/// Two entry lists in key order that give the same value for every key
/// are the same.
proof fn lemma_sorted_unique(a: Seq<(Seq<char>, SpecValue)>, b: Seq<(Seq<char>, SpecValue)>)
    requires
        keys_sorted(a),
        keys_sorted(b),
        forall|k: Seq<char>| #[trigger] obj_get(a, k) == obj_get(b, k),
    ensures
        a == b,
    decreases a.len() + b.len(),
{
    if a.len() == 0 {
        if b.len() > 0 {
            assert(obj_get(b, b[0].0) == Some(b[0].1));
            assert(obj_get(a, b[0].0) is None);
        }
        assert(a =~= b);
    } else if b.len() == 0 {
        assert(obj_get(a, a[0].0) == Some(a[0].1));
        assert(obj_get(b, a[0].0) is None);
    } else {
        let (x, y) = (a[0].0, b[0].0);
        assert(obj_get(a, x) == Some(a[0].1));
        assert(obj_get(b, y) == Some(b[0].1));
        assert(x.take(0) =~= y.take(0));
        lemma_str_lt_total(x, y, 0);
        if str_lt(x, y) {
            lemma_get_below(b, x);
            assert(obj_get(a, x) == obj_get(b, x));
        } else if str_lt(y, x) {
            lemma_get_below(a, y);
            assert(obj_get(a, y) == obj_get(b, y));
        }
        assert(x == y);
        assert(a[0] == b[0]);
        let (ta, tb) = (a.drop_first(), b.drop_first());
        assert forall|k: Seq<char>| #[trigger] obj_get(ta, k) == obj_get(tb, k) by {
            if k == x {
                assert forall|j: int| 0 <= j < ta.len() implies ta[j].0 != k by {
                    assert(str_lt(a[0].0, a[j + 1].0));
                    lemma_str_lt_irreflexive(k, 0);
                }
                assert forall|j: int| 0 <= j < tb.len() implies tb[j].0 != k by {
                    assert(str_lt(b[0].0, b[j + 1].0));
                    lemma_str_lt_irreflexive(k, 0);
                }
                lemma_obj_get_none(ta, k);
                lemma_obj_get_none(tb, k);
            } else {
                assert(obj_get(a, k) == obj_get(ta, k));
                assert(obj_get(b, k) == obj_get(tb, k));
            }
        }
        assert(keys_sorted(ta)) by {
            assert forall|i: int, j: int| 0 <= i < j < ta.len() implies str_lt(
                #[trigger] ta[i].0,
                #[trigger] ta[j].0,
            ) by {
                assert(str_lt(a[i + 1].0, a[j + 1].0));
            }
        }
        assert(keys_sorted(tb)) by {
            assert forall|i: int, j: int| 0 <= i < j < tb.len() implies str_lt(
                #[trigger] tb[i].0,
                #[trigger] tb[j].0,
            ) by {
                assert(str_lt(b[i + 1].0, b[j + 1].0));
            }
        }
        lemma_sorted_unique(ta, tb);
        assert(a =~= seq![a[0]] + ta);
        assert(b =~= seq![b[0]] + tb);
    }
}

/// Inserting string entries with distinct keys, one after the other, into
/// nothing gives the object holding exactly their map.
pub proof fn lemma_fold_holds_map(s: Seq<(Seq<char>, Seq<char>)>)
    requires
        keys_distinct(s),
    ensures
        holds_map(
            obj_fold(Seq::empty(), s.map_values(|e: (Seq<char>, Seq<char>)| (e.0, SpecValue::Str(e.1)))),
            map_of(s),
        ),
    decreases s.len(),
{
    let ps = s.map_values(|e: (Seq<char>, Seq<char>)| (e.0, SpecValue::Str(e.1)));
    if s.len() == 0 {
        assert forall|k: Seq<char>| #[trigger] obj_get(obj_fold(Seq::empty(), ps), k) == if map_of(s).dom().contains(k) {
            Some(SpecValue::Str(map_of(s)[k]))
        } else {
            None
        } by {
            assert(obj_fold(Seq::empty(), ps) =~= Seq::<(Seq<char>, SpecValue)>::empty());
        }
    } else {
        let t = s.drop_last();
        assert(keys_distinct(t));
        lemma_fold_holds_map(t);
        let pt = t.map_values(|e: (Seq<char>, Seq<char>)| (e.0, SpecValue::Str(e.1)));
        assert(ps.drop_last() =~= pt);
        let prev = obj_fold(Seq::empty(), pt);
        let (key, v) = (s.last().0, s.last().1);
        assert(ps.last() == (key, SpecValue::Str(v)));
        assert forall|k: Seq<char>| #[trigger] obj_get(obj_fold(Seq::empty(), ps), k) == if map_of(s).dom().contains(k) {
            Some(SpecValue::Str(map_of(s)[k]))
        } else {
            None
        } by {
            law_insert_then_get(prev, key, SpecValue::Str(v), k);
            assert(obj_get(prev, k) == if map_of(t).dom().contains(k) {
                Some(SpecValue::Str(map_of(t)[k]))
            } else {
                None
            });
        }
        law_insert_then_get(prev, key, SpecValue::Str(v), key);
    }
}

/// Objects holding exactly the same map are the same.
pub proof fn lemma_holds_map_unique(es: Seq<(Seq<char>, SpecValue)>, m: Map<Seq<char>, Seq<char>>)
    requires
        holds_map(es, m),
    ensures
        map_value(m) == SpecValue::Object(es),
{
    let c = choose|x: Seq<(Seq<char>, SpecValue)>| holds_map(x, m);
    assert(holds_map(c, m));
    assert forall|k: Seq<char>| #[trigger] obj_get(c, k) == obj_get(es, k) by {}
    lemma_sorted_unique(c, es);
}

/// Loose equality does not depend on the order of its operands.
pub proof fn law_loose_eq_symmetric(a: SpecValue, b: SpecValue)
    ensures
        loose_eq(a, b) == loose_eq(b, a),
{
}

pub open spec fn hex_lower(d: int) -> char {
    if d < 10 {
        (d + ('0' as int)) as char
    } else {
        (d - 10 + ('a' as int)) as char
    }
}

/// How one character appears inside a JSON string literal.
pub open spec fn json_escape(c: char) -> Seq<char> {
    if c == '"' {
        seq!['\\', '"']
    } else if c == '\\' {
        seq!['\\', '\\']
    } else if c == '\u{8}' {
        seq!['\\', 'b']
    } else if c == '\u{c}' {
        seq!['\\', 'f']
    } else if c == '\n' {
        seq!['\\', 'n']
    } else if c == '\r' {
        seq!['\\', 'r']
    } else if c == '\t' {
        seq!['\\', 't']
    } else if (c as int) < 0x20 {
        seq!['\\', 'u', '0', '0', hex_lower((c as int) / 16), hex_lower((c as int) % 16)]
    } else {
        seq![c]
    }
}

pub open spec fn json_escaped(s: Seq<char>) -> Seq<char>
    decreases s.len(),
{
    if s.len() == 0 {
        Seq::empty()
    } else {
        json_escaped(s.drop_last()) + json_escape(s.last())
    }
}

/// A JSON string literal.
pub open spec fn json_string(s: Seq<char>) -> Seq<char> {
    seq!['"'] + json_escaped(s) + seq!['"']
}

/// Compact JSON text.
pub open spec fn json_text(v: SpecValue, plain: bool) -> Seq<char>
    decreases v,
{
    match v {
        SpecValue::Null => seq!['n', 'u', 'l', 'l'],
        SpecValue::Bool(b) => if b {
            seq!['t', 'r', 'u', 'e']
        } else {
            seq!['f', 'a', 'l', 's', 'e']
        },
        SpecValue::Num(n) => if plain {
            number_text(n)
        } else {
            json_number_text(n)
        },
        SpecValue::Str(s) => json_string(s),
        SpecValue::Array(items) => seq!['['] + json_items(items, plain) + seq![']'],
        SpecValue::Object(es) => seq!['{'] + json_members(es, plain) + seq!['}'],
    }
}

pub open spec fn json_items(items: Seq<SpecValue>, plain: bool) -> Seq<char>
    decreases items,
{
    if items.len() == 0 {
        Seq::empty()
    } else {
        (if items.len() == 1 {
            Seq::empty()
        } else {
            json_items(items.drop_last(), plain) + seq![',']
        }) + json_text(items.last(), plain)
    }
}

pub open spec fn json_members(es: Seq<(Seq<char>, SpecValue)>, plain: bool) -> Seq<char>
    decreases es,
{
    if es.len() == 0 {
        Seq::empty()
    } else {
        (if es.len() == 1 {
            Seq::empty()
        } else {
            json_members(es.drop_last(), plain) + seq![',']
        }) + json_string(es.last().0) + seq![':'] + json_text(es.last().1, plain)
    }
}

/// Pretty JSON text (two-space indentation), `ind` being the indentation of
/// the line the value starts on.
pub open spec fn json_pretty(v: SpecValue, ind: Seq<char>) -> Seq<char>
    decreases v,
{
    match v {
        SpecValue::Array(items) => if items.len() == 0 {
            seq!['[', ']']
        } else {
            seq!['['] + pretty_items(items, ind + seq![' ', ' ']) + seq!['\n'] + ind + seq![']']
        },
        SpecValue::Object(es) => if es.len() == 0 {
            seq!['{', '}']
        } else {
            seq!['{'] + pretty_members(es, ind + seq![' ', ' ']) + seq!['\n'] + ind + seq!['}']
        },
        _ => json_text(v, false),
    }
}

pub open spec fn pretty_items(items: Seq<SpecValue>, ind: Seq<char>) -> Seq<char>
    decreases items,
{
    if items.len() == 0 {
        Seq::empty()
    } else {
        (if items.len() == 1 {
            seq!['\n']
        } else {
            pretty_items(items.drop_last(), ind) + seq![',', '\n']
        }) + ind + json_pretty(items.last(), ind)
    }
}

pub open spec fn pretty_members(es: Seq<(Seq<char>, SpecValue)>, ind: Seq<char>) -> Seq<char>
    decreases es,
{
    if es.len() == 0 {
        Seq::empty()
    } else {
        (if es.len() == 1 {
            seq!['\n']
        } else {
            pretty_members(es.drop_last(), ind) + seq![',', '\n']
        }) + ind + json_string(es.last().0) + seq![':', ' '] + json_pretty(es.last().1, ind)
    }
}

/// The text a value coerces to.
pub open spec fn value_text(v: SpecValue) -> Seq<char> {
    match v {
        SpecValue::Null => Seq::empty(),
        SpecValue::Bool(b) => if b {
            seq!['t', 'r', 'u', 'e']
        } else {
            seq!['f', 'a', 'l', 's', 'e']
        },
        SpecValue::Num(n) => number_text(n),
        SpecValue::Str(s) => s,
        _ => json_text(v, false),
    }
}

fn hex_lower_char(d: u32) -> (c: char)
    requires
        d < 16,
    ensures
        c == hex_lower(d as int),
{
    match d {
        0 => '0',
        1 => '1',
        2 => '2',
        3 => '3',
        4 => '4',
        5 => '5',
        6 => '6',
        7 => '7',
        8 => '8',
        9 => '9',
        10 => 'a',
        11 => 'b',
        12 => 'c',
        13 => 'd',
        14 => 'e',
        _ => 'f',
    }
}

fn push_escaped_char(out: &mut String, c: char)
    ensures
        final(out)@ == old(out)@ + json_escape(c),
{
    let ghost start = out@;
    if c == '"' {
        push_char(out, '\\');
        push_char(out, '"');
    } else if c == '\\' {
        push_char(out, '\\');
        push_char(out, '\\');
    } else if c == '\u{8}' {
        push_char(out, '\\');
        push_char(out, 'b');
    } else if c == '\u{c}' {
        push_char(out, '\\');
        push_char(out, 'f');
    } else if c == '\n' {
        push_char(out, '\\');
        push_char(out, 'n');
    } else if c == '\r' {
        push_char(out, '\\');
        push_char(out, 'r');
    } else if c == '\t' {
        push_char(out, '\\');
        push_char(out, 't');
    } else if (c as u32) < 0x20 {
        push_char(out, '\\');
        push_char(out, 'u');
        push_char(out, '0');
        push_char(out, '0');
        push_char(out, hex_lower_char((c as u32) / 16));
        push_char(out, hex_lower_char((c as u32) % 16));
    } else {
        push_char(out, c);
    }
    assert(out@ =~= start + json_escape(c));
}

/// Appends the JSON string literal of `s`.
pub fn push_json_string(out: &mut String, s: &str)
    ensures
        final(out)@ == old(out)@ + json_string(s@),
{
    let ghost start = out@;
    let cs = chars_of(s);
    push_char(out, '"');
    let mut i: usize = 0;
    while i < cs.len()
        invariant
            i <= cs@.len(),
            out@ == start + seq!['"'] + json_escaped(cs@.take(i as int)),
        decreases cs@.len() - i,
    {
        push_escaped_char(out, cs[i]);
        assert(cs@.take(i + 1).drop_last() =~= cs@.take(i as int));
        i += 1;
    }
    assert(cs@.take(cs@.len() as int) =~= cs@);
    push_char(out, '"');
    assert(out@ =~= start + json_string(s@));
}

impl ObjectMap {
    /// A copy of the map.
    #[verifier::loop_isolation(false)]
    pub fn copy(&self) -> (r: ObjectMap)
        ensures
            r@ == self@,
        decreases self, 0nat,
    {
        proof {
            use_type_invariant(self);
        }
        let mut out: Vec<(String, Value)> = Vec::new();
        let mut i: usize = 0;
        while i < self.entries.len()
            invariant
                i <= self.entries@.len(),
                out@.len() == i,
                forall|j: int| 0 <= j < i ==> (#[trigger] out@[j]).0@ == self.entries@[j].0@
                    && value_view(out@[j].1) == value_view(self.entries@[j].1),
            decreases self.entries@.len() - i,
        {
            proof {
                assert(decreases_to!(self.entries => self.entries@));
                assert(decreases_to!(self.entries@ => self.entries@[i as int]));
            }
            let k = self.entries[i].0.clone();
            let v = self.entries[i].1.copy();
            out.push((k, v));
            i += 1;
        }
        proof {
            let m = ObjectMap { entries: out };
            assert(entries_view(m) =~= entries_view(*self));
        }
        ObjectMap { entries: out }
    }

    /// Whether the two maps hold the same entries.
    #[verifier::loop_isolation(false)]
    pub fn same_as(&self, other: &ObjectMap) -> (r: bool)
        ensures
            r == (self@ == other@),
        decreases self, 0nat,
    {
        if self.entries.len() != other.entries.len() {
            assert(self@.len() != other@.len());
            return false;
        }
        let mut i: usize = 0;
        while i < self.entries.len()
            invariant
                i <= self.entries@.len() == other.entries@.len(),
                forall|j: int| 0 <= j < i ==> #[trigger] self@[j] == other@[j],
            decreases self.entries@.len() - i,
        {
            proof {
                assert(decreases_to!(self.entries => self.entries@));
                assert(decreases_to!(self.entries@ => self.entries@[i as int]));
            }
            let same = str_eq(self.entries[i].0.as_str(), other.entries[i].0.as_str())
                && self.entries[i].1.same_as(&other.entries[i].1);
            if !same {
                assert(self@[i as int] != other@[i as int]);
                return false;
            }
            assert(self@[i as int] == other@[i as int]);
            i += 1;
        }
        assert(self@ =~= other@);
        true
    }
}

impl ObjectMap {
    /// An object with each pair set in turn.
    pub fn from_pairs(pairs: &Vec<(String, Value)>) -> (m: ObjectMap)
        ensures
            m@ == obj_fold(Seq::empty(), member_pairs_view(pairs@)),
    {
        let mut m = ObjectMap::new();
        let mut i: usize = 0;
        while i < pairs.len()
            invariant
                i <= pairs@.len(),
                m@ == obj_fold(Seq::empty(), member_pairs_view(pairs@).take(i as int)),
            decreases pairs@.len() - i,
        {
            let k = pairs[i].0.clone();
            let x = pairs[i].1.copy();
            m.insert(k, x);
            assert(member_pairs_view(pairs@).take(i + 1).drop_last() =~= member_pairs_view(
                pairs@,
            ).take(i as int));
            i += 1;
        }
        assert(member_pairs_view(pairs@).take(i as int) =~= member_pairs_view(pairs@));
        m
    }
}

impl Value {
    /// A copy of the value.
    #[verifier::loop_isolation(false)]
    pub fn copy(&self) -> (r: Value)
        ensures
            r@ == self@,
        decreases self, 1nat,
    {
        match self {
            Value::Null => Value::Null,
            Value::Bool(b) => Value::Bool(*b),
            Value::Number(n) => Value::Number(n.copy()),
            Value::String(s) => Value::String(s.clone()),
            Value::Array(a) => {
                let mut out: Vec<Value> = Vec::new();
                let mut i: usize = 0;
                while i < a.len()
                    invariant
                        i <= a@.len(),
                        out@.len() == i,
                        forall|j: int| 0 <= j < i ==> value_view(#[trigger] out@[j]) == value_view(
                            a@[j],
                        ),
                    decreases a@.len() - i,
                {
                    proof {
                        assert(decreases_to!(*self => self->Array_0));
                        assert(decreases_to!(self->Array_0 => self->Array_0@));
                        assert(decreases_to!(self->Array_0@ => self->Array_0@[i as int]));
                    }
                    let c = a[i].copy();
                    out.push(c);
                    i += 1;
                }
                let r = Value::Array(out);
                assert(value_view(r) =~= value_view(*self)) by {
                    if let SpecValue::Array(x) = value_view(r) {
                        if let SpecValue::Array(y) = value_view(*self) {
                            assert(x =~= y);
                        }
                    }
                }
                r
            },
            Value::Object(m) => {
                proof {
                    assert(decreases_to!(*self => self->Object_0));
                }
                Value::Object(m.copy())
            },
        }
    }

    /// Whether the two values are the same JSON value.
    #[verifier::loop_isolation(false)]
    pub fn same_as(&self, other: &Value) -> (r: bool)
        ensures
            r == (self@ == other@),
        decreases self, 1nat,
    {
        match (self, other) {
            (Value::Null, Value::Null) => true,
            (Value::Bool(a), Value::Bool(b)) => *a == *b,
            (Value::Number(a), Value::Number(b)) => a.same_as(b),
            (Value::String(a), Value::String(b)) => str_eq(a.as_str(), b.as_str()),
            (Value::Array(a), Value::Array(b)) => {
                let ghost x = match self@ { SpecValue::Array(x) => x, _ => Seq::empty() };
                let ghost y = match other@ { SpecValue::Array(y) => y, _ => Seq::empty() };
                if a.len() != b.len() {
                    assert(x.len() != y.len());
                    return false;
                }
                let mut i: usize = 0;
                while i < a.len()
                    invariant
                        i <= a@.len() == b@.len(),
                        forall|j: int| 0 <= j < i ==> value_view(#[trigger] a@[j]) == value_view(
                            b@[j],
                        ),
                    decreases a@.len() - i,
                {
                    proof {
                        assert(decreases_to!(*self => self->Array_0));
                        assert(decreases_to!(self->Array_0 => self->Array_0@));
                        assert(decreases_to!(self->Array_0@ => self->Array_0@[i as int]));
                    }
                    if !a[i].same_as(&b[i]) {
                        assert(x[i as int] != y[i as int]);
                        return false;
                    }
                    i += 1;
                }
                assert(x =~= y);
                true
            },
            (Value::Object(a), Value::Object(b)) => {
                proof {
                    assert(decreases_to!(*self => self->Object_0));
                }
                a.same_as(b)
            },
            _ => false,
        }
    }

    /// Truthiness (`truthy`).
    pub fn is_truthy(&self) -> (b: bool)
        ensures
            b == truthy(self@),
    {
        match self {
            Value::Null => false,
            Value::Bool(b) => *b,
            Value::Number(n) => !n.is_zero(),
            Value::String(s) => s.as_str().unicode_len() > 0,
            _ => true,
        }
    }

    /// Truthiness, as a boolean coercion.
    pub fn to_bool(&self) -> (b: bool)
        ensures
            b == truthy(self@),
    {
        self.is_truthy()
    }

    /// The number the value coerces to (`value_number`).
    pub fn to_number(&self) -> (r: Number)
        ensures
            r@ == value_number(self@),
    {
        match self {
            Value::Null => zero(),
            Value::Bool(b) => if *b {
                one()
            } else {
                zero()
            },
            Value::Number(n) => n.copy(),
            Value::String(s) => parse_number_text(s.as_str()),
            _ => Number::nan(),
        }
    }

    /// The text the value coerces to (`value_text`).
    pub fn to_str(&self) -> (r: String)
        ensures
            r@ == value_text(self@),
    {
        match self {
            Value::Null => String::new(),
            Value::Bool(b) => {
                proof {
                    reveal_strlit("true");
                    reveal_strlit("false");
                }
                if *b {
                    String::from_str("true")
                } else {
                    String::from_str("false")
                }
            },
            Value::Number(n) => n.to_text(),
            Value::String(s) => s.clone(),
            _ => {
                let mut out = String::new();
                self.push_json(&mut out, false);
                out
            },
        }
    }

    /// Loose equality (`loose_eq`).
    pub fn loose_eq(&self, other: &Value) -> (r: bool)
        ensures
            r == loose_eq(self@, other@),
    {
        match (self, other) {
            (Value::Null, Value::Null) => true,
            (Value::Bool(a), Value::Bool(b)) => *a == *b,
            (Value::Number(a), Value::Number(b)) => a.equals(b),
            (Value::String(a), Value::String(b)) => {
                let x = to_lowercase(a.as_str());
                let y = to_lowercase(b.as_str());
                str_eq(x.as_str(), y.as_str())
            },
            (Value::Array(_), Value::Array(_)) => false,
            (Value::Object(_), Value::Object(_)) => false,
            _ => {
                let x = self.to_number();
                let y = other.to_number();
                x.equals(&y)
            },
        }
    }

    /// Appends the compact JSON text of the value (`json_text`).
    #[verifier::loop_isolation(false)]
    pub fn push_json(&self, out: &mut String, plain: bool)
        ensures
            final(out)@ == old(out)@ + json_text(self@, plain),
        decreases self,
    {
        let ghost start = out@;
        match self {
            Value::Null => {
                push_str(out, "null");
                proof {
                    reveal_strlit("null");
                }
            },
            Value::Bool(b) => {
                proof {
                    reveal_strlit("true");
                    reveal_strlit("false");
                }
                if *b {
                    push_str(out, "true");
                } else {
                    push_str(out, "false");
                }
            },
            Value::Number(n) => {
                if plain {
                    let t = n.to_text();
                    push_str(out, t.as_str());
                } else {
                    n.push_json(out);
                }
            },
            Value::String(s) => push_json_string(out, s.as_str()),
            Value::Array(a) => {
                let ghost items = Seq::new(
                    a@.len(),
                    |i: int|
                        if 0 <= i < a@.len() {
                            value_view(a@[i])
                        } else {
                            SpecValue::Null
                        },
                );
                proof {
                    if let SpecValue::Array(x) = value_view(*self) {
                        assert(x =~= items);
                    }
                }
                assert(value_view(*self) == SpecValue::Array(items));
                push_char(out, '[');
                let mut i: usize = 0;
                while i < a.len()
                    invariant
                        i <= a@.len(),
                        out@ == start + seq!['['] + json_items(items.take(i as int), plain),
                    decreases a@.len() - i,
                {
                    proof {
                        assert(decreases_to!(*self => self->Array_0));
                        assert(decreases_to!(self->Array_0 => self->Array_0@));
                        assert(decreases_to!(self->Array_0@ => self->Array_0@[i as int]));
                    }
                    if i > 0 {
                        push_char(out, ',');
                    }
                    a[i].push_json(out, plain);
                    assert(items.take(i + 1).drop_last() =~= items.take(i as int));
                    i += 1;
                }
                assert(items.take(a@.len() as int) =~= items);
                push_char(out, ']');
            },
            Value::Object(m) => {
                proof {
                    assert(decreases_to!(*self => self->Object_0));
                }
                m.push_json(out, plain);
            },
        }
        assert(out@ =~= start + json_text(self@, plain));
    }

    /// Appends the pretty JSON text of the value (`json_pretty`), `ind`
    /// being the indentation of the current line.
    #[verifier::loop_isolation(false)]
    pub fn push_json_pretty(&self, out: &mut String, ind: &String)
        ensures
            final(out)@ == old(out)@ + json_pretty(self@, ind@),
        decreases self,
    {
        let ghost start = out@;
        match self {
            Value::Array(a) => {
                let ghost items = Seq::new(
                    a@.len(),
                    |i: int|
                        if 0 <= i < a@.len() {
                            value_view(a@[i])
                        } else {
                            SpecValue::Null
                        },
                );
                proof {
                    if let SpecValue::Array(x) = value_view(*self) {
                        assert(x =~= items);
                    }
                }
                assert(value_view(*self) == SpecValue::Array(items));
                if a.len() == 0 {
                    push_char(out, '[');
                    push_char(out, ']');
                    assert(out@ =~= start + json_pretty(self@, ind@));
                    return ;
                }
                let mut inner = ind.clone();
                push_char(&mut inner, ' ');
                push_char(&mut inner, ' ');
                push_char(out, '[');
                let mut i: usize = 0;
                while i < a.len()
                    invariant
                        i <= a@.len(),
                        inner@ == ind@ + seq![' ', ' '],
                        out@ == start + seq!['['] + pretty_items(items.take(i as int), inner@),
                    decreases a@.len() - i,
                {
                    proof {
                        assert(decreases_to!(*self => self->Array_0));
                        assert(decreases_to!(self->Array_0 => self->Array_0@));
                        assert(decreases_to!(self->Array_0@ => self->Array_0@[i as int]));
                    }
                    if i > 0 {
                        push_char(out, ',');
                    }
                    push_char(out, '\n');
                    push_str(out, inner.as_str());
                    a[i].push_json_pretty(out, &inner);
                    assert(items.take(i + 1).drop_last() =~= items.take(i as int));
                    i += 1;
                }
                assert(items.take(a@.len() as int) =~= items);
                push_char(out, '\n');
                push_str(out, ind.as_str());
                push_char(out, ']');
                assert(out@ =~= start + json_pretty(self@, ind@));
            },
            Value::Object(m) => {
                proof {
                    assert(decreases_to!(*self => self->Object_0));
                }
                m.push_json_pretty(out, ind);
            },
            _ => {
                self.push_json(out, false);
            },
        }
    }
}

impl ObjectMap {
    /// Appends `{"k":v,...}`.
    #[verifier::loop_isolation(false)]
    pub fn push_json(&self, out: &mut String, plain: bool)
        ensures
            final(out)@ == old(out)@ + seq!['{'] + json_members(self@, plain) + seq!['}'],
        decreases self, 0nat,
    {
        let ghost start = out@;
        let ghost es = entries_view(*self);
        push_char(out, '{');
        let mut i: usize = 0;
        while i < self.entries.len()
            invariant
                i <= self.entries@.len(),
                es.len() == self.entries@.len(),
                out@ == start + seq!['{'] + json_members(es.take(i as int), plain),
            decreases self.entries@.len() - i,
        {
            proof {
                assert(decreases_to!(self.entries => self.entries@));
                assert(decreases_to!(self.entries@ => self.entries@[i as int]));
                assert(decreases_to!(self.entries@[i as int] => self.entries@[i as int].1));
            }
            if i > 0 {
                push_char(out, ',');
            }
            push_json_string(out, self.entries[i].0.as_str());
            push_char(out, ':');
            self.entries[i].1.push_json(out, plain);
            assert(es.take(i + 1).drop_last() =~= es.take(i as int));
            i += 1;
        }
        assert(es.take(es.len() as int) =~= es);
        push_char(out, '}');
    }

    /// Appends the pretty form of the map (`json_pretty` of an object).
    #[verifier::loop_isolation(false)]
    pub fn push_json_pretty(&self, out: &mut String, ind: &String)
        ensures
            final(out)@ == old(out)@ + json_pretty(SpecValue::Object(self@), ind@),
        decreases self, 0nat,
    {
        let ghost start = out@;
        let ghost es = entries_view(*self);
        if self.entries.len() == 0 {
            push_char(out, '{');
            push_char(out, '}');
            assert(out@ =~= start + json_pretty(SpecValue::Object(self@), ind@));
            return ;
        }
        let mut inner = ind.clone();
        push_char(&mut inner, ' ');
        push_char(&mut inner, ' ');
        push_char(out, '{');
        let mut i: usize = 0;
        while i < self.entries.len()
            invariant
                i <= self.entries@.len(),
                es.len() == self.entries@.len(),
                inner@ == ind@ + seq![' ', ' '],
                out@ == start + seq!['{'] + pretty_members(es.take(i as int), inner@),
            decreases self.entries@.len() - i,
        {
            proof {
                assert(decreases_to!(self.entries => self.entries@));
                assert(decreases_to!(self.entries@ => self.entries@[i as int]));
                assert(decreases_to!(self.entries@[i as int] => self.entries@[i as int].1));
            }
            if i > 0 {
                push_char(out, ',');
            }
            push_char(out, '\n');
            push_str(out, inner.as_str());
            push_json_string(out, self.entries[i].0.as_str());
            push_char(out, ':');
            push_char(out, ' ');
            self.entries[i].1.push_json_pretty(out, &inner);
            assert(es.take(i + 1).drop_last() =~= es.take(i as int));
            i += 1;
        }
        assert(es.take(es.len() as int) =~= es);
        push_char(out, '\n');
        push_str(out, ind.as_str());
        push_char(out, '}');
        assert(out@ =~= start + json_pretty(SpecValue::Object(self@), ind@));
    }
}

/// The compact JSON text of a value.
pub fn to_json_text(v: &Value) -> (s: String)
    ensures
        s@ == json_text(v@, false),
{
    let mut s = String::new();
    v.push_json(&mut s, false);
    s
}

/// The compact JSON text of a value read from a workflow file, where a
/// number shows as written (`18`, not `18.0`).
pub fn to_plain_json(v: &Value) -> (s: String)
    ensures
        s@ == json_text(v@, true),
{
    let mut s = String::new();
    v.push_json(&mut s, true);
    s
}

/// The pretty JSON text of a value (two-space indentation).
pub fn to_json_pretty(v: &Value) -> (s: String)
    ensures
        s@ == json_pretty(v@, Seq::empty()),
{
    let mut s = String::new();
    let ind = String::new();
    v.push_json_pretty(&mut s, &ind);
    s
}

} // verus!
