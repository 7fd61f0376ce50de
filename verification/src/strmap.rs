//! A map from strings to strings that keeps its entries in the order in
//! which their keys were first inserted.
use crate::text::{copy_string, str_eq};
use vstd::prelude::*;

verus! {

/// The map that a list of entries with distinct keys stands for.
pub open spec fn map_of(s: Seq<(Seq<char>, Seq<char>)>) -> Map<Seq<char>, Seq<char>>
    decreases s.len(),
{
    if s.len() == 0 {
        Map::empty()
    } else {
        map_of(s.drop_last()).insert(s.last().0, s.last().1)
    }
}

/// `m` with each pair of `s` inserted in turn.
pub open spec fn fold_insert(m: Map<Seq<char>, Seq<char>>, s: Seq<(Seq<char>, Seq<char>)>) -> Map<
    Seq<char>,
    Seq<char>,
>
    decreases s.len(),
{
    if s.len() == 0 {
        m
    } else {
        fold_insert(m, s.drop_last()).insert(s.last().0, s.last().1)
    }
}

/// No key occurs twice in a list of entries.
pub open spec fn keys_distinct(s: Seq<(Seq<char>, Seq<char>)>) -> bool {
    forall|i: int, j: int| 0 <= i < j < s.len() ==> s[i].0 != s[j].0
}

/// The keys of a list of entries, in order.
pub open spec fn keys_of(s: Seq<(Seq<char>, Seq<char>)>) -> Seq<Seq<char>> {
    s.map_values(|e: (Seq<char>, Seq<char>)| e.0)
}

/// What a key maps to in a list of entries with distinct keys: the value
/// of the entry that holds it.
pub proof fn lemma_map_of(s: Seq<(Seq<char>, Seq<char>)>)
    requires
        keys_distinct(s),
    ensures
        forall|k: Seq<char>| #[trigger]
            map_of(s).dom().contains(k) <==> exists|i: int| 0 <= i < s.len() && s[i].0 == k,
        forall|i: int| 0 <= i < s.len() ==> #[trigger] map_of(s)[s[i].0] == s[i].1,
        map_of(s).dom().finite(),
        map_of(s).dom().len() == s.len(),
    decreases s.len(),
{
    if s.len() > 0 {
        let t = s.drop_last();
        lemma_map_of(t);
        assert forall|k: Seq<char>| #[trigger]
            map_of(s).dom().contains(k) implies exists|i: int| 0 <= i < s.len() && s[i].0 == k by {
            if k == s.last().0 {
                assert(s[s.len() - 1].0 == k);
            } else {
                let i = choose|i: int| 0 <= i < t.len() && t[i].0 == k;
                assert(s[i].0 == k);
            }
        }
        assert forall|k: Seq<char>|
            (exists|i: int| 0 <= i < s.len() && s[i].0 == k) implies #[trigger] map_of(
            s,
        ).dom().contains(k) by {
            let i = choose|i: int| 0 <= i < s.len() && s[i].0 == k;
            if i < s.len() - 1 {
                assert(t[i].0 == k);
            }
        }
        assert forall|i: int| 0 <= i < s.len() implies #[trigger] map_of(s)[s[i].0] == s[i].1 by {
            if i < s.len() - 1 {
                assert(t[i] == s[i]);
                assert(s[i].0 != s.last().0);
            }
        }
        assert(!map_of(t).dom().contains(s.last().0)) by {
            if map_of(t).dom().contains(s.last().0) {
                let i = choose|i: int| 0 <= i < t.len() && t[i].0 == s.last().0;
                assert(s[i].0 == s[s.len() - 1].0);
            }
        }
    }
}

/// A map from strings to strings whose entries keep the order in which
/// their keys were first inserted.
pub struct StrMap {
    entries: Vec<(String, String)>,
}

/// The view of a list of string pairs.
pub open spec fn pairs_view(v: Seq<(String, String)>) -> Seq<(Seq<char>, Seq<char>)> {
    v.map_values(|e: (String, String)| (e.0@, e.1@))
}

impl StrMap {
    /// The entries, in order.
    pub closed spec fn entries(&self) -> Seq<(Seq<char>, Seq<char>)> {
        pairs_view(self.entries@)
    }

    #[verifier::type_invariant]
    closed spec fn well_formed(&self) -> bool {
        keys_distinct(pairs_view(self.entries@))
    }

    /// The keys, in order.
    pub open spec fn key_seq(&self) -> Seq<Seq<char>> {
        keys_of(self.entries())
    }

    /// An empty map.
    pub fn new() -> (m: StrMap)
        ensures
            m.entries() == Seq::<(Seq<char>, Seq<char>)>::empty(),
            m@ == Map::<Seq<char>, Seq<char>>::empty(),
    {
        let m = StrMap { entries: Vec::new() };
        assert(pairs_view(m.entries@) =~= Seq::<(Seq<char>, Seq<char>)>::empty());
        m
    }

    /// The number of entries.
    pub fn len(&self) -> (n: usize)
        ensures
            n == self.entries().len(),
            n == self@.dom().len(),
    {
        proof {
            use_type_invariant(self);
            lemma_map_of(self.entries());
        }
        self.entries.len()
    }

    /// Whether the map is empty.
    pub fn is_empty(&self) -> (b: bool)
        ensures
            b == (self.entries().len() == 0),
            b == (self@ == Map::<Seq<char>, Seq<char>>::empty()),
    {
        proof {
            use_type_invariant(self);
            lemma_map_of(self.entries());
            if self.entries().len() > 0 {
                assert(self@.dom().contains(self.entries()[0].0));
            } else {
                assert(self@.dom() =~= Set::<Seq<char>>::empty());
            }
        }
        self.entries.len() == 0
    }

    /// The key of the entry at `i`.
    pub fn key_at(&self, i: usize) -> (k: &String)
        requires
            i < self.entries().len(),
        ensures
            k@ == self.entries()[i as int].0,
    {
        &self.entries[i].0
    }

    /// The value of the entry at `i`.
    pub fn value_at(&self, i: usize) -> (v: &String)
        requires
            i < self.entries().len(),
        ensures
            v@ == self.entries()[i as int].1,
    {
        &self.entries[i].1
    }

    /// Where the entry with key `k` stands, if there is one.
    pub fn position(&self, k: &str) -> (r: Option<usize>)
        ensures
            match r {
                Some(i) => i < self.entries().len() && self.entries()[i as int].0 == k@,
                None => !self@.dom().contains(k@),
            },
    {
        proof {
            use_type_invariant(self);
            lemma_map_of(self.entries());
        }
        let mut i: usize = 0;
        while i < self.entries.len()
            invariant
                i <= self.entries@.len(),
                forall|j: int| 0 <= j < i ==> self.entries()[j].0 != k@,
            decreases self.entries@.len() - i,
        {
            if str_eq(self.entries[i].0.as_str(), k) {
                return Some(i);
            }
            i += 1;
        }
        None
    }

    /// The value that `k` maps to, if any.
    pub fn get(&self, k: &str) -> (r: Option<&String>)
        ensures
            match r {
                Some(v) => self@.dom().contains(k@) && v@ == self@[k@],
                None => !self@.dom().contains(k@),
            },
    {
        proof {
            use_type_invariant(self);
            lemma_map_of(self.entries());
        }
        match self.position(k) {
            Some(i) => Some(&self.entries[i].1),
            None => None,
        }
    }

    /// Whether `k` is a key of the map.
    pub fn contains_key(&self, k: &str) -> (b: bool)
        ensures
            b == self@.dom().contains(k@),
    {
        proof {
            use_type_invariant(self);
            lemma_map_of(self.entries());
        }
        self.position(k).is_some()
    }

    /// Maps `k` to `v`: an entry with key `k` gets the new value in its
    /// place, otherwise a new entry comes last.
    pub fn insert(&mut self, k: String, v: String)
        ensures
            final(self)@ == old(self)@.insert(k@, v@),
            old(self)@.dom().contains(k@) ==> final(self).key_seq() == old(self).key_seq(),
            !old(self)@.dom().contains(k@) ==> final(self).key_seq() == old(self).key_seq().push(
                k@,
            ),
    {
        proof {
            use_type_invariant(&*self);
            lemma_map_of(self.entries());
        }
        let pos = self.position(k.as_str());
        let mut entries: Vec<(String, String)> = Vec::new();
        std::mem::swap(&mut entries, &mut self.entries);
        let ghost old_entries = pairs_view(entries@);
        match pos {
            Some(i) => {
                entries.set(i, (k, v));
                proof {
                    let s = pairs_view(entries@);
                    assert(s =~= old_entries.update(i as int, (k@, v@)));
                    assert(keys_distinct(s));
                    lemma_map_of(s);
                    assert(map_of(s) =~= map_of(old_entries).insert(k@, v@)) by {
                        assert forall|key: Seq<char>|
                            map_of(s).dom().contains(key) <==> map_of(old_entries).insert(
                                k@,
                                v@,
                            ).dom().contains(key) by {
                            if map_of(s).dom().contains(key) {
                                let j = choose|j: int| 0 <= j < s.len() && s[j].0 == key;
                                if j != i {
                                    assert(old_entries[j].0 == key);
                                }
                            }
                            if map_of(old_entries).dom().contains(key) {
                                let j = choose|j: int|
                                    0 <= j < old_entries.len() && old_entries[j].0 == key;
                                assert(s[j].0 == key);
                            }
                            if key == k@ {
                                assert(s[i as int].0 == key);
                            }
                        }
                        assert forall|key: Seq<char>| #[trigger]
                            map_of(s).dom().contains(key) implies map_of(s)[key] == map_of(
                            old_entries,
                        ).insert(k@, v@)[key] by {
                            let j = choose|j: int| 0 <= j < s.len() && s[j].0 == key;
                            assert(map_of(s)[s[j].0] == s[j].1);
                            if j != i {
                                assert(map_of(old_entries)[old_entries[j].0] == old_entries[j].1);
                            }
                        }
                    }
                    assert(keys_of(s) =~= keys_of(old_entries));
                }
            },
            None => {
                entries.push((k, v));
                proof {
                    let s = pairs_view(entries@);
                    assert(s =~= old_entries.push((k@, v@)));
                    assert(s.drop_last() =~= old_entries);
                    assert forall|i: int, j: int| 0 <= i < j < s.len() implies s[i].0 != s[j].0 by {
                        if j == s.len() - 1 {
                            assert(old_entries[i].0 == s[i].0);
                            if s[i].0 == k@ {
                                assert(map_of(old_entries).dom().contains(k@));
                            }
                        }
                    }
                    assert(keys_of(s) =~= keys_of(old_entries).push(k@));
                }
            },
        }
        self.entries = entries;
    }

    /// A copy of the map, entry for entry.
    pub fn copy(&self) -> (m: StrMap)
        ensures
            m.entries() == self.entries(),
            m@ == self@,
    {
        proof {
            use_type_invariant(self);
        }
        let mut v: Vec<(String, String)> = Vec::new();
        let mut i: usize = 0;
        while i < self.entries.len()
            invariant
                i <= self.entries@.len(),
                pairs_view(v@) == pairs_view(self.entries@).take(i as int),
            decreases self.entries@.len() - i,
        {
            let k = copy_string(&self.entries[i].0);
            let x = copy_string(&self.entries[i].1);
            let ghost old_v = v@;
            v.push((k, x));
            assert(pairs_view(v@) =~= pairs_view(old_v).push(pairs_view(self.entries@)[i as int]));
            assert(pairs_view(v@) =~= pairs_view(self.entries@).take(i + 1));
            i += 1;
        }
        assert(pairs_view(self.entries@).take(i as int) =~= pairs_view(self.entries@));
        StrMap { entries: v }
    }

    /// A map with each pair inserted in turn.
    pub fn from_pairs(pairs: &Vec<(String, String)>) -> (m: StrMap)
        ensures
            m@ == fold_insert(Map::empty(), pairs_view(pairs@)),
    {
        let mut m = StrMap::new();
        let mut i: usize = 0;
        while i < pairs.len()
            invariant
                i <= pairs@.len(),
                m@ == fold_insert(Map::empty(), pairs_view(pairs@).take(i as int)),
            decreases pairs@.len() - i,
        {
            let k = copy_string(&pairs[i].0);
            let v = copy_string(&pairs[i].1);
            m.insert(k, v);
            assert(pairs_view(pairs@).take(i + 1).drop_last() =~= pairs_view(pairs@).take(i as int));
            i += 1;
        }
        assert(pairs_view(pairs@).take(i as int) =~= pairs_view(pairs@));
        m
    }

    /// The keys, in order.
    pub fn keys(&self) -> (ks: Vec<String>)
        ensures
            ks@.map_values(|s: String| s@) == self.key_seq(),
    {
        let mut ks: Vec<String> = Vec::new();
        let mut i: usize = 0;
        while i < self.entries.len()
            invariant
                i <= self.entries@.len(),
                ks@.map_values(|s: String| s@) == keys_of(self.entries()).take(i as int),
            decreases self.entries@.len() - i,
        {
            let ghost old_ks = ks@;
            ks.push(copy_string(&self.entries[i].0));
            assert(ks@.map_values(|s: String| s@) =~= old_ks.map_values(|s: String| s@).push(
                keys_of(self.entries())[i as int],
            ));
            assert(ks@.map_values(|s: String| s@) =~= keys_of(self.entries()).take(i + 1));
            i += 1;
        }
        assert(keys_of(self.entries()).take(i as int) =~= keys_of(self.entries()));
        ks
    }
}

impl StrMap {
    /// The entries have distinct keys and stand for the map.
    pub fn entries_distinct(&self)
        ensures
            keys_distinct(self.entries()),
            map_of(self.entries()) == self@,
    {
        proof {
            use_type_invariant(self);
        }
    }

    /// Sets every entry of `other` in turn: the union of the two maps,
    /// `other` winning on a shared key.
    pub fn extend(&mut self, other: &StrMap)
        ensures
            final(self)@ == old(self)@.union_prefer_right(other@),
    {
        let ghost start = self@;
        let ghost es = other.entries();
        let mut i: usize = 0;
        assert(map_of(es.take(0)) =~= Map::<Seq<char>, Seq<char>>::empty());
        assert(start.union_prefer_right(Map::empty()) =~= start);
        while i < other.len()
            invariant
                i <= es.len(),
                es == other.entries(),
                self@ == start.union_prefer_right(map_of(es.take(i as int))),
            decreases es.len() - i,
        {
            let k = copy_string(other.key_at(i));
            let v = copy_string(other.value_at(i));
            let ghost before = self@;
            self.insert(k, v);
            proof {
                assert(es.take(i + 1).drop_last() =~= es.take(i as int));
                assert(es.take(i + 1).last() == es[i as int]);
                assert(self@ =~= start.union_prefer_right(map_of(es.take(i + 1))));
            }
            i += 1;
        }
        assert(es.take(i as int) =~= es);
    }
}

impl View for StrMap {
    type V = Map<Seq<char>, Seq<char>>;

    closed spec fn view(&self) -> Map<Seq<char>, Seq<char>> {
        map_of(pairs_view(self.entries@))
    }
}

} // verus!
