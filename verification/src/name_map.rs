//! Maps keyed by name that keep their entries in the order of the keys, as
//! an ordered map does, and answer every question from that ordered list.
//! vstd specifies std's `BTreeMap` only for keys whose order it knows, and it
//! gives `String` no such order, so nothing of a `BTreeMap<String, _>` lookup
//! could be proved; the order of names is kept and proved here instead.
use vstd::prelude::*;

use crate::type_ref::TypeRef;
use crate::keys::{lemma_name_lt_asymmetric, lemma_name_lt_irreflexive, lemma_name_lt_total, lemma_name_lt_transitive, name_eq, name_less, name_lt};

verus! {

/// The keys of an entry list come in strictly increasing order (so no key
/// occurs twice).
pub open spec fn keys_sorted<W>(s: Seq<(Seq<char>, W)>) -> bool {
    forall|i: int, j: int| 0 <= i < j < s.len() ==> name_lt(#[trigger] s[i].0, #[trigger] s[j].0)
}

/// The value stored under `k`, if any (the first entry with that key).
pub open spec fn lookup<W>(s: Seq<(Seq<char>, W)>, k: Seq<char>) -> Option<W>
    decreases s.len(),
{
    if s.len() == 0 {
        None
    } else if s[0].0 == k {
        Some(s[0].1)
    } else {
        lookup(s.drop_first(), k)
    }
}

/// The entry list after storing `v` under `k`: the entry for `k` is replaced
/// where there is one, and otherwise inserted where the order puts it.
pub open spec fn sorted_insert<W>(s: Seq<(Seq<char>, W)>, k: Seq<char>, v: W) -> Seq<(Seq<char>, W)>
    decreases s.len(),
{
    if s.len() == 0 {
        seq![(k, v)]
    } else if s[0].0 == k {
        seq![(k, v)] + s.drop_first()
    } else if name_lt(k, s[0].0) {
        seq![(k, v)] + s
    } else {
        seq![s[0]] + sorted_insert(s.drop_first(), k, v)
    }
}

/// The keys of an entry list, in order.
pub open spec fn keys_of<W>(s: Seq<(Seq<char>, W)>) -> Seq<Seq<char>> {
    s.map_values(|e: (Seq<char>, W)| e.0)
}

pub proof fn lemma_lookup_index<W>(s: Seq<(Seq<char>, W)>, k: Seq<char>, i: int)
    requires
        keys_sorted(s),
        0 <= i < s.len(),
        s[i].0 == k,
    ensures
        lookup(s, k) == Some(s[i].1),
    decreases s.len(),
{
    if i > 0 {
        assert(name_lt(s[0].0, s[i].0));
        lemma_name_lt_irreflexive(k);
        assert(s.drop_first()[i - 1] == s[i]);
        lemma_lookup_index(s.drop_first(), k, i - 1);
    }
}

pub proof fn lemma_lookup_none<W>(s: Seq<(Seq<char>, W)>, k: Seq<char>)
    requires
        forall|i: int| 0 <= i < s.len() ==> #[trigger] s[i].0 != k,
    ensures
        lookup(s, k) is None,
    decreases s.len(),
{
    if s.len() > 0 {
        assert(s[0].0 != k);
        assert forall|i: int| 0 <= i < s.drop_first().len() implies #[trigger] s.drop_first()[i].0 != k by {
            assert(s.drop_first()[i] == s[i + 1]);
        }
        lemma_lookup_none(s.drop_first(), k);
    }
}

pub proof fn lemma_lookup_some<W>(s: Seq<(Seq<char>, W)>, k: Seq<char>)
    requires
        lookup(s, k) is Some,
    ensures
        exists|i: int| 0 <= i < s.len() && s[i].0 == k && lookup(s, k) == Some(s[i].1),
    decreases s.len(),
{
    if s[0].0 != k {
        lemma_lookup_some(s.drop_first(), k);
        let i = choose|i: int| 0 <= i < s.drop_first().len() && s.drop_first()[i].0 == k && lookup(s.drop_first(), k) == Some(s.drop_first()[i].1);
        assert(s[i + 1] == s.drop_first()[i]);
    } else {
        assert(s[0].0 == k);
    }
}

/// Storing under `k` makes `k` give `v` and leaves every other key as it was.
pub proof fn lemma_lookup_sorted_insert<W>(s: Seq<(Seq<char>, W)>, k: Seq<char>, v: W, k2: Seq<char>)
    ensures
        lookup(sorted_insert(s, k, v), k2) == (if k2 == k { Some(v) } else { lookup(s, k2) }),
    decreases s.len(),
{
    let r = sorted_insert(s, k, v);
    if s.len() == 0 {
        assert(r[0] == (k, v));
        assert(r.drop_first().len() == 0);
        assert(lookup(r.drop_first(), k2) is None);
    } else if s[0].0 == k {
        assert(r[0] == (k, v));
        assert(r.drop_first() =~= s.drop_first());
    } else if name_lt(k, s[0].0) {
        assert(r[0] == (k, v));
        assert(r.drop_first() =~= s);
    } else {
        assert(r[0] == s[0]);
        lemma_lookup_sorted_insert(s.drop_first(), k, v, k2);
        assert(r.drop_first() =~= sorted_insert(s.drop_first(), k, v));
    }
}

/// Storing twice under the same key keeps only the second value.
pub proof fn lemma_sorted_insert_twice<W>(s: Seq<(Seq<char>, W)>, k: Seq<char>, v1: W, v2: W)
    ensures
        sorted_insert(sorted_insert(s, k, v1), k, v2) == sorted_insert(s, k, v2),
    decreases s.len(),
{
    let r1 = sorted_insert(s, k, v1);
    if s.len() == 0 {
        assert(r1[0] == (k, v1));
        assert(r1.drop_first().len() == 0);
        assert(sorted_insert(r1, k, v2) =~= seq![(k, v2)]);
    } else if s[0].0 == k {
        assert(r1[0] == (k, v1));
        assert(r1.drop_first() =~= s.drop_first());
        assert(sorted_insert(r1, k, v2) =~= seq![(k, v2)] + s.drop_first());
    } else if name_lt(k, s[0].0) {
        assert(r1[0] == (k, v1));
        assert(r1.drop_first() =~= s);
        assert(sorted_insert(r1, k, v2) =~= seq![(k, v2)] + s);
    } else {
        assert(r1[0] == s[0]);
        assert(r1.drop_first() =~= sorted_insert(s.drop_first(), k, v1));
        lemma_sorted_insert_twice(s.drop_first(), k, v1, v2);
        assert(sorted_insert(r1, k, v2) =~= seq![s[0]] + sorted_insert(s.drop_first(), k, v2));
    }
}

/// Where the first key not below `k` stands at `i`, storing under `k`
/// replaces or inserts at `i`.
proof fn lemma_sorted_insert_at<W>(s: Seq<(Seq<char>, W)>, k: Seq<char>, v: W, i: int)
    requires
        0 <= i <= s.len(),
        forall|j: int| 0 <= j < i ==> name_lt(#[trigger] s[j].0, k),
        i < s.len() ==> !name_lt(s[i].0, k),
    ensures
        i < s.len() && s[i].0 == k ==> sorted_insert(s, k, v) == s.take(i) + seq![(k, v)] + s.skip(i + 1),
        !(i < s.len() && s[i].0 == k) ==> sorted_insert(s, k, v) == s.take(i) + seq![(k, v)] + s.skip(i),
    decreases i,
{
    if i == 0 {
        assert(s.take(0) =~= Seq::<(Seq<char>, W)>::empty());
        assert(s.skip(0) =~= s);
        if s.len() > 0 {
            assert(s.skip(1) =~= s.drop_first());
            if s[0].0 != k {
                lemma_name_lt_total(k, s[0].0);
            }
        }
    } else {
        assert(name_lt(s[0].0, k));
        lemma_name_lt_asymmetric(s[0].0, k);
        let t = s.drop_first();
        assert forall|j: int| 0 <= j < i - 1 implies name_lt(#[trigger] t[j].0, k) by {
            assert(t[j] == s[j + 1]);
        }
        lemma_sorted_insert_at(t, k, v, i - 1);
        assert(s.take(i) =~= seq![s[0]] + t.take(i - 1));
        assert(s.skip(i) =~= t.skip(i - 1));
        if i < s.len() {
            assert(s.skip(i + 1) =~= t.skip(i));
        }
    }
}

pub proof fn lemma_sorted_insert_sorted<W>(s: Seq<(Seq<char>, W)>, k: Seq<char>, v: W)
    requires
        keys_sorted(s),
    ensures
        keys_sorted(sorted_insert(s, k, v)),
        forall|j: int| 0 <= j < sorted_insert(s, k, v).len() ==>
            #[trigger] sorted_insert(s, k, v)[j].0 == k || exists|m: int| 0 <= m < s.len() && s[m].0 == sorted_insert(s, k, v)[j].0,
    decreases s.len(),
{
    let r = sorted_insert(s, k, v);
    if s.len() == 0 {
    } else if s[0].0 == k {
        assert forall|i: int, j: int| 0 <= i < j < r.len() implies name_lt(#[trigger] r[i].0, #[trigger] r[j].0) by {
            assert(r[j] == s[j]);
            if i > 0 {
                assert(r[i] == s[i]);
            }
        }
        assert forall|j: int| 0 <= j < r.len() implies #[trigger] r[j].0 == k || exists|m: int| 0 <= m < s.len() && s[m].0 == r[j].0 by {
            if j > 0 {
                assert(r[j] == s[j]);
            }
        }
    } else if name_lt(k, s[0].0) {
        assert forall|i: int, j: int| 0 <= i < j < r.len() implies name_lt(#[trigger] r[i].0, #[trigger] r[j].0) by {
            assert(r[j] == s[j - 1]);
            if i > 0 {
                assert(r[i] == s[i - 1]);
            } else if j > 1 {
                lemma_name_lt_transitive(k, s[0].0, s[j - 1].0);
            }
        }
        assert forall|j: int| 0 <= j < r.len() implies #[trigger] r[j].0 == k || exists|m: int| 0 <= m < s.len() && s[m].0 == r[j].0 by {
            if j > 0 {
                assert(r[j] == s[j - 1]);
            }
        }
    } else {
        let t = s.drop_first();
        assert forall|i: int, j: int| 0 <= i < j < t.len() implies name_lt(#[trigger] t[i].0, #[trigger] t[j].0) by {
            assert(t[i] == s[i + 1]);
            assert(t[j] == s[j + 1]);
        }
        lemma_sorted_insert_sorted(t, k, v);
        let rt = sorted_insert(t, k, v);
        assert(r =~= seq![s[0]] + rt);
        lemma_name_lt_total(k, s[0].0);
        assert forall|j: int| 0 <= j < r.len() implies #[trigger] r[j].0 == k || exists|m: int| 0 <= m < s.len() && s[m].0 == r[j].0 by {
            if j > 0 {
                assert(r[j] == rt[j - 1]);
                if rt[j - 1].0 != k {
                    let m = choose|m: int| 0 <= m < t.len() && t[m].0 == rt[j - 1].0;
                    assert(s[m + 1] == t[m]);
                }
            } else {
                assert(s[0].0 == r[0].0);
            }
        }
        assert forall|i: int, j: int| 0 <= i < j < r.len() implies name_lt(#[trigger] r[i].0, #[trigger] r[j].0) by {
            if i > 0 {
                assert(r[i] == rt[i - 1]);
                assert(r[j] == rt[j - 1]);
            } else {
                assert(r[j] == rt[j - 1]);
                assert(rt[j - 1].0 == k || exists|m: int| 0 <= m < t.len() && t[m].0 == rt[j - 1].0);
                if rt[j - 1].0 != k {
                    let m = choose|m: int| 0 <= m < t.len() && t[m].0 == rt[j - 1].0;
                    assert(s[m + 1] == t[m]);
                }
            }
        }
    }
}

/// Replacing the value of an entry that holds key `k` is storing under `k`.
pub proof fn lemma_update_is_insert<W>(s: Seq<(Seq<char>, W)>, i: int, v: W)
    requires
        keys_sorted(s),
        0 <= i < s.len(),
    ensures
        s.update(i, (s[i].0, v)) == sorted_insert(s, s[i].0, v),
{
    let k = s[i].0;
    assert forall|j: int| 0 <= j < i implies name_lt(#[trigger] s[j].0, k) by {}
    lemma_name_lt_irreflexive(k);
    lemma_sorted_insert_at(s, k, v, i);
    assert(s.update(i, (k, v)) =~= s.take(i) + seq![(k, v)] + s.skip(i + 1));
}

/// A map from names to values, its entries kept in increasing key order.
#[derive(Debug)]
pub struct NameMap<V: View> {
    entries: Vec<(String, V)>,
}

impl<V: View> View for NameMap<V> {
    type V = Seq<(Seq<char>, V::V)>;

    closed spec fn view(&self) -> Seq<(Seq<char>, V::V)> {
        self.entries@.map_values(|e: (String, V)| e@)
    }
}

impl<V: View> NameMap<V> {
    #[verifier::type_invariant]
    closed spec fn sorted(self) -> bool {
        keys_sorted(self@)
    }

    /// An empty map.
    pub fn new() -> (r: Self)
        ensures
            r@ == Seq::<(Seq<char>, V::V)>::empty(),
    {
        let r = NameMap { entries: Vec::new() };
        assert(r@ =~= Seq::<(Seq<char>, V::V)>::empty());
        r
    }

    /// The number of entries.
    pub fn len(&self) -> (r: usize)
        ensures
            r == self@.len(),
            keys_sorted(self@),
    {
        proof {
            use_type_invariant(self);
        }
        self.entries.len()
    }

    /// Whether the map has no entry.
    pub fn is_empty(&self) -> (r: bool)
        ensures
            r == (self@.len() == 0),
    {
        self.entries.len() == 0
    }

    /// The key of the entry at position `i`.
    pub fn key_at(&self, i: usize) -> (r: &String)
        requires
            i < self@.len(),
        ensures
            r@ == self@[i as int].0,
    {
        &self.entries[i].0
    }

    /// The value of the entry at position `i`.
    pub fn value_at(&self, i: usize) -> (r: &V)
        requires
            i < self@.len(),
        ensures
            r@ == self@[i as int].1,
    {
        &self.entries[i].1
    }

    /// The position of the entry for `k`, if there is one.
    pub fn find(&self, k: &str) -> (r: Option<usize>)
        ensures
            match r {
                Some(i) => i < self@.len() && self@[i as int].0 == k@ && lookup(self@, k@) == Some(self@[i as int].1),
                None => lookup(self@, k@) is None,
            },
            keys_sorted(self@),
    {
        proof {
            use_type_invariant(self);
        }
        let mut i: usize = 0;
        while i < self.entries.len()
            invariant
                i <= self@.len(),
                self@.len() == self.entries@.len(),
                self@ == self.entries@.map_values(|e: (String, V)| e@),
                keys_sorted(self@),
                forall|j: int| 0 <= j < i ==> #[trigger] self@[j].0 != k@,
            decreases self.entries@.len() - i,
        {
            assert(self@[i as int].0 == self.entries@[i as int].0@);
            if name_eq(self.entries[i].0.as_str(), k) {
                proof {
                    lemma_lookup_index(self@, k@, i as int);
                }
                return Some(i);
            }
            i = i + 1;
        }
        proof {
            lemma_lookup_none(self@, k@);
        }
        None
    }

    /// Whether some entry has key `k`.
    pub fn contains_key(&self, k: &str) -> (r: bool)
        ensures
            r == lookup(self@, k@) is Some,
    {
        self.find(k).is_some()
    }

    /// The value stored under `k`, if any.
    pub fn get(&self, k: &str) -> (r: Option<&V>)
        ensures
            match r {
                Some(v) => lookup(self@, k@) == Some(v@),
                None => lookup(self@, k@) is None,
            },
    {
        match self.find(k) {
            Some(i) => Some(&self.entries[i].1),
            None => None,
        }
    }

    /// Replaces the value of the entry at position `i`, handing back the old one.
    pub fn swap_value(&mut self, i: usize, v: V) -> (r: V)
        requires
            i < old(self)@.len(),
        ensures
            r@ == old(self)@[i as int].1,
            final(self)@ == old(self)@.update(i as int, (old(self)@[i as int].0, v@)),
            final(self)@ == sorted_insert(old(self)@, old(self)@[i as int].0, v@),
    {
        proof {
            use_type_invariant(&*self);
            lemma_update_is_insert(self@, i as int, v@);
            lemma_sorted_insert_sorted(self@, self@[i as int].0, v@);
        }
        let mut entries: Vec<(String, V)> = Vec::new();
        std::mem::swap(&mut entries, &mut self.entries);
        let (k, old_v) = entries.remove(i);
        entries.insert(i, (k, v));
        assert(entries@.map_values(|e: (String, V)| e@) =~= old(self)@.update(i as int, (old(self)@[i as int].0, v@)));
        self.entries = entries;
        old_v
    }

    /// Stores `v` under `k`, replacing the value of an entry with that key.
    pub fn insert(&mut self, k: String, v: V)
        ensures
            final(self)@ == sorted_insert(old(self)@, k@, v@),
    {
        proof {
            use_type_invariant(&*self);
        }
        let ghost s = self@;
        let mut i: usize = 0;
        while i < self.entries.len() && name_less(self.entries[i].0.as_str(), k.as_str())
            invariant
                i <= s.len(),
                s.len() == self.entries@.len(),
                s == self.entries@.map_values(|e: (String, V)| e@),
                forall|j: int| 0 <= j < i ==> name_lt(#[trigger] s[j].0, k@),
            decreases self.entries@.len() - i,
        {
            assert(s[i as int].0 == self.entries@[i as int].0@);
            i = i + 1;
        }
        assert(i < s.len() ==> s[i as int].0 == self.entries@[i as int].0@);
        proof {
            lemma_sorted_insert_at(s, k@, v@, i as int);
            lemma_sorted_insert_sorted(s, k@, v@);
        }
        let mut entries: Vec<(String, V)> = Vec::new();
        std::mem::swap(&mut entries, &mut self.entries);
        if i < entries.len() && name_eq(entries[i].0.as_str(), k.as_str()) {
            assert(s[i as int].0 == entries@[i as int].0@);
            entries.remove(i);
            entries.insert(i, (k, v));
            assert(entries@.map_values(|e: (String, V)| e@) =~= s.take(i as int) + seq![(k@, v@)] + s.skip(i + 1));
            self.entries = entries;
        } else {
            entries.insert(i, (k, v));
            assert(entries@.map_values(|e: (String, V)| e@) =~= s.take(i as int) + seq![(k@, v@)] + s.skip(i as int));
            self.entries = entries;
        }
    }
}

impl NameMap<TypeRef> {
    /// A copy of this map of type references.
    pub fn duplicate(&self) -> (r: NameMap<TypeRef>)
        ensures
            r@ == self@,
    {
        proof {
            use_type_invariant(self);
        }
        let mut entries: Vec<(String, TypeRef)> = Vec::new();
        let mut i: usize = 0;
        while i < self.entries.len()
            invariant
                i <= self.entries@.len(),
                entries@.len() == i,
                forall|k: int| 0 <= k < i ==> #[trigger] entries@[k]@ == self.entries@[k]@,
            decreases self.entries@.len() - i,
        {
            let (k, v) = &self.entries[i];
            entries.push((k.clone(), v.duplicate()));
            i = i + 1;
        }
        assert(entries@.map_values(|e: (String, TypeRef)| e@) =~= self@);
        NameMap { entries }
    }
}

} // verus!
