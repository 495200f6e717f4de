//! A map from strings to values that keeps its entries in insertion order.
//! Keys occur at most once; inserting an existing key replaces its value in
//! place, removing a key keeps the order of the others.
use vstd::prelude::*;

use crate::text::str_equal;

verus! {

/// The position of a key among the entries, or -1.
pub open spec fn key_pos<K, V>(e: Seq<(K, V)>, k: K) -> int
    decreases e.len(),
{
    if e.len() == 0 {
        -1
    } else if e.last().0 == k {
        e.len() - 1
    } else {
        key_pos(e.drop_last(), k)
    }
}

/// Whether some entry has key `k`.
pub open spec fn has_key<K, V>(e: Seq<(K, V)>, k: K) -> bool {
    exists|i: int| 0 <= i < e.len() && (#[trigger] e[i]).0 == k
}

/// The value stored under `k`, if any.
pub open spec fn lookup<K, V>(e: Seq<(K, V)>, k: K) -> Option<V> {
    if key_pos(e, k) >= 0 {
        Some(e[key_pos(e, k)].1)
    } else {
        None
    }
}

/// Whether no key occurs twice.
pub open spec fn keys_unique<K, V>(e: Seq<(K, V)>) -> bool {
    forall|i: int, j: int| 0 <= i < e.len() && 0 <= j < e.len() && i != j ==> (#[trigger] e[i]).0 != (#[trigger] e[j]).0
}

/// The entries after inserting: the value under an existing key is
/// replaced in place, a new key is appended.
pub open spec fn entries_insert<K, V>(e: Seq<(K, V)>, k: K, v: V) -> Seq<(K, V)> {
    if key_pos(e, k) >= 0 {
        e.update(key_pos(e, k), (k, v))
    } else {
        e.push((k, v))
    }
}

/// The entries after removing key `k`.
pub open spec fn entries_remove<K, V>(e: Seq<(K, V)>, k: K) -> Seq<(K, V)> {
    if key_pos(e, k) >= 0 {
        e.remove(key_pos(e, k))
    } else {
        e
    }
}

/// `key_pos` finds exactly the keys that occur, at a position holding the
/// key; with unique keys it is the only such position.
pub proof fn lemma_key_pos<K, V>(e: Seq<(K, V)>, k: K)
    ensures
        -1 <= key_pos(e, k) < e.len(),
        key_pos(e, k) >= 0 <==> has_key(e, k),
        key_pos(e, k) >= 0 ==> e[key_pos(e, k)].0 == k,
        keys_unique(e) ==> forall|i: int| 0 <= i < e.len() && (#[trigger] e[i]).0 == k ==> i == key_pos(e, k),
    decreases e.len(),
{
    if e.len() > 0 {
        lemma_key_pos(e.drop_last(), k);
        if e.last().0 != k {
            if has_key(e, k) {
                let i = choose|i: int| 0 <= i < e.len() && (#[trigger] e[i]).0 == k;
                assert(e.drop_last()[i].0 == k);
            }
            if has_key(e.drop_last(), k) {
                let i = choose|i: int| 0 <= i < e.len() - 1 && (#[trigger] e.drop_last()[i]).0 == k;
                assert(e[i].0 == k);
            }
            if keys_unique(e) {
                assert forall|i: int| 0 <= i < e.len() && (#[trigger] e[i]).0 == k implies i == key_pos(e, k) by {
                    assert(e.drop_last()[i].0 == k);
                }
            }
        } else {
            assert(e[e.len() - 1].0 == k);
        }
    }
}

/// Inserting under one key leaves what other keys hold.
pub proof fn lemma_lookup_insert_other<K, V>(e: Seq<(K, V)>, k: K, v: V, x: K)
    requires
        keys_unique(e),
        x != k,
    ensures
        lookup(entries_insert(e, k, v), x) == lookup(e, x),
{
    lemma_key_pos(e, x);
    lemma_key_pos(e, k);
    lemma_insert_unique(e, k, v);
    let e2 = entries_insert(e, k, v);
    lemma_key_pos(e2, x);
    if has_key(e, x) {
        let i = key_pos(e, x);
        assert(e2[i] == e[i]);
    }
    if has_key(e2, x) {
        let j = key_pos(e2, x);
        assert(e2[j].0 == x);
        assert(j < e.len() && e2[j] == e[j]);
    }
}

/// Inserting keeps keys unique.
pub proof fn lemma_insert_unique<K, V>(e: Seq<(K, V)>, k: K, v: V)
    requires
        keys_unique(e),
    ensures
        keys_unique(entries_insert(e, k, v)),
        has_key(entries_insert(e, k, v), k),
        lookup(entries_insert(e, k, v), k) == Some(v),
        forall|k2: K| k2 != k ==> lookup(#[trigger] entries_insert(e, k, v), k2) == lookup(e, k2),
{
    lemma_key_pos(e, k);
    let e2 = entries_insert(e, k, v);
    assert forall|i: int| 0 <= i < e2.len() implies (#[trigger] e2[i]).0 == (if i < e.len() { e[i].0 } else { k }) by {}
    assert forall|i: int, j: int| 0 <= i < e2.len() && 0 <= j < e2.len() && i != j implies (#[trigger] e2[i]).0 != (#[trigger] e2[j]).0 by {
        if i < e.len() && j < e.len() {
        } else if i < e.len() {
            if key_pos(e, k) < 0 { assert(e[i].0 != k); }
        } else {
            if key_pos(e, k) < 0 { assert(e[j].0 != k); }
        }
    }
    lemma_key_pos(e2, k);
    let p2 = if key_pos(e, k) >= 0 { key_pos(e, k) } else { e.len() as int };
    assert(e2[p2].0 == k);
    assert forall|k2: K| k2 != k implies lookup(#[trigger] entries_insert(e, k, v), k2) == lookup(e, k2) by {
        lemma_key_pos(e, k2);
        lemma_key_pos(e2, k2);
        if key_pos(e, k2) >= 0 {
            assert(e2[key_pos(e, k2)].0 == k2);
        }
        if key_pos(e2, k2) >= 0 {
            assert(e[key_pos(e2, k2)].0 == k2);
        }
    }
}

/// Removing keeps keys unique and drops exactly the removed key.
pub proof fn lemma_remove_unique<K, V>(e: Seq<(K, V)>, k: K)
    requires
        keys_unique(e),
    ensures
        keys_unique(entries_remove(e, k)),
        !has_key(entries_remove(e, k), k),
        lookup(entries_remove(e, k), k) is None,
        forall|k2: K| k2 != k ==> lookup(#[trigger] entries_remove(e, k), k2) == lookup(e, k2),
{
    lemma_key_pos(e, k);
    let e2 = entries_remove(e, k);
    let p = key_pos(e, k);
    if p >= 0 {
        assert forall|i: int| 0 <= i < e2.len() implies (#[trigger] e2[i]) == (if i < p { e[i] } else { e[i + 1] }) by {}
        assert forall|i: int, j: int| 0 <= i < e2.len() && 0 <= j < e2.len() && i != j implies (#[trigger] e2[i]).0 != (#[trigger] e2[j]).0 by {
            let ii = if i < p { i } else { i + 1 };
            let jj = if j < p { j } else { j + 1 };
            assert(e[ii].0 != e[jj].0);
        }
        if has_key(e2, k) {
            let i = choose|i: int| 0 <= i < e2.len() && (#[trigger] e2[i]).0 == k;
            let ii = if i < p { i } else { i + 1 };
            assert(e[ii].0 == k);
        }
    }
    lemma_key_pos(e2, k);
    assert forall|k2: K| k2 != k implies lookup(#[trigger] entries_remove(e, k), k2) == lookup(e, k2) by {
        lemma_key_pos(e, k2);
        lemma_key_pos(e2, k2);
        if p >= 0 {
            if key_pos(e, k2) >= 0 {
                let q = key_pos(e, k2);
                let qq = if q < p { q } else { q - 1 };
                assert(e2[qq].0 == k2);
            }
            if key_pos(e2, k2) >= 0 {
                let q = key_pos(e2, k2);
                let qq = if q < p { q } else { q + 1 };
                assert(e[qq].0 == k2);
            }
        }
    }
}

/// After inserting under `k`, looking `k` up gives the inserted value,
/// whether or not keys are unique.
pub proof fn lemma_lookup_insert<K, V>(e: Seq<(K, V)>, k: K, v: V)
    ensures
        lookup(entries_insert(e, k, v), k) == Some(v),
    decreases e.len(),
{
    let p = key_pos(e, k);
    lemma_key_pos(e, k);
    if p >= 0 {
        let e2 = e.update(p, (k, v));
        if e.last().0 != k {
            let d = e.drop_last();
            assert(key_pos(e, k) == key_pos(d, k));
            lemma_lookup_insert(d, k, v);
            assert(e2.drop_last() =~= d.update(p, (k, v)));
            assert(e2.last() == e.last());
            assert(entries_insert(d, k, v) == d.update(p, (k, v)));
            assert(key_pos(e2, k) == key_pos(e2.drop_last(), k));
            lemma_key_pos(e2.drop_last(), k);
            assert(e2[key_pos(e2, k)] == e2.drop_last()[key_pos(e2, k)]);
        } else {
            assert(e2.last() == (k, v));
        }
    } else {
        assert(e.push((k, v)).last() == (k, v));
    }
}

/// The entries with every value passed through `f`, keys and order kept.
pub open spec fn map_entries<K, V, W>(e: Seq<(K, V)>, f: spec_fn(V) -> W) -> Seq<(K, W)> {
    Seq::new(e.len(), |i: int| (e[i].0, f(e[i].1)))
}

/// Mapping the values keeps every key where it was, so lookups, inserts
/// and removals commute with it.
pub proof fn lemma_map_entries<K, V, W>(e: Seq<(K, V)>, f: spec_fn(V) -> W, k: K, v: V)
    ensures
        key_pos(map_entries(e, f), k) == key_pos(e, k),
        lookup(map_entries(e, f), k) == (match lookup(e, k) {
            Some(x) => Some(f(x)),
            None => None::<W>,
        }),
        map_entries(entries_insert(e, k, v), f) == entries_insert(map_entries(e, f), k, f(v)),
        map_entries(entries_remove(e, k), f) == entries_remove(map_entries(e, f), k),
        keys_unique(e) ==> keys_unique(map_entries(e, f)),
    decreases e.len(),
{
    let m = map_entries(e, f);
    if e.len() > 0 {
        lemma_map_entries(e.drop_last(), f, k, v);
        assert(m.drop_last() =~= map_entries(e.drop_last(), f));
    }
    lemma_key_pos(e, k);
    lemma_key_pos(m, k);
    let p = key_pos(e, k);
    if p >= 0 {
        assert(map_entries(e.update(p, (k, v)), f) =~= m.update(p, (k, f(v))));
        assert(map_entries(e.remove(p), f) =~= m.remove(p));
    } else {
        assert(map_entries(e.push((k, v)), f) =~= m.push((k, f(v))));
    }
    if keys_unique(e) {
        assert forall|i: int, j: int| 0 <= i < m.len() && 0 <= j < m.len() && i != j implies (#[trigger] m[i]).0 != (#[trigger] m[j]).0 by {
            assert(e[i].0 != e[j].0);
        }
    }
}

/// A string-keyed map with insertion order and unique keys.
#[derive(Debug)]
pub struct StrMap<V> {
    entries: Vec<(String, V)>,
}

impl<V> View for StrMap<V> {
    type V = Seq<(Seq<char>, V)>;

    closed spec fn view(&self) -> Seq<(Seq<char>, V)> {
        self.entries@.map_values(|p: (String, V)| (p.0@, p.1))
    }
}

impl<V> StrMap<V> {
    /// Well-formedness: no key occurs twice. This is the type's
    /// invariant, so every map satisfies it.
    #[verifier::type_invariant]
    pub open spec fn wf(&self) -> bool {
        keys_unique(self@)
    }

    fn take_entries(&mut self) -> (r: Vec<(String, V)>)
        ensures
            r@.map_values(|p: (String, V)| (p.0@, p.1)) == old(self)@,
            keys_unique(old(self)@),
            final(self)@ == Seq::<(Seq<char>, V)>::empty(),
    {
        proof { use_type_invariant(&*self); }
        let mut r: Vec<(String, V)> = Vec::new();
        std::mem::swap(&mut r, &mut self.entries);
        assert(self@ =~= Seq::<(Seq<char>, V)>::empty());
        r
    }

    /// An empty map.
    pub fn new() -> (r: StrMap<V>)
        ensures
            r@ == Seq::<(Seq<char>, V)>::empty(),
            r.wf(),
    {
        let r = StrMap { entries: Vec::new() };
        assert(r@ =~= Seq::<(Seq<char>, V)>::empty());
        r
    }

    /// Number of entries.
    pub fn len(&self) -> (r: usize)
        ensures
            r == self@.len(),
    {
        self.entries.len()
    }

    /// Whether the map has no entries.
    pub fn is_empty(&self) -> (r: bool)
        ensures
            r == (self@.len() == 0),
    {
        self.entries.len() == 0
    }

    /// The key of the entry at position `i`.
    pub fn key_at(&self, i: usize) -> (r: &String)
        requires
            i < self@.len(),
        ensures
            r@ == self@[i as int].0,
    {
        &self.entries[i].0
    }

    /// The value of the entry at position `i`.
    pub fn value_at(&self, i: usize) -> (r: &V)
        requires
            i < self@.len(),
        ensures
            *r == self@[i as int].1,
    {
        &self.entries[i].1
    }

    /// The position of `key`, if present.
    pub fn find(&self, key: &str) -> (r: Option<usize>)
        ensures
            match r {
                Some(i) => i == key_pos(self@, key@) && i < self@.len(),
                None => key_pos(self@, key@) == -1,
            },
    {
        proof {
            use_type_invariant(self);
            lemma_key_pos(self@, key@);
        }
        let mut i: usize = 0;
        while i < self.entries.len()
            invariant
                i <= self@.len(),
                self@.len() == self.entries@.len(),
                forall|j: int| 0 <= j < i ==> (#[trigger] self@[j]).0 != key@,
                self.wf(),
            decreases self@.len() - i,
        {
            assert(self@[i as int].0 == self.entries@[i as int].0@);
            if str_equal(self.entries[i].0.as_str(), key) {
                proof { lemma_key_pos(self@, key@); }
                return Some(i);
            }
            i = i + 1;
        }
        None
    }

    /// The value stored under `key`.
    pub fn get(&self, key: &str) -> (r: Option<&V>)
        ensures
            match r {
                Some(v) => lookup(self@, key@) == Some(*v),
                None => lookup(self@, key@) is None,
            },
    {
        match self.find(key) {
            Some(i) => Some(&self.entries[i].1),
            None => None,
        }
    }

    /// Whether `key` is present.
    pub fn contains_key(&self, key: &str) -> (r: bool)
        ensures
            r == has_key(self@, key@),
            r == (lookup(self@, key@) is Some),
    {
        proof {
            use_type_invariant(self);
            lemma_key_pos(self@, key@);
        }
        self.find(key).is_some()
    }

    /// Inserts or replaces the value under `key`.
    pub fn insert(&mut self, key: String, value: V)
        ensures
            final(self)@ == entries_insert(old(self)@, key@, value),
            final(self).wf(),
    {
        let pos = self.find(key.as_str());
        let ghost k = key@;
        let mut entries = self.take_entries();
        proof { lemma_insert_unique(old(self)@, k, value); }
        match pos {
            Some(i) => {
                let _old = entries.remove(i);
                entries.insert(i, (key, value));
                assert(entries@.map_values(|p: (String, V)| (p.0@, p.1)) =~= old(self)@.update(i as int, (k, value)));
            },
            None => {
                entries.push((key, value));
                assert(entries@.map_values(|p: (String, V)| (p.0@, p.1)) =~= old(self)@.push((k, value)));
            },
        }
        self.entries = entries;
    }

    /// Removes `key`, giving back its value.
    pub fn remove(&mut self, key: &str) -> (r: Option<V>)
        ensures
            final(self)@ == entries_remove(old(self)@, key@),
            r == lookup(old(self)@, key@),
            final(self).wf(),
    {
        let pos = self.find(key);
        let mut entries = self.take_entries();
        proof { lemma_remove_unique(old(self)@, key@); }
        match pos {
            Some(i) => {
                let (_, v) = entries.remove(i);
                assert(entries@.map_values(|p: (String, V)| (p.0@, p.1)) =~= old(self)@.remove(i as int));
                self.entries = entries;
                Some(v)
            },
            None => {
                self.entries = entries;
                None
            },
        }
    }

    /// Replaces the value at position `i`, keeping its key.
    pub fn set_value_at(&mut self, i: usize, value: V)
        requires
            i < old(self)@.len(),
        ensures
            final(self)@ == old(self)@.update(i as int, (old(self)@[i as int].0, value)),
            final(self).wf(),
    {
        let mut entries = self.take_entries();
        let (k, _) = entries.remove(i);
        entries.insert(i, (k, value));
        let ghost e2 = entries@.map_values(|p: (String, V)| (p.0@, p.1));
        assert(e2 =~= old(self)@.update(i as int, (old(self)@[i as int].0, value)));
        assert forall|a: int, b: int| 0 <= a < e2.len() && 0 <= b < e2.len() && a != b implies (#[trigger] e2[a]).0 != (#[trigger] e2[b]).0 by {
            assert(e2[a].0 == old(self)@[a].0);
            assert(e2[b].0 == old(self)@[b].0);
        }
        self.entries = entries;
    }

    /// Replaces the value at position `i`, keeping its key, and gives back
    /// the value it held.
    pub fn replace_value_at(&mut self, i: usize, value: V) -> (r: V)
        requires
            i < old(self)@.len(),
        ensures
            final(self)@ == old(self)@.update(i as int, (old(self)@[i as int].0, value)),
            r == old(self)@[i as int].1,
            final(self).wf(),
    {
        let mut entries = self.take_entries();
        let (k, old_value) = entries.remove(i);
        entries.insert(i, (k, value));
        let ghost e2 = entries@.map_values(|p: (String, V)| (p.0@, p.1));
        assert(e2 =~= old(self)@.update(i as int, (old(self)@[i as int].0, value)));
        assert forall|a: int, b: int| 0 <= a < e2.len() && 0 <= b < e2.len() && a != b implies (#[trigger] e2[a]).0 != (#[trigger] e2[b]).0 by {
            assert(e2[a].0 == old(self)@[a].0);
            assert(e2[b].0 == old(self)@[b].0);
        }
        self.entries = entries;
        old_value
    }

    /// Removes every entry.
    pub fn clear(&mut self)
        ensures
            final(self)@ == Seq::<(Seq<char>, V)>::empty(),
            final(self).wf(),
    {
        self.entries = Vec::new();
        assert(self@ =~= Seq::<(Seq<char>, V)>::empty());
    }
}

} // verus!
