//! A map from `u64` identifiers to values that keeps its entries in
//! insertion order, with the same semantics as the string-keyed map.
use vstd::prelude::*;

use crate::strmap::{entries_insert, entries_remove, has_key, key_pos, keys_unique, lemma_insert_unique, lemma_key_pos, lemma_remove_unique, lookup};

verus! {

/// A map from `u64` identifiers with insertion order and unique keys.
#[derive(Debug)]
pub struct IdMap<V> {
    entries: Vec<(u64, V)>,
}

impl<V> View for IdMap<V> {
    type V = Seq<(u64, V)>;

    closed spec fn view(&self) -> Seq<(u64, V)> {
        self.entries@
    }
}

impl<V> IdMap<V> {
    /// Well-formedness: no key occurs twice. This is the type's
    /// invariant, so every map satisfies it.
    #[verifier::type_invariant]
    pub open spec fn wf(&self) -> bool {
        keys_unique(self@)
    }

    fn take_entries(&mut self) -> (r: Vec<(u64, V)>)
        ensures
            r@ == old(self)@,
            keys_unique(old(self)@),
            final(self)@ == Seq::<(u64, V)>::empty(),
    {
        proof { use_type_invariant(&*self); }
        let mut r: Vec<(u64, V)> = Vec::new();
        std::mem::swap(&mut r, &mut self.entries);
        assert(self@ =~= Seq::<(u64, V)>::empty());
        r
    }

    /// An empty map.
    pub fn new() -> (r: IdMap<V>)
        ensures
            r@ == Seq::<(u64, V)>::empty(),
            r.wf(),
    {
        let r = IdMap { entries: Vec::new() };
        assert(r@ =~= Seq::<(u64, V)>::empty());
        r
    }

    /// Number of entries.
    pub fn len(&self) -> (r: usize)
        ensures
            r == self@.len(),
    {
        self.entries.len()
    }

    /// Whether the map has no entries.
    pub fn is_empty(&self) -> (r: bool)
        ensures
            r == (self@.len() == 0),
    {
        self.entries.len() == 0
    }

    /// The key of the entry at position `i`.
    pub fn key_at(&self, i: usize) -> (r: u64)
        requires
            i < self@.len(),
        ensures
            r == self@[i as int].0,
    {
        self.entries[i].0
    }

    /// The value of the entry at position `i`.
    pub fn value_at(&self, i: usize) -> (r: &V)
        requires
            i < self@.len(),
        ensures
            *r == self@[i as int].1,
    {
        &self.entries[i].1
    }

    /// The position of `key`, if present.
    pub fn find(&self, key: u64) -> (r: Option<usize>)
        ensures
            match r {
                Some(i) => i == key_pos(self@, key) && i < self@.len(),
                None => key_pos(self@, key) == -1,
            },
    {
        proof {
            use_type_invariant(self);
            lemma_key_pos(self@, key);
        }
        let mut i: usize = 0;
        while i < self.entries.len()
            invariant
                i <= self@.len(),
                self@.len() == self.entries@.len(),
                forall|j: int| 0 <= j < i ==> (#[trigger] self@[j]).0 != key,
                self.wf(),
            decreases self@.len() - i,
        {
            if self.entries[i].0 == key {
                proof { lemma_key_pos(self@, key); }
                return Some(i);
            }
            i = i + 1;
        }
        None
    }

    /// The value stored under `key`.
    pub fn get(&self, key: u64) -> (r: Option<&V>)
        ensures
            match r {
                Some(v) => lookup(self@, key) == Some(*v),
                None => lookup(self@, key) is None,
            },
    {
        match self.find(key) {
            Some(i) => Some(&self.entries[i].1),
            None => None,
        }
    }

    /// Whether `key` is present.
    pub fn contains_key(&self, key: u64) -> (r: bool)
        ensures
            r == has_key(self@, key),
            r == (lookup(self@, key) is Some),
    {
        proof {
            use_type_invariant(self);
            lemma_key_pos(self@, key);
        }
        self.find(key).is_some()
    }

    /// Inserts or replaces the value under `key`.
    pub fn insert(&mut self, key: u64, value: V)
        ensures
            final(self)@ == entries_insert(old(self)@, key, value),
            final(self).wf(),
    {
        let pos = self.find(key);
        let ghost k = key;
        let mut entries = self.take_entries();
        proof { lemma_insert_unique(old(self)@, k, value); }
        match pos {
            Some(i) => {
                let _old = entries.remove(i);
                entries.insert(i, (key, value));
                assert(entries@ =~= old(self)@.update(i as int, (k, value)));
            },
            None => {
                entries.push((key, value));
                assert(entries@ =~= old(self)@.push((k, value)));
            },
        }
        self.entries = entries;
    }

    /// Takes the entry at position `i` out of the map.
    pub fn take_at(&mut self, i: usize) -> (r: (u64, V))
        requires
            i < old(self)@.len(),
        ensures
            r == old(self)@[i as int],
            final(self)@ == old(self)@.remove(i as int),
            !has_key(final(self)@, r.0),
            final(self).wf(),
    {
        let mut entries = self.take_entries();
        let r = entries.remove(i);
        let ghost e = entries@;
        assert(e =~= old(self)@.remove(i as int));
        assert forall|a: int, b: int| 0 <= a < e.len() && 0 <= b < e.len() && a != b implies (#[trigger] e[a]).0 != (#[trigger] e[b]).0 by {
            let oa = if a < i { a } else { a + 1 };
            let ob = if b < i { b } else { b + 1 };
            assert(e[a] == old(self)@[oa] && e[b] == old(self)@[ob]);
        }
        assert(!has_key(e, r.0)) by {
            if has_key(e, r.0) {
                let a = choose|a: int| 0 <= a < e.len() && (#[trigger] e[a]).0 == r.0;
                let oa = if a < i { a } else { a + 1 };
                assert(e[a] == old(self)@[oa]);
                assert(old(self)@[i as int] == r);
            }
        }
        self.entries = entries;
        r
    }

    /// Puts an entry into the map at position `i`; its key must be absent.
    pub fn put_at(&mut self, i: usize, key: u64, value: V)
        requires
            i <= old(self)@.len(),
            !has_key(old(self)@, key),
        ensures
            final(self)@ == old(self)@.insert(i as int, (key, value)),
            final(self).wf(),
    {
        let mut entries = self.take_entries();
        entries.insert(i, (key, value));
        let ghost e = entries@;
        let ghost o = old(self)@;
        assert(e =~= o.insert(i as int, (key, value)));
        assert forall|a: int, b: int| 0 <= a < e.len() && 0 <= b < e.len() && a != b implies (#[trigger] e[a]).0 != (#[trigger] e[b]).0 by {
            if a != i && b != i {
                let oa = if a < i { a } else { a - 1 };
                let ob = if b < i { b } else { b - 1 };
                assert(e[a] == o[oa] && e[b] == o[ob]);
            } else if a == i {
                let ob = if b < i { b } else { b - 1 };
                assert(e[b] == o[ob]);
                assert(!(o[ob].0 == key));
            } else {
                let oa = if a < i { a } else { a - 1 };
                assert(e[a] == o[oa]);
                assert(!(o[oa].0 == key));
            }
        }
        self.entries = entries;
    }

    /// Removes `key`, giving back its value.
    pub fn remove(&mut self, key: u64) -> (r: Option<V>)
        ensures
            final(self)@ == entries_remove(old(self)@, key),
            r == lookup(old(self)@, key),
            final(self).wf(),
    {
        let pos = self.find(key);
        let mut entries = self.take_entries();
        proof { lemma_remove_unique(old(self)@, key); }
        match pos {
            Some(i) => {
                let (_, v) = entries.remove(i);
                assert(entries@ =~= old(self)@.remove(i as int));
                self.entries = entries;
                Some(v)
            },
            None => {
                self.entries = entries;
                None
            },
        }
    }

    /// Replaces the value at position `i`, keeping its key.
    pub fn set_value_at(&mut self, i: usize, value: V)
        requires
            i < old(self)@.len(),
        ensures
            final(self)@ == old(self)@.update(i as int, (old(self)@[i as int].0, value)),
            final(self).wf(),
    {
        let mut entries = self.take_entries();
        let (k, _) = entries.remove(i);
        entries.insert(i, (k, value));
        let ghost e2 = entries@;
        assert(e2 =~= old(self)@.update(i as int, (old(self)@[i as int].0, value)));
        assert forall|a: int, b: int| 0 <= a < e2.len() && 0 <= b < e2.len() && a != b implies (#[trigger] e2[a]).0 != (#[trigger] e2[b]).0 by {
            assert(e2[a].0 == old(self)@[a].0);
            assert(e2[b].0 == old(self)@[b].0);
        }
        self.entries = entries;
    }

    /// Replaces the value at position `i`, keeping its key, and gives back
    /// the value it held.
    pub fn replace_value_at(&mut self, i: usize, value: V) -> (r: V)
        requires
            i < old(self)@.len(),
        ensures
            final(self)@ == old(self)@.update(i as int, (old(self)@[i as int].0, value)),
            r == old(self)@[i as int].1,
            final(self).wf(),
    {
        let mut entries = self.take_entries();
        let (k, old_value) = entries.remove(i);
        entries.insert(i, (k, value));
        let ghost e2 = entries@;
        assert(e2 =~= old(self)@.update(i as int, (old(self)@[i as int].0, value)));
        assert forall|a: int, b: int| 0 <= a < e2.len() && 0 <= b < e2.len() && a != b implies (#[trigger] e2[a]).0 != (#[trigger] e2[b]).0 by {
            assert(e2[a].0 == old(self)@[a].0);
            assert(e2[b].0 == old(self)@[b].0);
        }
        self.entries = entries;
        old_value
    }

    /// Removes every entry.
    pub fn clear(&mut self)
        ensures
            final(self)@ == Seq::<(u64, V)>::empty(),
            final(self).wf(),
    {
        self.entries = Vec::new();
        assert(self@ =~= Seq::<(u64, V)>::empty());
    }
}

} // verus!
