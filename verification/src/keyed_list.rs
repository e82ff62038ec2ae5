//! A small map for keys that can only be compared for equality.
//!
//! Markets and payout controls are named by hashes and public keys. The
//! cache holds few of them, so they are kept in a list without repeated keys
//! and looked up by comparing.
use crate::types::Identity;
use crate::types::OutPoint;
use vstd::prelude::*;

verus! {

/// Keys that can be told apart.
pub trait Key: Sized {
    /// Whether both are the same key.
    fn same_key(&self, other: &Self) -> (r: bool)
        ensures
            r == (*self == *other),
    ;
}

impl Key for OutPoint {
    fn same_key(&self, other: &OutPoint) -> (r: bool) {
        self.same_as(other)
    }
}

impl Key for Identity {
    fn same_key(&self, other: &Identity) -> (r: bool) {
        self.same_as(other)
    }
}

/// No key occurs twice.
spec fn distinct_keys<K, V>(s: Seq<(K, V)>) -> bool {
    forall|i: int, j: int| 0 <= i < j < s.len() ==> (#[trigger] s[i]).0 != (#[trigger] s[j]).0
}

/// Some entry of `s` has the key `k`.
spec fn lists_key<K, V>(s: Seq<(K, V)>, k: K) -> bool {
    exists|i: int| 0 <= i < s.len() && (#[trigger] s[i]).0 == k
}

/// The position of an entry with the key `k`, where one exists.
spec fn position_of<K, V>(s: Seq<(K, V)>, k: K) -> int {
    choose|i: int| 0 <= i < s.len() && (#[trigger] s[i]).0 == k
}

/// The map that a list of entries stands for.
spec fn list_map<K, V>(s: Seq<(K, V)>) -> Map<K, V> {
    Map::new(|k: K| lists_key(s, k), |k: K| s[position_of(s, k)].1)
}

/// In a list without repeated keys a key has one position.
proof fn lemma_position_unique<K, V>(s: Seq<(K, V)>, i: int)
    requires
        distinct_keys(s),
        0 <= i < s.len(),
    ensures
        lists_key(s, s[i].0),
        position_of(s, s[i].0) == i,
        list_map(s).contains_key(s[i].0),
        list_map(s)[s[i].0] == s[i].1,
{
    let k = s[i].0;
    assert(lists_key(s, k));
    let j = position_of(s, k);
    assert(0 <= j < s.len() && s[j].0 == k);
    if j < i {
        assert(s[j].0 != s[i].0);
    } else if i < j {
        assert(s[i].0 != s[j].0);
    }
}

/// Appending an entry with a new key adds exactly that entry.
proof fn lemma_list_push<K, V>(s: Seq<(K, V)>, k: K, v: V)
    requires
        distinct_keys(s),
        !lists_key(s, k),
    ensures
        distinct_keys(s.push((k, v))),
        list_map(s.push((k, v))) == list_map(s).insert(k, v),
{
    let t = s.push((k, v));
    assert forall|a: int, b: int| 0 <= a < b < t.len() implies (#[trigger] t[a]).0 != (#[trigger] t[b]).0 by {
        if b < s.len() {
            assert(s[a].0 != s[b].0);
        } else {
            assert(t[a] == s[a]);
        }
    }
    assert forall|q: K| #[trigger] list_map(t).contains_key(q) <==> list_map(s).insert(k, v).contains_key(q) by {
        if lists_key(t, q) {
            let a = position_of(t, q);
            if a < s.len() {
                assert(t[a] == s[a]);
                assert(lists_key(s, q));
            }
        }
        if lists_key(s, q) {
            let a = position_of(s, q);
            assert(t[a] == s[a]);
            assert(lists_key(t, q));
        }
        if q == k {
            assert(t[s.len() as int].0 == k);
            assert(lists_key(t, q));
        }
    }
    assert forall|q: K| list_map(t).contains_key(q) implies #[trigger] list_map(t)[q] == list_map(s).insert(k, v)[q] by {
        let a = position_of(t, q);
        lemma_position_unique(t, a);
        if a < s.len() {
            assert(t[a] == s[a]);
            lemma_position_unique(s, a);
        }
    }
    assert(list_map(t) =~= list_map(s).insert(k, v));
}

/// Replacing the value at a position keeps the keys and changes one value.
proof fn lemma_list_update<K, V>(s: Seq<(K, V)>, i: int, v: V)
    requires
        distinct_keys(s),
        0 <= i < s.len(),
    ensures
        distinct_keys(s.update(i, (s[i].0, v))),
        list_map(s.update(i, (s[i].0, v))) == list_map(s).insert(s[i].0, v),
{
    let k = s[i].0;
    let t = s.update(i, (k, v));
    assert forall|a: int, b: int| 0 <= a < b < t.len() implies (#[trigger] t[a]).0 != (#[trigger] t[b]).0 by {
        assert(t[a].0 == s[a].0);
        assert(t[b].0 == s[b].0);
    }
    assert forall|q: K| #[trigger] list_map(t).contains_key(q) <==> list_map(s).insert(k, v).contains_key(q) by {
        if lists_key(t, q) {
            let a = position_of(t, q);
            assert(s[a].0 == q);
            assert(lists_key(s, q));
        }
        if lists_key(s, q) {
            let a = position_of(s, q);
            assert(t[a].0 == q);
            assert(lists_key(t, q));
        }
        if q == k {
            assert(t[i].0 == k);
            assert(lists_key(t, q));
        }
    }
    assert forall|q: K| list_map(t).contains_key(q) implies #[trigger] list_map(t)[q] == list_map(s).insert(k, v)[q] by {
        let a = position_of(t, q);
        lemma_position_unique(t, a);
        if a != i {
            assert(t[a] == s[a]);
            lemma_position_unique(s, a);
        }
    }
    assert(list_map(t) =~= list_map(s).insert(k, v));
}

/// Taking out the entry at a position removes exactly its key.
proof fn lemma_list_remove<K, V>(s: Seq<(K, V)>, i: int)
    requires
        distinct_keys(s),
        0 <= i < s.len(),
    ensures
        distinct_keys(s.remove(i)),
        list_map(s.remove(i)) == list_map(s).remove(s[i].0),
{
    let k = s[i].0;
    let t = s.remove(i);
    assert forall|a: int, b: int| 0 <= a < b < t.len() implies (#[trigger] t[a]).0 != (#[trigger] t[b]).0 by {
        let sa = if a < i { a } else { a + 1 };
        let sb = if b < i { b } else { b + 1 };
        assert(t[a] == s[sa]);
        assert(t[b] == s[sb]);
        assert(s[sa].0 != s[sb].0);
    }
    assert forall|q: K| #[trigger] list_map(t).contains_key(q) <==> list_map(s).remove(k).contains_key(q) by {
        if lists_key(t, q) {
            let a = position_of(t, q);
            let sa = if a < i { a } else { a + 1 };
            assert(t[a] == s[sa]);
            assert(lists_key(s, q));
            if sa < i {
                assert(s[sa].0 != s[i].0);
            } else {
                assert(s[i].0 != s[sa].0);
            }
        }
        if lists_key(s, q) && q != k {
            let a = position_of(s, q);
            let ta = if a < i { a } else { a - 1 };
            assert(t[ta] == s[a]);
            assert(lists_key(t, q));
        }
    }
    assert forall|q: K| list_map(t).contains_key(q) implies #[trigger] list_map(t)[q] == list_map(s).remove(k)[q] by {
        let a = position_of(t, q);
        lemma_position_unique(t, a);
        let sa = if a < i { a } else { a + 1 };
        assert(t[a] == s[sa]);
        lemma_position_unique(s, sa);
    }
    assert(list_map(t) =~= list_map(s).remove(k));
}

/// A map from keys to values, held as a list without repeated keys.
pub struct KeyedList<K, V> {
    entries: Vec<(K, V)>,
}

impl<K, V> View for KeyedList<K, V> {
    type V = Map<K, V>;

    closed spec fn view(&self) -> Map<K, V> {
        list_map(self.entries@)
    }
}

impl<K: Key, V> KeyedList<K, V> {
    /// No key occurs twice.
    pub closed spec fn wf(&self) -> bool {
        distinct_keys(self.entries@)
    }

    /// The keys of the map, in the order in which they were first stored.
    pub closed spec fn keys(&self) -> Seq<K> {
        self.entries@.map_values(|e: (K, V)| e.0)
    }

    /// An empty map.
    pub fn new() -> (m: Self)
        ensures
            m.wf(),
            m@ == Map::<K, V>::empty(),
            m.keys().len() == 0,
    {
        let m = KeyedList { entries: Vec::new() };
        assert(m@ =~= Map::<K, V>::empty());
        m
    }

    /// The number of entries. The listed keys are exactly the keys of the map, each once.
    pub fn len(&self) -> (n: usize)
        requires
            self.wf(),
        ensures
            n == self.keys().len(),
            self.keys().no_duplicates(),
            forall|i: int| 0 <= i < self.keys().len() ==> self@.contains_key(#[trigger] self.keys()[i]),
            forall|k: K| self@.contains_key(k) ==> self.keys().contains(k),
    {
        proof {
            let s = self.entries@;
            let keys = self.keys();
            assert forall|i: int, j: int| 0 <= i < keys.len() && 0 <= j < keys.len() && i != j implies keys[i]
                != keys[j] by {
                if i < j {
                    assert(s[i].0 != s[j].0);
                } else {
                    assert(s[j].0 != s[i].0);
                }
            }
            assert forall|i: int| 0 <= i < keys.len() implies self@.contains_key(#[trigger] keys[i]) by {
                lemma_position_unique(s, i);
            }
            assert forall|k: K| self@.contains_key(k) implies keys.contains(k) by {
                let i = position_of(s, k);
                assert(keys[i] == k);
            }
        }
        self.entries.len()
    }

    /// The key at position `i` of the list.
    pub fn key_at(&self, i: usize) -> (k: &K)
        requires
            self.wf(),
            i < self.keys().len(),
        ensures
            *k == self.keys()[i as int],
            self@.contains_key(*k),
    {
        proof {
            lemma_position_unique(self.entries@, i as int);
        }
        &self.entries[i].0
    }

    /// The value at position `i` of the list.
    pub fn value_at(&self, i: usize) -> (v: &V)
        requires
            self.wf(),
            i < self.keys().len(),
        ensures
            self@.contains_key(self.keys()[i as int]),
            *v == self@[self.keys()[i as int]],
    {
        proof {
            lemma_position_unique(self.entries@, i as int);
        }
        &self.entries[i].1
    }

    /// The position of `key` in the list, if it is there.
    fn find(&self, key: &K) -> (r: Option<usize>)
        requires
            self.wf(),
        ensures
            match r {
                Some(i) => i < self.entries@.len() && self.entries@[i as int].0 == *key,
                None => !lists_key(self.entries@, *key),
            },
    {
        let mut i: usize = 0;
        while i < self.entries.len()
            invariant
                i <= self.entries@.len(),
                forall|j: int| 0 <= j < i ==> (#[trigger] self.entries@[j]).0 != *key,
            decreases self.entries@.len() - i,
        {
            if self.entries[i].0.same_key(key) {
                return Some(i);
            }
            i += 1;
        }
        None
    }

    /// The value stored under `key`, if any.
    pub fn get(&self, key: &K) -> (r: Option<&V>)
        requires
            self.wf(),
        ensures
            r is Some <==> self@.contains_key(*key),
            r matches Some(v) ==> *v == self@[*key],
    {
        match self.find(key) {
            Some(i) => {
                proof {
                    lemma_position_unique(self.entries@, i as int);
                }
                Some(&self.entries[i].1)
            },
            None => None,
        }
    }

    /// Stores `value` under `key`, replacing what was there.
    pub fn insert(&mut self, key: K, value: V)
        requires
            old(self).wf(),
        ensures
            final(self).wf(),
            final(self)@ == old(self)@.insert(key, value),
    {
        match self.find(&key) {
            Some(i) => {
                proof {
                    lemma_list_update(self.entries@, i as int, value);
                }
                self.entries.set(i, (key, value));
            },
            None => {
                proof {
                    lemma_list_push(self.entries@, key, value);
                }
                self.entries.push((key, value));
            },
        }
    }

    /// Removes what is stored under `key`, if anything.
    pub fn remove(&mut self, key: &K)
        requires
            old(self).wf(),
        ensures
            final(self).wf(),
            final(self)@ == old(self)@.remove(*key),
    {
        match self.find(key) {
            Some(i) => {
                proof {
                    lemma_list_remove(self.entries@, i as int);
                }
                self.entries.remove(i);
            },
            None => {
                proof {
                    assert(self@ =~= self@.remove(*key));
                }
            },
        }
    }
}

} // verus!
