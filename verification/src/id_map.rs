//! An ordered map keyed by sequential integer ids.
//!
//! The local cache is scanned in ascending id order, and the newest id is
//! read off its end, so the entries are kept in a vector that is strictly
//! ascending by id.
use vstd::prelude::*;

verus! {

/// The entries are strictly ascending by id.
spec fn ascending<V>(s: Seq<(u64, V)>) -> bool {
    forall|i: int, j: int| 0 <= i < j < s.len() ==> (#[trigger] s[i]).0 < (#[trigger] s[j]).0
}

/// Some entry of `s` carries the id `k`.
spec fn has_key<V>(s: Seq<(u64, V)>, k: u64) -> bool {
    exists|i: int| 0 <= i < s.len() && (#[trigger] s[i]).0 == k
}

/// The position of an entry with id `k`, where one exists.
spec fn index_of<V>(s: Seq<(u64, V)>, k: u64) -> int {
    choose|i: int| 0 <= i < s.len() && (#[trigger] s[i]).0 == k
}

/// The map that a sequence of entries stands for.
spec fn as_map<V>(s: Seq<(u64, V)>) -> Map<u64, V> {
    Map::new(|k: u64| has_key(s, k), |k: u64| s[index_of(s, k)].1)
}

/// In an ascending sequence an id occurs at one position only.
proof fn lemma_index_unique<V>(s: Seq<(u64, V)>, i: int)
    requires
        ascending(s),
        0 <= i < s.len(),
    ensures
        has_key(s, s[i].0),
        index_of(s, s[i].0) == i,
        as_map(s).contains_key(s[i].0),
        as_map(s)[s[i].0] == s[i].1,
{
    let k = s[i].0;
    assert(has_key(s, k));
    let j = index_of(s, k);
    assert(0 <= j < s.len() && s[j].0 == k);
    if j < i {
        assert(s[j].0 < s[i].0);
    } else if i < j {
        assert(s[i].0 < s[j].0);
    }
}

/// Putting a fresh id at its ordered position adds exactly that entry.
proof fn lemma_insert_at<V>(s: Seq<(u64, V)>, i: int, k: u64, v: V)
    requires
        ascending(s),
        0 <= i <= s.len(),
        forall|j: int| 0 <= j < i ==> (#[trigger] s[j]).0 < k,
        forall|j: int| i <= j < s.len() ==> (#[trigger] s[j]).0 > k,
    ensures
        ascending(s.insert(i, (k, v))),
        as_map(s.insert(i, (k, v))) == as_map(s).insert(k, v),
{
    let t = s.insert(i, (k, v));
    assert forall|a: int, b: int| 0 <= a < b < t.len() implies (#[trigger] t[a]).0 < (#[trigger] t[b]).0 by {
        let sa = if a < i { a } else { a - 1 };
        let sb = if b < i { b } else { b - 1 };
        if a != i && b != i {
            assert(t[a] == s[sa]);
            assert(t[b] == s[sb]);
            assert(s[sa].0 < s[sb].0);
        } else if a == i {
            assert(t[b] == s[sb]);
        } else {
            assert(t[a] == s[sa]);
        }
    }
    assert forall|q: u64| #[trigger] as_map(t).contains_key(q) <==> as_map(s).insert(k, v).contains_key(q) by {
        if has_key(t, q) {
            let a = index_of(t, q);
            if a != i {
                let sa = if a < i { a } else { a - 1 };
                assert(t[a] == s[sa]);
                assert(has_key(s, q));
            }
        }
        if has_key(s, q) {
            let a = index_of(s, q);
            let ta = if a < i { a } else { a + 1 };
            assert(t[ta] == s[a]);
            assert(has_key(t, q));
        }
        if q == k {
            assert(t[i].0 == k);
            assert(has_key(t, q));
        }
    }
    assert forall|q: u64| as_map(t).contains_key(q) implies #[trigger] as_map(t)[q] == as_map(s).insert(k, v)[q] by {
        let a = index_of(t, q);
        lemma_index_unique(t, a);
        if a == i {
        } else {
            let sa = if a < i { a } else { a - 1 };
            assert(t[a] == s[sa]);
            lemma_index_unique(s, sa);
        }
    }
    assert(as_map(t) =~= as_map(s).insert(k, v));
}

/// Replacing the value at a position keeps the ids and changes one value.
proof fn lemma_update_at<V>(s: Seq<(u64, V)>, i: int, v: V)
    requires
        ascending(s),
        0 <= i < s.len(),
    ensures
        ascending(s.update(i, (s[i].0, v))),
        as_map(s.update(i, (s[i].0, v))) == as_map(s).insert(s[i].0, v),
{
    let k = s[i].0;
    let t = s.update(i, (k, v));
    assert forall|a: int, b: int| 0 <= a < b < t.len() implies (#[trigger] t[a]).0 < (#[trigger] t[b]).0 by {
        assert(t[a].0 == s[a].0);
        assert(t[b].0 == s[b].0);
    }
    assert forall|q: u64| #[trigger] as_map(t).contains_key(q) <==> as_map(s).insert(k, v).contains_key(q) by {
        if has_key(t, q) {
            let a = index_of(t, q);
            assert(s[a].0 == q);
            assert(has_key(s, q));
        }
        if has_key(s, q) {
            let a = index_of(s, q);
            assert(t[a].0 == q);
            assert(has_key(t, q));
        }
        if q == k {
            assert(t[i].0 == k);
            assert(has_key(t, q));
        }
    }
    assert forall|q: u64| as_map(t).contains_key(q) implies #[trigger] as_map(t)[q] == as_map(s).insert(k, v)[q] by {
        let a = index_of(t, q);
        lemma_index_unique(t, a);
        if a != i {
            assert(t[a] == s[a]);
            lemma_index_unique(s, a);
        }
    }
    assert(as_map(t) =~= as_map(s).insert(k, v));
}

/// Taking out the entry at a position removes exactly its id.
proof fn lemma_remove_at<V>(s: Seq<(u64, V)>, i: int)
    requires
        ascending(s),
        0 <= i < s.len(),
    ensures
        ascending(s.remove(i)),
        as_map(s.remove(i)) == as_map(s).remove(s[i].0),
{
    let k = s[i].0;
    let t = s.remove(i);
    assert forall|a: int, b: int| 0 <= a < b < t.len() implies (#[trigger] t[a]).0 < (#[trigger] t[b]).0 by {
        let sa = if a < i { a } else { a + 1 };
        let sb = if b < i { b } else { b + 1 };
        assert(t[a] == s[sa]);
        assert(t[b] == s[sb]);
        assert(s[sa].0 < s[sb].0);
    }
    assert forall|q: u64| #[trigger] as_map(t).contains_key(q) <==> as_map(s).remove(k).contains_key(q) by {
        if has_key(t, q) {
            let a = index_of(t, q);
            let sa = if a < i { a } else { a + 1 };
            assert(t[a] == s[sa]);
            assert(has_key(s, q));
            if sa < i {
                assert(s[sa].0 < s[i].0);
            } else {
                assert(s[i].0 < s[sa].0);
            }
        }
        if has_key(s, q) && q != k {
            let a = index_of(s, q);
            let ta = if a < i { a } else { a - 1 };
            assert(t[ta] == s[a]);
            assert(has_key(t, q));
        }
    }
    assert forall|q: u64| as_map(t).contains_key(q) implies #[trigger] as_map(t)[q] == as_map(s).remove(k)[q] by {
        let a = index_of(t, q);
        lemma_index_unique(t, a);
        let sa = if a < i { a } else { a + 1 };
        assert(t[a] == s[sa]);
        lemma_index_unique(s, sa);
    }
    assert(as_map(t) =~= as_map(s).remove(k));
}

/// `ids` lists the ids of `m` in strictly ascending order, each once.
pub open spec fn scan_of<V>(ids: Seq<u64>, m: Map<u64, V>) -> bool {
    &&& forall|i: int, j: int| 0 <= i < j < ids.len() ==> ids[i] < ids[j]
    &&& forall|i: int| 0 <= i < ids.len() ==> m.contains_key(#[trigger] ids[i])
    &&& forall|k: u64| m.contains_key(k) ==> ids.contains(k)
}

/// A map from ids to values, held in ascending id order.
pub struct IdMap<V> {
    entries: Vec<(u64, V)>,
}

impl<V> View for IdMap<V> {
    type V = Map<u64, V>;

    closed spec fn view(&self) -> Map<u64, V> {
        as_map(self.entries@)
    }
}

impl<V> IdMap<V> {
    /// The entries are strictly ascending by id.
    pub closed spec fn wf(&self) -> bool {
        ascending(self.entries@)
    }

    /// The ids of the map, in the order a scan visits them.
    pub closed spec fn ids(&self) -> Seq<u64> {
        self.entries@.map_values(|e: (u64, V)| e.0)
    }

    /// The number of entries. The scan order is strictly ascending and covers
    /// exactly the ids of the map.
    pub fn len(&self) -> (n: usize)
        requires
            self.wf(),
        ensures
            n == self.ids().len(),
            scan_of(self.ids(), self@),
    {
        proof {
            let s = self.entries@;
            let ids = self.ids();
            assert forall|i: int, j: int| 0 <= i < j < ids.len() implies ids[i] < ids[j] by {
                assert(s[i].0 < s[j].0);
            }
            assert forall|i: int| 0 <= i < ids.len() implies self@.contains_key(#[trigger] ids[i]) by {
                lemma_index_unique(s, i);
            }
            assert forall|k: u64| self@.contains_key(k) implies ids.contains(k) by {
                let i = index_of(s, k);
                assert(ids[i] == k);
            }
        }
        self.entries.len()
    }

    /// An empty map.
    pub fn new() -> (m: Self)
        ensures
            m.wf(),
            m@ == Map::<u64, V>::empty(),
            m.ids().len() == 0,
    {
        let m = IdMap { entries: Vec::new() };
        assert(m@ =~= Map::<u64, V>::empty());
        m
    }

    /// The id at position `i` of the scan order.
    pub fn id_at(&self, i: usize) -> (id: u64)
        requires
            self.wf(),
            i < self.ids().len(),
        ensures
            id == self.ids()[i as int],
            self@.contains_key(id),
    {
        proof {
            lemma_index_unique(self.entries@, i as int);
        }
        self.entries[i].0
    }

    /// The value at position `i` of the scan order.
    pub fn value_at(&self, i: usize) -> (v: &V)
        requires
            self.wf(),
            i < self.ids().len(),
        ensures
            self@.contains_key(self.ids()[i as int]),
            *v == self@[self.ids()[i as int]],
    {
        proof {
            lemma_index_unique(self.entries@, i as int);
        }
        &self.entries[i].1
    }

    /// The first position whose id is not below `id`.
    fn position(&self, id: u64) -> (i: usize)
        requires
            self.wf(),
        ensures
            i <= self.entries@.len(),
            forall|j: int| 0 <= j < i ==> (#[trigger] self.entries@[j]).0 < id,
            forall|j: int| i <= j < self.entries@.len() ==> (#[trigger] self.entries@[j]).0 >= id,
    {
        let mut i: usize = 0;
        while i < self.entries.len() && self.entries[i].0 < id
            invariant
                i <= self.entries@.len(),
                ascending(self.entries@),
                forall|j: int| 0 <= j < i ==> (#[trigger] self.entries@[j]).0 < id,
            decreases self.entries@.len() - i,
        {
            i += 1;
        }
        proof {
            if i < self.entries@.len() {
                assert forall|j: int| i <= j < self.entries@.len() implies (#[trigger] self.entries@[j]).0 >= id by {
                    if i < j {
                        assert(self.entries@[i as int].0 < self.entries@[j].0);
                    }
                }
            }
        }
        i
    }

    /// The value stored under `id`, if any.
    pub fn get(&self, id: u64) -> (r: Option<&V>)
        requires
            self.wf(),
        ensures
            r is Some <==> self@.contains_key(id),
            r matches Some(v) ==> *v == self@[id],
    {
        let i = self.position(id);
        if i < self.entries.len() && self.entries[i].0 == id {
            proof {
                lemma_index_unique(self.entries@, i as int);
            }
            Some(&self.entries[i].1)
        } else {
            proof {
                if has_key(self.entries@, id) {
                    let j = index_of(self.entries@, id);
                    assert(self.entries@[j].0 == id);
                }
            }
            None
        }
    }

    /// Whether a value is stored under `id`.
    pub fn contains(&self, id: u64) -> (r: bool)
        requires
            self.wf(),
        ensures
            r == self@.contains_key(id),
    {
        self.get(id).is_some()
    }

    /// Stores `value` under `id`, replacing what was there.
    pub fn insert(&mut self, id: u64, value: V)
        requires
            old(self).wf(),
        ensures
            final(self).wf(),
            final(self)@ == old(self)@.insert(id, value),
    {
        let i = self.position(id);
        if i < self.entries.len() && self.entries[i].0 == id {
            proof {
                lemma_update_at(self.entries@, i as int, value);
            }
            self.entries.set(i, (id, value));
        } else {
            proof {
                assert forall|j: int| i <= j < self.entries@.len() implies (#[trigger] self.entries@[j]).0 > id by {
                    if j > i {
                        assert(self.entries@[i as int].0 < self.entries@[j].0);
                    }
                }
                lemma_insert_at(self.entries@, i as int, id, value);
            }
            self.entries.insert(i, (id, value));
        }
    }

    /// Removes what is stored under `id`, if anything.
    pub fn remove(&mut self, id: u64)
        requires
            old(self).wf(),
        ensures
            final(self).wf(),
            final(self)@ == old(self)@.remove(id),
    {
        let i = self.position(id);
        if i < self.entries.len() && self.entries[i].0 == id {
            proof {
                lemma_remove_at(self.entries@, i as int);
            }
            self.entries.remove(i);
        } else {
            proof {
                if has_key(self.entries@, id) {
                    let j = index_of(self.entries@, id);
                    assert(self.entries@[j].0 == id);
                }
                assert(self@ =~= self@.remove(id));
            }
        }
    }

    /// The largest id of the map, if it has any entry.
    pub fn last_id(&self) -> (r: Option<u64>)
        requires
            self.wf(),
        ensures
            r is None <==> self@.dom() =~= Set::<u64>::empty(),
            r matches Some(top) ==> self@.contains_key(top) && forall|k: u64|
                self@.contains_key(k) ==> k <= top,
    {
        let n = self.entries.len();
        if n == 0 {
            proof {
                assert forall|k: u64| !self@.contains_key(k) by {
                    if has_key(self.entries@, k) {
                        let j = index_of(self.entries@, k);
                    }
                }
            }
            None
        } else {
            proof {
                lemma_index_unique(self.entries@, n - 1);
                assert forall|k: u64| self@.contains_key(k) implies k <= self.entries@[n - 1].0 by {
                    let j = index_of(self.entries@, k);
                    if j < n - 1 {
                        assert(self.entries@[j].0 < self.entries@[n - 1].0);
                    }
                }
            }
            Some(self.entries[n - 1].0)
        }
    }
}

} // verus!
