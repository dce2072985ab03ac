//! A small finite map kept as a list of entries with distinct keys.

use vstd::prelude::*;
use crate::codec::header;
use crate::codec::header::IPv8Address;

verus! {

/// Keys that can be compared.
pub trait Key: Sized + Copy {
    /// Whether two keys are the same.
    fn same(&self, other: &Self) -> (r: bool)
        ensures
            r == (*self == *other),
    ;
}

impl Key for IPv8Address {
    fn same(&self, other: &Self) -> (r: bool) {
        header::same_address(self, other)
    }
}

/// Values that go stale.
pub trait Expiring: Sized {
    /// Whether the value is stale at time `now`.
    spec fn stale(&self, now: u64) -> bool;

    /// Whether the value is stale at time `now`.
    fn is_stale(&self, now: u64) -> (r: bool)
        ensures
            r == self.stale(now),
    ;
}

/// Whether some entry has key `k`.
pub open spec fn has<K, V>(s: Seq<(K, V)>, k: K) -> bool {
    exists|i: int| 0 <= i < s.len() && (#[trigger] s[i]).0 == k
}

/// The value of the entry with key `k`.
pub open spec fn value_of<K, V>(s: Seq<(K, V)>, k: K) -> V {
    s[choose|i: int| 0 <= i < s.len() && (#[trigger] s[i]).0 == k].1
}

/// Whether no key occurs twice.
pub open spec fn distinct<K, V>(s: Seq<(K, V)>) -> bool {
    forall|i: int, j: int| 0 <= i < j < s.len() ==> (#[trigger] s[i]).0 != (#[trigger] s[j]).0
}

/// The map of a list of entries.
pub open spec fn as_map<K, V>(s: Seq<(K, V)>) -> Map<K, V> {
    Map::new(|k: K| has(s, k), |k: K| value_of(s, k))
}

/// The entries that are not stale.
pub open spec fn live<K, V: Expiring>(m: Map<K, V>, now: u64) -> Map<K, V> {
    Map::new(|k: K| m.contains_key(k) && !m[k].stale(now), |k: K| m[k])
}

/// An entry of the list is an entry of the map.
pub proof fn entry_in_map<K, V>(s: Seq<(K, V)>, i: int)
    requires
        distinct(s),
        0 <= i < s.len(),
    ensures
        as_map(s).contains_key(s[i].0),
        as_map(s)[s[i].0] == s[i].1,
{
    let k = s[i].0;
    assert(has(s, k));
    let j = choose|j: int| 0 <= j < s.len() && (#[trigger] s[j]).0 == k;
    if i < j {
        assert(s[i].0 != s[j].0);
    } else if j < i {
        assert(s[j].0 != s[i].0);
    }
}

/// The map has as many entries as the list.
pub proof fn map_len<K, V>(s: Seq<(K, V)>)
    requires
        distinct(s),
    ensures
        as_map(s).dom().finite(),
        as_map(s).dom().len() == s.len(),
{
    let keys = s.map_values(|e: (K, V)| e.0);
    assert(keys.no_duplicates()) by {
        assert forall|i: int, j: int| 0 <= i < keys.len() && 0 <= j < keys.len() && i != j implies keys[i] != keys[j] by {
            if i < j {
                assert(s[i].0 != s[j].0);
            } else {
                assert(s[j].0 != s[i].0);
            }
        }
    }
    keys.unique_seq_to_set();
    assert(keys.to_set() =~= as_map(s).dom()) by {
        assert forall|k: K| keys.to_set().contains(k) <==> as_map(s).dom().contains(k) by {
            if keys.to_set().contains(k) {
                let i = choose|i: int| 0 <= i < keys.len() && keys[i] == k;
                assert(s[i].0 == k);
            }
            if has(s, k) {
                let i = choose|i: int| 0 <= i < s.len() && (#[trigger] s[i]).0 == k;
                assert(keys[i] == k);
            }
        }
    }
}

/// Two lists of distinct keys with the same entries have the same map.
pub proof fn same_entries<K, V>(a: Seq<(K, V)>, m: Map<K, V>)
    requires
        distinct(a),
        forall|i: int| 0 <= i < a.len() ==> m.contains_key((#[trigger] a[i]).0) && m[a[i].0] == a[i].1,
        forall|k: K| #[trigger] m.contains_key(k) ==> has(a, k),
    ensures
        as_map(a) == m,
{
    assert forall|k: K| #[trigger] as_map(a).contains_key(k) implies m.contains_key(k) && as_map(a)[k] == m[k] by {
        let i = choose|i: int| 0 <= i < a.len() && (#[trigger] a[i]).0 == k;
        entry_in_map(a, i);
    }
    assert(as_map(a) =~= m);
}

/// A finite map.
pub struct Table<K: Key, V> {
    entries: Vec<(K, V)>,
}

impl<K: Key, V> View for Table<K, V> {
    type V = Map<K, V>;

    closed spec fn view(&self) -> Map<K, V> {
        as_map(self.entries@)
    }
}

impl<K: Key, V> Table<K, V> {
    /// Whether no key occurs twice.
    pub closed spec fn wf(&self) -> bool {
        distinct(self.entries@)
    }

    /// The entries in the order in which they are kept.
    pub closed spec fn list(&self) -> Seq<(K, V)> {
        self.entries@
    }

    /// What the list has to do with the map.
    pub proof fn list_is_map(&self)
        requires
            self.wf(),
        ensures
            distinct(self.list()),
            self@ == as_map(self.list()),
    {
    }

    /// A map without entries.
    pub fn new() -> (t: Self)
        ensures
            t.wf(),
            t@ == Map::<K, V>::empty(),
    {
        let t = Table { entries: Vec::new() };
        proof {
            same_entries(t.entries@, Map::<K, V>::empty());
        }
        t
    }

    /// The number of entries.
    pub fn len(&self) -> (n: usize)
        requires
            self.wf(),
        ensures
            self@.dom().finite(),
            n == self@.dom().len(),
            n == self.list().len(),
    {
        proof {
            map_len(self.entries@);
        }
        self.entries.len()
    }

    /// The entry at an index of the list.
    pub fn entry(&self, i: usize) -> (e: &(K, V))
        requires
            self.wf(),
            i < self.list().len(),
        ensures
            *e == self.list()[i as int],
            self@.contains_key(e.0),
            self@[e.0] == e.1,
    {
        proof {
            entry_in_map(self.entries@, i as int);
        }
        &self.entries[i]
    }

    /// The index of a key in the list.
    fn find(&self, k: &K) -> (r: Option<usize>)
        requires
            self.wf(),
        ensures
            match r {
                Some(i) => i < self.entries@.len() && self.entries@[i as int].0 == *k && self@.contains_key(*k)
                    && self@[*k] == self.entries@[i as int].1,
                None => !self@.contains_key(*k),
            },
    {
        let mut i: usize = 0;
        while i < self.entries.len()
            invariant
                i <= self.entries.len(),
                forall|j: int| 0 <= j < i ==> (#[trigger] self.entries@[j]).0 != *k,
                self.wf(),
            decreases self.entries.len() - i,
        {
            if self.entries[i].0.same(k) {
                proof {
                    entry_in_map(self.entries@, i as int);
                }
                return Some(i);
            }
            i = i + 1;
        }
        None
    }

    /// Whether the map has an entry for `k`.
    pub fn contains(&self, k: &K) -> (r: bool)
        requires
            self.wf(),
        ensures
            r == self@.contains_key(*k),
    {
        self.find(k).is_some()
    }

    /// The value for `k`.
    pub fn get(&self, k: &K) -> (r: Option<&V>)
        requires
            self.wf(),
        ensures
            match r {
                Some(v) => self@.contains_key(*k) && self@[*k] == *v,
                None => !self@.contains_key(*k),
            },
    {
        match self.find(k) {
            Some(i) => Some(&self.entries[i].1),
            None => None,
        }
    }

    /// Sets the value for `k`.
    pub fn insert(&mut self, k: K, v: V)
        requires
            old(self).wf(),
        ensures
            final(self).wf(),
            final(self)@ == old(self)@.insert(k, v),
    {
        match self.find(&k) {
            Some(i) => {
                let ghost before = self.entries@;
                self.entries[i] = (k, v);
                proof {
                    let m = as_map(before).insert(k, v);
                    assert forall|j: int| 0 <= j < self.entries@.len() implies m.contains_key(
                        (#[trigger] self.entries@[j]).0,
                    ) && m[self.entries@[j].0] == self.entries@[j].1 by {
                        entry_in_map(before, j);
                        if j != i {
                            assert(before[j].0 != before[i as int].0);
                        }
                    }
                    assert forall|x: K| #[trigger] m.contains_key(x) implies has(self.entries@, x) by {
                        if x == k {
                            assert(self.entries@[i as int].0 == k);
                        } else {
                            let j = choose|j: int| 0 <= j < before.len() && (#[trigger] before[j]).0 == x;
                            assert(self.entries@[j].0 == x);
                        }
                    }
                    same_entries(self.entries@, m);
                }
            },
            None => {
                let ghost before = self.entries@;
                self.entries.push((k, v));
                proof {
                    let m = as_map(before).insert(k, v);
                    assert forall|j: int| 0 <= j < before.len() implies (#[trigger] before[j]).0 != k by {
                        entry_in_map(before, j);
                    }
                    assert forall|j: int| 0 <= j < self.entries@.len() implies m.contains_key(
                        (#[trigger] self.entries@[j]).0,
                    ) && m[self.entries@[j].0] == self.entries@[j].1 by {
                        if j < before.len() {
                            entry_in_map(before, j);
                            assert(before[j] == self.entries@[j]);
                        }
                    }
                    assert forall|x: K| #[trigger] m.contains_key(x) implies has(self.entries@, x) by {
                        if x == k {
                            assert(self.entries@[before.len() as int].0 == k);
                        } else {
                            let j = choose|j: int| 0 <= j < before.len() && (#[trigger] before[j]).0 == x;
                            assert(self.entries@[j].0 == x);
                        }
                    }
                    assert(distinct(self.entries@)) by {
                        assert forall|i: int, j: int| 0 <= i < j < self.entries@.len() implies (#[trigger] self.entries@[i]).0
                            != (#[trigger] self.entries@[j]).0 by {
                            assert(self.entries@[i] == before[i]);
                            if j < before.len() {
                                assert(self.entries@[j] == before[j]);
                            }
                        }
                    }
                    same_entries(self.entries@, m);
                }
            },
        }
    }

    /// Takes out the value for `k`.
    pub fn remove(&mut self, k: &K) -> (r: Option<V>)
        requires
            old(self).wf(),
        ensures
            final(self).wf(),
            final(self)@ == old(self)@.remove(*k),
            match r {
                Some(v) => old(self)@.contains_key(*k) && old(self)@[*k] == v,
                None => !old(self)@.contains_key(*k),
            },
    {
        match self.find(k) {
            Some(i) => {
                let e = self.take_at(i);
                Some(e.1)
            },
            None => {
                assert(self@.remove(*k) =~= self@);
                None
            },
        }
    }

    /// Takes out the entry at an index of the list.
    fn take_at(&mut self, i: usize) -> (e: (K, V))
        requires
            old(self).wf(),
            i < old(self).entries@.len(),
        ensures
            final(self).wf(),
            e == old(self).entries@[i as int],
            final(self).entries@ == old(self).entries@.remove(i as int),
            final(self)@ == old(self)@.remove(e.0),
    {
        let ghost before = self.entries@;
        let e = self.entries.remove(i);
        proof {
            let after = self.entries@;
            let m = as_map(before).remove(e.0);
            assert(forall|j: int| 0 <= j < after.len() ==> #[trigger] after[j] == before[if j < i { j } else { j + 1 }]);
            assert(distinct(after)) by {
                assert forall|a: int, b: int| 0 <= a < b < after.len() implies (#[trigger] after[a]).0 != (#[trigger] after[
                b]).0 by {
                    assert(before[if a < i { a } else { a + 1 }].0 != before[if b < i { b } else { b + 1 }].0);
                }
            }
            assert forall|j: int| 0 <= j < after.len() implies m.contains_key((#[trigger] after[j]).0) && m[after[j].0]
                == after[j].1 by {
                let o = if j < i { j } else { j + 1 };
                entry_in_map(before, o);
                if o < i {
                    assert(before[o].0 != before[i as int].0);
                } else {
                    assert(before[i as int].0 != before[o].0);
                }
            }
            assert forall|x: K| #[trigger] m.contains_key(x) implies has(after, x) by {
                let o = choose|o: int| 0 <= o < before.len() && (#[trigger] before[o]).0 == x;
                assert(o != i);
                assert(after[if o < i { o } else { o - 1 }].0 == x);
            }
            same_entries(after, m);
        }
        e
    }
}

impl<K: Key, V: Expiring> Table<K, V> {
    /// Takes out all entries that are stale at time `now`; gives their number.
    pub fn sweep(&mut self, now: u64) -> (n: usize)
        requires
            old(self).wf(),
        ensures
            final(self).wf(),
            final(self)@ == live(old(self)@, now),
            n == old(self)@.dom().len() - final(self)@.dom().len(),
    {
        let ghost m0 = self@;
        let total: usize = self.entries.len();
        let mut i: usize = 0;
        proof {
            map_len(self.entries@);
        }
        while i < self.entries.len()
            invariant
                self.wf(),
                i <= self.entries@.len(),
                self.entries@.len() <= total,
                forall|j: int| 0 <= j < i ==> !(#[trigger] self.entries@[j]).1.stale(now),
                forall|k: K| #[trigger] self@.contains_key(k) ==> m0.contains_key(k) && self@[k] == m0[k],
                forall|k: K| #[trigger] m0.contains_key(k) && !m0[k].stale(now) ==> self@.contains_key(k),
            decreases self.entries@.len() - i,
        {
            proof {
                entry_in_map(self.entries@, i as int);
            }
            if self.entries[i].1.is_stale(now) {
                let _ = self.take_at(i);
            } else {
                i = i + 1;
            }
        }
        proof {
            assert forall|k: K| #[trigger] self@.contains_key(k) implies !self@[k].stale(now) by {
                let j = choose|j: int| 0 <= j < self.entries@.len() && (#[trigger] self.entries@[j]).0 == k;
                entry_in_map(self.entries@, j);
            }
            assert(self@ =~= live(m0, now));
            map_len(self.entries@);
        }
        total - self.entries.len()
    }
}

} // verus!
