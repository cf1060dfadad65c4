//! A small map keyed by addresses, kept as two aligned vectors.

use vstd::prelude::*;

verus! {

/// Keys that can be compared in executable code exactly as they compare in specifications.
pub trait PlainKey: Copy {
    /// Returns `true` exactly when the two keys are equal.
    fn same(&self, other: &Self) -> (res: bool)
        ensures
            res == (*self == *other),
    ;
}

/// A map from keys to values with no key present twice, viewed as a [`Map`].
pub struct AddrMap<K: PlainKey, V> {
    keys: Vec<K>,
    vals: Vec<V>,
}

proof fn lemma_index_of_unique<K>(s: Seq<K>, i: int)
    requires
        s.no_duplicates(),
        0 <= i < s.len(),
    ensures
        s.index_of(s[i]) == i,
{
    assert(s.contains(s[i]));
}

impl<K: PlainKey, V> AddrMap<K, V> {
    #[verifier::type_invariant]
    spec fn aligned(self) -> bool {
        &&& self.keys@.no_duplicates()
        &&& self.keys@.len() == self.vals@.len()
    }

    /// The entries of the map.
    pub closed spec fn entries(self) -> Map<K, V> {
        Map::new(|k: K| self.keys@.contains(k), |k: K| self.vals@[self.keys@.index_of(k)])
    }

    /// A map holds finitely many entries.
    pub proof fn lemma_finite(self)
        ensures
            self.entries().dom().finite(),
    {
        assert(self.entries().dom() =~= self.keys@.to_set());
        vstd::seq_lib::seq_to_set_is_finite(self.keys@);
    }

    /// Creates an empty map.
    pub fn new() -> (res: Self)
        ensures
            res.entries() == Map::<K, V>::empty(),
    {
        let res = AddrMap { keys: Vec::new(), vals: Vec::new() };
        assert(res.entries() =~= Map::<K, V>::empty());
        res
    }

    fn find(&self, key: &K) -> (res: Option<usize>)
        ensures
            match res {
                Some(i) => i < self.keys@.len() && self.keys@[i as int] == *key,
                None => !self.keys@.contains(*key),
            },
    {
        let mut i: usize = 0;
        while i < self.keys.len()
            invariant
                i <= self.keys@.len(),
                forall|j: int| 0 <= j < i ==> self.keys@[j] != *key,
            decreases self.keys@.len() - i,
        {
            if self.keys[i].same(key) {
                return Some(i);
            }
            i = i + 1;
        }
        None
    }

    /// Returns the number of entries.
    pub fn len(&self) -> (res: usize)
        ensures
            res == self.entries().len(),
    {
        proof {
            use_type_invariant(self);
            assert(self.entries().dom() =~= self.keys@.to_set());
            self.keys@.unique_seq_to_set();
        }
        self.keys.len()
    }

    /// Returns `true` if the map holds an entry for `key`.
    pub fn contains_key(&self, key: &K) -> (res: bool)
        ensures
            res == self.entries().contains_key(*key),
    {
        self.find(key).is_some()
    }

    /// Returns the value stored for `key`, if any.
    pub fn get(&self, key: &K) -> (res: Option<&V>)
        ensures
            match res {
                Some(v) => self.entries().contains_key(*key) && *v == self.entries()[*key],
                None => !self.entries().contains_key(*key),
            },
    {
        proof {
            use_type_invariant(self);
        }
        match self.find(key) {
            Some(i) => {
                proof {
                    lemma_index_of_unique(self.keys@, i as int);
                }
                Some(&self.vals[i])
            },
            None => None,
        }
    }

    /// Stores `value` for `key`; returns the value that was stored for it before, if any.
    pub fn insert(&mut self, key: K, value: V) -> (res: Option<V>)
        ensures
            final(self).entries() == old(self).entries().insert(key, value),
            match res {
                Some(v) => old(self).entries().contains_key(key) && v == old(self).entries()[key],
                None => !old(self).entries().contains_key(key),
            },
    {
        proof {
            use_type_invariant(&*self);
        }
        let ghost old_keys = self.keys@;
        let ghost old_vals = self.vals@;
        let ghost old_entries = self.entries();
        let found = self.find(&key);
        let mut taken = AddrMap::new();
        std::mem::swap(self, &mut taken);
        let AddrMap { mut keys, mut vals } = taken;
        match found {
            Some(i) => {
                vals.push(value);
                let prev = vals.swap_remove(i);
                *self = AddrMap { keys, vals };
                proof {
                    lemma_index_of_unique(old_keys, i as int);
                    assert(self.vals@ =~= old_vals.update(i as int, value));
                    assert forall|k: K| #[trigger] self.entries().contains_key(k) == old_entries.insert(key, value).contains_key(k)
                        && (self.entries().contains_key(k) ==> self.entries()[k] == old_entries.insert(key, value)[k])
                    by {
                        if old_keys.contains(k) {
                            let j = old_keys.index_of(k);
                            lemma_index_of_unique(old_keys, j);
                        }
                    }
                    assert(self.entries() =~= old_entries.insert(key, value));
                }
                Some(prev)
            },
            None => {
                keys.push(key);
                vals.push(value);
                let ghost new_keys = keys@;
                proof {
                    let n = old_keys.len() as int;
                    assert(new_keys[n] == key);
                    assert(new_keys.no_duplicates()) by {
                        assert forall|a: int, b: int| 0 <= a < new_keys.len() && 0 <= b < new_keys.len() && a != b
                            implies new_keys[a] != new_keys[b] by {
                            if a < n && b < n {
                            } else if a == n {
                                assert(old_keys.contains(new_keys[b]) || b == n);
                            } else {
                                assert(old_keys.contains(new_keys[a]) || a == n);
                            }
                        }
                    }
                }
                *self = AddrMap { keys, vals };
                proof {
                    let n = old_keys.len() as int;
                    lemma_index_of_unique(self.keys@, n);
                    assert forall|k: K| #[trigger] self.entries().contains_key(k) == old_entries.insert(key, value).contains_key(k)
                        && (self.entries().contains_key(k) ==> self.entries()[k] == old_entries.insert(key, value)[k])
                    by {
                        if old_keys.contains(k) {
                            let j = old_keys.index_of(k);
                            assert(self.keys@[j] == k);
                            lemma_index_of_unique(self.keys@, j);
                        }
                        if self.keys@.contains(k) && k != key {
                            let j = self.keys@.index_of(k);
                            assert(j != n);
                            assert(old_keys[j] == k);
                        }
                    }
                    assert(self.entries() =~= old_entries.insert(key, value));
                }
                None
            },
        }
    }

    /// Removes the entry for `key`; returns its value, if there was one.
    pub fn remove(&mut self, key: &K) -> (res: Option<V>)
        ensures
            final(self).entries() == old(self).entries().remove(*key),
            match res {
                Some(v) => old(self).entries().contains_key(*key) && v == old(self).entries()[*key],
                None => !old(self).entries().contains_key(*key),
            },
    {
        proof {
            use_type_invariant(&*self);
        }
        let ghost old_keys = self.keys@;
        let ghost old_vals = self.vals@;
        let ghost old_entries = self.entries();
        match self.find(key) {
            Some(i) => {
                let mut taken = AddrMap::new();
                std::mem::swap(self, &mut taken);
                let AddrMap { mut keys, mut vals } = taken;
                let _ = keys.swap_remove(i);
                let prev = vals.swap_remove(i);
                let ghost new_keys = keys@;
                proof {
                    let last = old_keys.len() - 1;
                    assert(new_keys.no_duplicates()) by {
                        assert forall|a: int, b: int| 0 <= a < new_keys.len() && 0 <= b < new_keys.len() && a != b
                            implies new_keys[a] != new_keys[b] by {
                            let oa = if a == i { last } else { a };
                            let ob = if b == i { last } else { b };
                            assert(new_keys[a] == old_keys[oa]);
                            assert(new_keys[b] == old_keys[ob]);
                        }
                    }
                }
                *self = AddrMap { keys, vals };
                proof {
                    let last = old_keys.len() - 1;
                    lemma_index_of_unique(old_keys, i as int);
                    assert forall|k: K| #[trigger] self.entries().contains_key(k) == old_entries.remove(*key).contains_key(k)
                        && (self.entries().contains_key(k) ==> self.entries()[k] == old_entries.remove(*key)[k])
                    by {
                        if old_keys.contains(k) && k != *key {
                            let j = old_keys.index_of(k);
                            lemma_index_of_unique(old_keys, j);
                            let nj = if j == last { i as int } else { j };
                            assert(self.keys@[nj] == k);
                            lemma_index_of_unique(self.keys@, nj);
                        }
                        if self.keys@.contains(k) {
                            let j = self.keys@.index_of(k);
                            let oj = if j == i { last } else { j };
                            assert(old_keys[oj] == k);
                        }
                    }
                    assert(self.entries() =~= old_entries.remove(*key));
                }
                Some(prev)
            },
            None => {
                proof {
                    assert(self.entries() =~= old_entries.remove(*key));
                }
                None
            },
        }
    }

    /// Returns the keys of the map, each once, in no particular order.
    pub fn keys(&self) -> (res: Vec<K>)
        ensures
            res@.no_duplicates(),
            res@.to_set() == self.entries().dom(),
            res@.len() == self.entries().len(),
    {
        proof {
            use_type_invariant(self);
            assert(self.entries().dom() =~= self.keys@.to_set());
            self.keys@.unique_seq_to_set();
        }
        let mut res: Vec<K> = Vec::new();
        let mut i: usize = 0;
        while i < self.keys.len()
            invariant
                i <= self.keys@.len(),
                res@ == self.keys@.take(i as int),
            decreases self.keys@.len() - i,
        {
            res.push(self.keys[i]);
            i = i + 1;
            assert(res@ =~= self.keys@.take(i as int));
        }
        assert(res@ =~= self.keys@);
        res
    }
}

} // verus!
