use vstd::prelude::*;

verus! {

/// An owned key-value store keyed by account identifier. Entries keep the
/// order in which they were inserted, keys are never removed, and each key
/// occurs at most once.
///
/// The store is specified by two views: `as_map()`, the key-to-record map,
/// and `keys()`, the keys in insertion order.
pub struct Registry<V> {
    pub entries: Vec<(u64, V)>,
}

impl<V> Registry<V> {
    /// The keys in insertion order.
    pub open spec fn keys(self) -> Seq<u64> {
        self.entries@.map_values(|e: (u64, V)| e.0)
    }

    /// Each key occurs at most once.
    pub open spec fn wf(self) -> bool {
        self.keys().no_duplicates()
    }

    /// The position of `k`'s entry (meaningful only when `k` is present and
    /// the store is well formed).
    pub open spec fn index_of(self, k: u64) -> int {
        choose|i: int| 0 <= i < self.entries@.len() && self.entries@[i].0 == k
    }

    /// The contents as a map from key to stored record.
    pub open spec fn as_map(self) -> Map<u64, V> {
        Map::new(
            |k: u64| self.keys().contains(k),
            |k: u64| self.entries@[self.index_of(k)].1,
        )
    }

    /// In a well-formed store, an entry holding `k` is the entry `as_map()`
    /// reads for `k`.
    pub proof fn lemma_entry_at(self, i: int, k: u64)
        requires
            self.wf(),
            0 <= i < self.entries@.len(),
            self.entries@[i].0 == k,
        ensures
            self.index_of(k) == i,
            self.as_map().contains_key(k),
            self.as_map()[k] == self.entries@[i].1,
            self.keys()[i] == k,
    {
        assert(self.keys()[i] == k);
        assert(self.keys().contains(k));
        let j = self.index_of(k);
        assert(0 <= j < self.entries@.len() && self.entries@[j].0 == k);
        assert(self.keys()[j] == k);
        if i != j {
            assert(self.keys()[i] != self.keys()[j]);
        }
    }

    /// An empty store.
    pub fn new() -> (r: Self)
        ensures
            r.wf(),
            r.keys() == Seq::<u64>::empty(),
            r.as_map() == Map::<u64, V>::empty(),
    {
        let r = Registry { entries: Vec::new() };
        proof {
            assert(r.keys() =~= Seq::<u64>::empty());
            assert forall|k: u64| !r.as_map().contains_key(k) by {
                assert(!r.keys().contains(k));
            }
            assert(r.as_map() =~= Map::<u64, V>::empty());
        }
        r
    }

    /// How many records are stored.
    pub fn len(&self) -> (n: usize)
        ensures
            n == self.keys().len(),
    {
        self.entries.len()
    }

    /// Whether a record for `k` is present.
    pub fn contains_key(&self, k: u64) -> (b: bool)
        ensures
            b == self.as_map().contains_key(k),
    {
        let n = self.entries.len();
        let mut i: usize = 0;
        while i < n
            invariant
                n == self.entries@.len(),
                i <= n,
                forall|j: int| 0 <= j < i ==> (#[trigger] self.entries@[j]).0 != k,
            decreases n - i,
        {
            if self.entries[i].0 == k {
                proof {
                    assert(self.keys()[i as int] == k);
                    assert(self.keys().contains(k));
                }
                return true;
            }
            i += 1;
        }
        proof {
            if self.keys().contains(k) {
                let j = choose|j: int| 0 <= j < self.keys().len() && self.keys()[j] == k;
                assert(self.entries@[j].0 == k);
            }
        }
        false
    }

    /// The key of the record at position `i` in insertion order.
    pub fn key_at(&self, i: usize) -> (k: u64)
        requires
            i < self.keys().len(),
        ensures
            k == self.keys()[i as int],
    {
        let e = &self.entries[i];
        proof {
            assert(self.keys()[i as int] == self.entries@[i as int].0);
        }
        e.0
    }

    /// Insert a record for a key that is not yet present; the key joins the
    /// end of the insertion order.
    pub fn insert(&mut self, k: u64, v: V)
        requires
            old(self).wf(),
            !old(self).as_map().contains_key(k),
        ensures
            final (self).wf(),
            final (self).keys() == old(self).keys().push(k),
            final (self).as_map() == old(self).as_map().insert(k, v),
    {
        self.entries.push((k, v));
        proof {
            let pre = *old(self);
            let post = *self;
            assert(!pre.keys().contains(k));
            assert(post.keys() =~= pre.keys().push(k));
            assert forall|i: int, j: int|
                0 <= i < post.keys().len() && 0 <= j < post.keys().len() && i != j implies post.keys()[i]
                != post.keys()[j] by {
                let n = pre.keys().len() as int;
                if i < n && j < n {
                    assert(pre.keys()[i] != pre.keys()[j]);
                } else if i < n && j == n {
                    if pre.keys()[i] == k {
                        assert(pre.keys().contains(k));
                    }
                } else if j < n && i == n {
                    if pre.keys()[j] == k {
                        assert(pre.keys().contains(k));
                    }
                }
            }
            assert(post.wf());
            let target = pre.as_map().insert(k, v);
            assert forall|k2: u64| post.as_map().contains_key(k2) implies target.contains_key(k2)
                && post.as_map()[k2] == target[k2] by {
                let n = pre.entries@.len() as int;
                assert(post.keys().contains(k2));
                let i = choose|i: int| 0 <= i < post.keys().len() && post.keys()[i] == k2;
                assert(post.entries@[i].0 == k2);
                post.lemma_entry_at(i, k2);
                if i < n {
                    assert(pre.keys()[i] == k2);
                    assert(pre.keys().contains(k2));
                    pre.lemma_entry_at(i, k2);
                    assert(pre.entries@[i] == post.entries@[i]);
                } else {
                    assert(k2 == k);
                }
            }
            assert forall|k2: u64| target.contains_key(k2) implies post.as_map().contains_key(k2) by {
                if k2 == k {
                    assert(post.keys()[pre.keys().len() as int] == k);
                    assert(post.keys().contains(k2));
                } else {
                    assert(pre.keys().contains(k2));
                    let i = choose|i: int| 0 <= i < pre.keys().len() && pre.keys()[i] == k2;
                    assert(post.keys()[i] == k2);
                    assert(post.keys().contains(k2));
                }
            }
            assert(post.as_map() =~= target);
        }
    }

    /// Replace the record of a key that is already present; the insertion
    /// order does not change.
    pub fn set(&mut self, k: u64, v: V)
        requires
            old(self).wf(),
            old(self).as_map().contains_key(k),
        ensures
            final (self).wf(),
            final (self).keys() == old(self).keys(),
            final (self).as_map() == old(self).as_map().insert(k, v),
    {
        let n = self.entries.len();
        let mut i: usize = 0;
        proof {
            assert(old(self).keys().contains(k));
        }
        while i < n
            invariant
                *self == *old(self),
                old(self).wf(),
                old(self).keys().contains(k),
                n == self.entries@.len(),
                i <= n,
                forall|j: int| 0 <= j < i ==> (#[trigger] self.entries@[j]).0 != k,
            decreases n - i,
        {
            if self.entries[i].0 == k {
                self.entries.set(i, (k, v));
                proof {
                    let pre = *old(self);
                    let post = *self;
                    assert(post.entries@ == pre.entries@.update(i as int, (k, v)));
                    assert(post.keys() =~= pre.keys());
                    assert(post.wf());
                    pre.lemma_entry_at(i as int, k);
                    post.lemma_entry_at(i as int, k);
                    let target = pre.as_map().insert(k, v);
                    assert forall|k2: u64| post.as_map().contains_key(k2) implies target.contains_key(
                        k2,
                    ) && post.as_map()[k2] == target[k2] by {
                        assert(post.keys().contains(k2));
                        assert(pre.keys().contains(k2));
                        if k2 != k {
                            let j = choose|j: int|
                                0 <= j < pre.keys().len() && pre.keys()[j] == k2;
                            assert(pre.entries@[j].0 == k2);
                            pre.lemma_entry_at(j, k2);
                            assert(j != i);
                            assert(post.entries@[j] == pre.entries@[j]);
                            post.lemma_entry_at(j, k2);
                        }
                    }
                    assert forall|k2: u64| target.contains_key(k2) implies post.as_map().contains_key(
                        k2,
                    ) by {
                        assert(pre.keys().contains(k2) || k2 == k);
                    }
                    assert(post.as_map() =~= target);
                }
                return ;
            }
            i += 1;
        }
        proof {
            let j = choose|j: int|
                0 <= j < old(self).keys().len() && old(self).keys()[j] == k;
            assert(self.entries@[j].0 == k);
            assert(false);
        }
    }
}

impl<V: Copy> Registry<V> {
    /// The record stored for `k`, if one is present.
    pub fn get(&self, k: u64) -> (r: Option<V>)
        requires
            self.wf(),
        ensures
            r == if self.as_map().contains_key(k) {
                Some(self.as_map()[k])
            } else {
                None::<V>
            },
    {
        let n = self.entries.len();
        let mut i: usize = 0;
        while i < n
            invariant
                self.wf(),
                n == self.entries@.len(),
                i <= n,
                forall|j: int| 0 <= j < i ==> (#[trigger] self.entries@[j]).0 != k,
            decreases n - i,
        {
            if self.entries[i].0 == k {
                proof {
                    self.lemma_entry_at(i as int, k);
                }
                return Some(self.entries[i].1);
            }
            i += 1;
        }
        proof {
            if self.keys().contains(k) {
                let j = choose|j: int| 0 <= j < self.keys().len() && self.keys()[j] == k;
                assert(self.entries@[j].0 == k);
            }
        }
        None
    }

    /// The record at position `i` in insertion order.
    pub fn value_at(&self, i: usize) -> (v: V)
        requires
            self.wf(),
            i < self.keys().len(),
        ensures
            self.as_map().contains_key(self.keys()[i as int]),
            v == self.as_map()[self.keys()[i as int]],
    {
        proof {
            self.lemma_entry_at(i as int, self.entries@[i as int].0);
        }
        self.entries[i].1
    }
}

} // verus!
