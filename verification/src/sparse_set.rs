//! Sparse per-entity storage: a dense array of entries plus an index
//! redirection table, giving O(1) amortized insert, remove and lookup.
//!
//! Stores are keyed by entity index.  An entity present in the tree may or
//! may not have an entry in a given store; absence means "use the default".

use vstd::prelude::*;

verus! {

broadcast use vstd::std_specs::vec::group_vec_axioms;

/// Marker in the redirection table for "no entry".
pub const SPARSE_NULL: usize = usize::MAX;

/// A key/value pair in the dense array.
#[derive(Debug)]
pub struct Entry<V> {
    pub key: usize,
    pub value: V,
}

/// Dense-indexed map from entity index to value.
#[derive(Debug)]
pub struct SparseSet<V> {
    /// Redirection: `sparse[k]` is the dense position of key `k`, or
    /// `SPARSE_NULL`.
    pub sparse: Vec<usize>,
    /// The entries, in insertion order except for swaps caused by removal.
    pub dense: Vec<Entry<V>>,
}

impl<V> SparseSet<V> {
    pub open spec fn contains_key(self, k: usize) -> bool {
        &&& 0 <= k < self.sparse@.len()
        &&& self.sparse@[k as int] != SPARSE_NULL
    }

    pub open spec fn dense_pos(self, k: usize) -> int {
        self.sparse@[k as int] as int
    }

    pub open spec fn value_of(self, k: usize) -> V
        recommends
            self.contains_key(k),
    {
        self.dense@[self.dense_pos(k)].value
    }

    /// The store seen as a map from entity index to value.
    pub open spec fn as_map(self) -> Map<usize, V> {
        Map::new(|k: usize| self.contains_key(k), |k: usize| self.value_of(k))
    }

    pub open spec fn wf(self) -> bool {
        &&& forall|k: usize|
            #[trigger] self.contains_key(k) ==> 0 <= self.dense_pos(k) < self.dense@.len()
                && self.dense@[self.dense_pos(k)].key == k
        &&& forall|d: int|
            0 <= d < self.dense@.len() ==> {
                &&& (#[trigger] self.dense@[d]).key < self.sparse@.len()
                &&& self.sparse@[self.dense@[d].key as int] == d
            }
    }

    pub fn new() -> (s: SparseSet<V>)
        ensures
            s.wf(),
            s.as_map() == Map::<usize, V>::empty(),
            s.dense@.len() == 0,
    {
        let s = SparseSet { sparse: Vec::new(), dense: Vec::new() };
        proof {
            assert(s.as_map() =~= Map::<usize, V>::empty());
        }
        s
    }

    /// Number of entries.
    pub fn len(&self) -> (n: usize)
        requires
            self.wf(),
        ensures
            n == self.dense@.len(),
    {
        self.dense.len()
    }

    pub fn contains(&self, k: usize) -> (r: bool)
        ensures
            r == self.contains_key(k),
    {
        k < self.sparse.len() && self.sparse[k] != SPARSE_NULL
    }

    /// Looks a key up.
    pub fn get(&self, k: usize) -> (r: Option<&V>)
        requires
            self.wf(),
        ensures
            match r {
                Some(v) => self.contains_key(k) && *v == self.value_of(k),
                None => !self.contains_key(k),
            },
    {
        if k < self.sparse.len() {
            let d = self.sparse[k];
            if d != SPARSE_NULL {
                proof {
                    assert(self.contains_key(k));
                }
                return Some(&self.dense[d].value);
            }
        }
        None
    }

    /// Inserts or overwrites the value for key `k`.  Fails (returning the
    /// value back) only for the reserved null index.
    pub fn insert(&mut self, k: usize, value: V) -> (r: Result<(), V>)
        requires
            old(self).wf(),
        ensures
            match r {
                Ok(()) => {
                    &&& final(self).wf()
                    &&& k != SPARSE_NULL
                    &&& final(self).as_map() == old(self).as_map().insert(k, value)
                    &&& final(self).contains_key(k)
                    &&& old(self).contains_key(k) ==> final(self).dense@.len() == old(
                        self).dense@.len()
                    &&& !old(self).contains_key(k) ==> final(self).dense@.len() == old(
                        self).dense@.len() + 1
                },
                Err(_) => {
                    &&& *final(self) == *old(self)
                    &&& k == SPARSE_NULL
                },
            },
    {
        if k == SPARSE_NULL {
            return Err(value);
        }
        while self.sparse.len() <= k
            invariant
                old(self).wf(),
                k != SPARSE_NULL,
                self.dense == old(self).dense,
                self.sparse@.len() >= old(self).sparse@.len(),
                forall|i: int|
                    0 <= i < self.sparse@.len() ==> self.sparse@[i] == (if i < old(
                        self).sparse@.len() {
                        old(self).sparse@[i]
                    } else {
                        SPARSE_NULL
                    }),
            decreases k - self.sparse.len() + 1,
        {
            self.sparse.push(SPARSE_NULL);
        }
        let d = self.sparse[k];
        if d != SPARSE_NULL {
            proof {
                assert(old(self).contains_key(k));
            }
            proof {
                assert(old(self).dense@[d as int].key == k);
            }
            self.dense.set(d, Entry { key: k, value });
            proof {
                assert forall|kk: usize| #[trigger] self.contains_key(kk) implies 0
                    <= self.dense_pos(kk) < self.dense@.len() && self.dense@[self.dense_pos(
                    kk)].key == kk by {
                    assert(old(self).contains_key(kk));
                }
                assert(self.wf());
                assert(self.as_map() =~= old(self).as_map().insert(k, value));
            }
        } else {
            let pos = self.dense.len();
            self.dense.push(Entry { key: k, value });
            self.sparse.set(k, pos);
            proof {
                assert(!old(self).contains_key(k));
                assert forall|kk: usize| #[trigger] self.contains_key(kk) implies 0
                    <= self.dense_pos(kk) < self.dense@.len() && self.dense@[self.dense_pos(
                    kk)].key == kk by {
                    if kk != k {
                        assert(old(self).contains_key(kk));
                    }
                }
                assert(self.wf());
                assert forall|kk: usize| kk != k implies #[trigger] self.contains_key(kk) == old(
                    self).contains_key(kk) && (self.contains_key(kk) ==> self.value_of(kk) == old(
                    self).value_of(kk)) by {
                    if (kk as int) < old(self).sparse@.len() {
                        assert(self.sparse@[kk as int] == old(self).sparse@[kk as int]);
                        if old(self).contains_key(kk) {
                            assert(old(self).dense_pos(kk) < old(self).dense@.len());
                        }
                    } else {
                        assert(!old(self).contains_key(kk));
                        if (kk as int) < self.sparse@.len() {
                            assert(self.sparse@[kk as int] == SPARSE_NULL);
                        }
                    }
                }
                assert(self.dense@.len() == vstd::std_specs::vec::spec_vec_len(&self.dense));
                assert(self.contains_key(k));
                assert(self.as_map() =~= old(self).as_map().insert(k, value));
            }
        }
        Ok(())
    }

    /// Removes the entry for key `k`, if any, returning its value.  The last
    /// dense entry is swapped into the vacated position.
    pub fn remove(&mut self, k: usize) -> (r: Option<V>)
        requires
            old(self).wf(),
        ensures
            final(self).wf(),
            final(self).as_map() == old(self).as_map().remove(k),
            match r {
                Some(_) => old(self).contains_key(k) && final(self).dense@.len() == old(
                    self).dense@.len() - 1,
                None => !old(self).contains_key(k) && *final(self) == *old(self),
            },
    {
        if k >= self.sparse.len() {
            proof {
                assert(self.as_map() =~= old(self).as_map().remove(k));
            }
            return None;
        }
        let d = self.sparse[k];
        if d == SPARSE_NULL {
            proof {
                assert(self.as_map() =~= old(self).as_map().remove(k));
            }
            return None;
        }
        proof {
            assert(old(self).contains_key(k));
            assert(self.dense@.len() >= 1);
        }
        let last = self.dense.len() - 1;
        if d != last {
            // Move the last entry into the vacated dense position.
            proof {
                assert(old(self).dense@[d as int].key == k);
                assert(old(self).dense@[last as int].key < old(self).sparse@.len());
                assert(old(self).sparse@[old(self).dense@[last as int].key as int] == last);
            }
            let moved = self.dense.swap_remove(d);
            let moved_key = self.dense[d].key;
            self.sparse.set(moved_key, d);
            self.sparse.set(k, SPARSE_NULL);
            proof {
                assert(moved.key == k);
                assert(moved_key == old(self).dense@[last as int].key);
                assert(moved_key != k);
                assert forall|kk: usize| #[trigger] self.contains_key(kk) implies 0
                    <= self.dense_pos(kk) < self.dense@.len() && self.dense@[self.dense_pos(
                    kk)].key == kk by {
                    assert(kk != k);
                    assert(old(self).contains_key(kk));
                    if kk == moved_key {
                    } else {
                        assert(old(self).dense_pos(kk) != last);
                        assert(old(self).dense_pos(kk) != d);
                    }
                }
                assert forall|dd: int| 0 <= dd < self.dense@.len() implies (
                    #[trigger] self.dense@[dd]).key < self.sparse@.len() && self.sparse@[
                    self.dense@[dd].key as int] == dd by {
                    if dd == d {
                    } else {
                        assert(self.dense@[dd] == old(self).dense@[dd]);
                        assert(old(self).dense@[dd].key != k) by {
                            if old(self).dense@[dd].key == k {
                                assert(old(self).sparse@[k as int] == dd);
                            }
                        }
                        assert(old(self).dense@[dd].key != moved_key) by {
                            if old(self).dense@[dd].key == moved_key {
                                assert(old(self).sparse@[moved_key as int] == dd);
                            }
                        }
                    }
                }
                assert(self.wf());
                assert(self.as_map() =~= old(self).as_map().remove(k));
            }
            Some(moved.value)
        } else {
            let entry = match self.dense.pop() {
                Some(entry) => entry,
                None => {
                    proof {
                        assert(false);
                    }
                    vstd::pervasive::unreached()
                },
            };
            self.sparse.set(k, SPARSE_NULL);
            proof {
                assert(entry.key == k);
                assert forall|kk: usize| #[trigger] self.contains_key(kk) implies 0
                    <= self.dense_pos(kk) < self.dense@.len() && self.dense@[self.dense_pos(
                    kk)].key == kk by {
                    assert(kk != k);
                    assert(old(self).contains_key(kk));
                    assert(old(self).dense_pos(kk) != last);
                }
                assert(self.wf());
                assert(self.as_map() =~= old(self).as_map().remove(k));
            }
            Some(entry.value)
        }
    }

    /// Connects the map view with the pointwise spec functions.
    pub proof fn lemma_as_map_point(self, k: usize)
        ensures
            self.as_map().dom().contains(k) == self.contains_key(k),
            self.contains_key(k) ==> self.as_map()[k] == self.value_of(k),
    {
    }

    /// The key of the dense entry at position `d`.
    pub fn key_at(&self, d: usize) -> (k: usize)
        requires
            self.wf(),
            d < self.dense@.len(),
        ensures
            k == self.dense@[d as int].key,
            self.contains_key(k),
            self.value_of(k) == self.dense@[d as int].value,
    {
        proof {
            assert(self.dense@.len() == vstd::std_specs::vec::spec_vec_len(&self.dense));
            assert(self.sparse@[self.dense@[d as int].key as int] == d);
        }
        self.dense[d].key
    }

    /// The value of the dense entry at position `d`.
    pub fn value_at(&self, d: usize) -> (v: &V)
        requires
            self.wf(),
            d < self.dense@.len(),
        ensures
            *v == self.dense@[d as int].value,
    {
        &self.dense[d].value
    }
}

} // verus!
