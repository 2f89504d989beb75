//! The reactive side of the model store: lenses, per-lens dependency records
//! with their value snapshots and observer sets, and the change check that
//! decides which binding entities must rebuild.
//!
//! A lens projects a model value to the part a binding observes.  Identical
//! lenses (same cache key) share one dependency record, so two bindings to
//! the same projection are tracked once and a model mutation triggers one
//! rebuild per distinct binding entity.

use vstd::prelude::*;
use crate::entity::Entity;
use crate::sparse_set::SparseSet;
use crate::sparse_set::SPARSE_NULL;
use crate::context::Context;

verus! {

/// Application data that can report whether two values are the same.  The
/// executable check must agree with the specification the implementor gives.
pub trait Data: Sized {
    /// What "same" means for this type.
    spec fn same_spec(&self, other: &Self) -> bool;

    /// Decides `same_spec`.
    fn same(&self, other: &Self) -> (r: bool)
        ensures
            r == self.same_spec(other),
    ;
}

/// A typed projection path from a model's data to a sub-value.  `view`
/// returns `None` when the projection has nothing to give (the fallible
/// case).  Lenses with equal cache keys must denote the same projection.
pub trait Lens: Sized {
    type Source;

    type Target;

    /// What the projection yields on a given source.
    spec fn view_spec(&self, source: &Self::Source) -> Option<Self::Target>;

    /// Applies the projection.
    fn view(&self, source: &Self::Source) -> (r: Option<Self::Target>)
        ensures
            r == self.view_spec(source),
    ;

    /// The dedup key of this lens, if it has one.
    spec fn key_spec(&self) -> Option<u64>;

    /// Returns the dedup key.
    fn cache_key(&self) -> (r: Option<u64>)
        ensures
            r == self.key_spec(),
    ;

    /// An exact copy of this lens.
    fn dup(&self) -> (r: Self)
        ensures
            r == *self,
    ;
}

/// One dependency record: a lens, the snapshot of its last projected value,
/// and the binding entities observing it.
pub struct StateStore<L: Lens> {
    pub lens: L,
    /// The key under which this record was deduplicated, if any.
    pub key: Option<u64>,
    /// Snapshot of the projection at the last update.
    pub old: Option<<L as Lens>::Target>,
    /// The binding entities to rebuild when the projection changes.
    pub observers: Vec<Entity>,
}

/// The model value attached to one entity, together with the dependency
/// records of the lenses bound to it.
pub struct ModelDataStore<L: Lens> {
    pub model: <L as Lens>::Source,
    pub stores: Vec<StateStore<L>>,
}

impl<L: Lens> ModelDataStore<L> {
    /// Records with a key are unique per key, so one projection is tracked by
    /// exactly one record.
    pub open spec fn wf(self) -> bool {
        forall|i: int, j: int|
            0 <= i < j < self.stores@.len() && (#[trigger] self.stores@[i]).key is Some ==> (
            #[trigger] self.stores@[j]).key != self.stores@[i].key
    }

    /// Is some record registered under key `k`?
    pub open spec fn has_key(self, k: u64) -> bool {
        exists|i: int| 0 <= i < self.stores@.len() && (#[trigger] self.stores@[i]).key == Some(k)
    }
}

} // verus!

verus! {

broadcast use vstd::std_specs::vec::group_vec_axioms;

impl<M, L: Lens> Context<M, L> where <L as Lens>::Target: Data {
    /// Attaches model data to an entity (one model value per entity), with no
    /// dependency records yet.
    pub fn build_model(&mut self, entity: Entity, model: <L as Lens>::Source)
        requires
            old(self).wf(),
            old(self).tree.contains(entity),
        ensures
            final(self).wf(),
            final(self).data.contains_key(entity.spec_index() as usize),
            final(self).data.value_of(entity.spec_index() as usize).model == model,
            final(self).data.value_of(entity.spec_index() as usize).stores@.len() == 0,
            final(self).data.as_map().remove(entity.spec_index() as usize) == old(
                self).data.as_map().remove(entity.spec_index() as usize),
            final(self).same_but_data(*old(self)),
    {
        let mds = ModelDataStore { model, stores: Vec::new() };
        let r = self.data.insert(entity.index(), mds);
        proof {
            assert(r is Ok) by {
                if r is Err {
                    assert(entity.spec_index() == crate::sparse_set::SPARSE_NULL);
                    assert(old(self).tree.slots@.len()
                        == vstd::std_specs::vec::spec_vec_len(&old(self).tree.slots));
                }
            }
            let k = entity.spec_index() as usize;
            self.data.lemma_as_map_point(k);
            assert(self.data.as_map().remove(k) =~= old(self).data.as_map().remove(k));
            assert forall|d: int|
                0 <= d < self.data.dense@.len() implies (#[trigger] self
                .data.dense@[d]).value.wf() by {
                let kk = self.data.dense@[d].key;
                assert(self.data.sparse@[kk as int] == d);
                assert(self.data.dense@.len() == vstd::std_specs::vec::spec_vec_len(
                    &self.data.dense,
                ));
                assert(self.data.contains_key(kk));
                assert(self.data.value_of(kk) == self.data.dense@[d].value);
                self.data.lemma_as_map_point(kk);
                if kk != k {
                    old(self).data.lemma_as_map_point(kk);
                    assert(old(self).data.contains_key(kk));
                    assert(old(self).data.dense@[old(self).data.dense_pos(kk)].value.wf());
                }
            }
        }
    }

    /// Replaces the model value of an entity, keeping its dependency records
    /// (snapshots and observers) for the next data-update pass to diff.
    pub fn update_model(&mut self, entity: Entity, model: <L as Lens>::Source)
        requires
            old(self).wf(),
            old(self).data.contains_key(entity.spec_index() as usize),
        ensures
            final(self).wf(),
            final(self).same_but_data(*old(self)),
            final(self).data.as_map().dom() == old(self).data.as_map().dom(),
            final(self).data.as_map().remove(entity.spec_index() as usize) == old(
                self).data.as_map().remove(entity.spec_index() as usize),
            final(self).data.contains_key(entity.spec_index() as usize),
            final(self).data.value_of(entity.spec_index() as usize).model == model,
            final(self).data.value_of(entity.spec_index() as usize).stores == old(
                self).data.value_of(entity.spec_index() as usize).stores,
    {
        let k = entity.index();
        let ghost data0 = self.data;
        let mut data: SparseSet<ModelDataStore<L>> = SparseSet::new();
        core::mem::swap(&mut data, &mut self.data);
        let d = if k < data.sparse.len() {
            let d = data.sparse[k];
            if d != SPARSE_NULL {
                d
            } else {
                proof {
                    assert(false);
                }
                0
            }
        } else {
            proof {
                assert(false);
            }
            0
        };
        proof {
            assert(d == data0.dense_pos(k));
            assert(0 <= d < data.dense@.len());
        }
        let mut m = model;
        core::mem::swap(&mut m, &mut data.dense[d].value.model);
        core::mem::swap(&mut data, &mut self.data);
        proof {
            Self::lemma_data_patch(data0, self.data, k, d);
            assert(self.wf()) by {
                assert forall|dd: int|
                    0 <= dd < self.data.dense@.len() implies (#[trigger] self
                    .data.dense@[dd]).value.wf() by {
                    assert(data0.dense@[dd].value.wf());
                    if dd == d {
                        let ov = data0.dense@[dd].value;
                        let nv = self.data.dense@[dd].value;
                        assert(nv.stores == ov.stores);
                    }
                }
            }
        }
    }

    /// Registers `observer` (a binding entity) for `lens` on the model held
    /// by `model_entity`.  Records are deduplicated by the lens cache key:
    /// when a record with the same key exists, the observer joins its set
    /// (unless already present); otherwise a fresh record with the current
    /// projection as snapshot is appended.  Lenses without a key always get
    /// their own record.
    pub fn bind_observer(&mut self, model_entity: Entity, lens: L, observer: Entity)
        requires
            old(self).wf(),
            old(self).data.contains_key(model_entity.spec_index() as usize),
        ensures
            final(self).wf(),
            final(self).same_but_data(*old(self)),
            final(self).data.as_map().dom() == old(self).data.as_map().dom(),
            // Only the records of this model change, and only by registration.
            final(self).data.as_map().remove(model_entity.spec_index() as usize) == old(
                self).data.as_map().remove(model_entity.spec_index() as usize),
            observer_registered(
                lens,
                observer,
                old(self).data.value_of(model_entity.spec_index() as usize),
                final(self).data.value_of(model_entity.spec_index() as usize),
            ),
    {
        let k = model_entity.index();
        let key = lens.cache_key();
        let ghost data0 = self.data;
        let mut data: SparseSet<ModelDataStore<L>> = SparseSet::new();
        core::mem::swap(&mut data, &mut self.data);
        let pos_opt: Option<usize> = if k < data.sparse.len() {
            let d = data.sparse[k];
            if d != SPARSE_NULL {
                Some(d)
            } else {
                None
            }
        } else {
            None
        };
        let d = match pos_opt {
            Some(d) => d,
            None => {
                proof {
                    assert(false);
                }
                0
            },
        };
        proof {
            assert(data0.contains_key(k));
            assert(d == data0.dense_pos(k));
            assert(0 <= d < data.dense@.len());
        }
        let ghost mds0 = data.dense@[d as int].value;
        match key {
            Some(kv) => {
                // Look for an existing record under this key.
                let ns = data.dense[d].value.stores.len();
                let mut i: usize = 0;
                let mut found: bool = false;
                let mut found_at: usize = 0;
                while i < ns
                    invariant
                        data == data0,
                        d == data0.dense_pos(k),
                        0 <= d < data.dense@.len(),
                        ns == mds0.stores@.len(),
                        mds0 == data.dense@[d as int].value,
                        i <= ns,
                        !found ==> forall|ii: int|
                            0 <= ii < i ==> (#[trigger] mds0.stores@[ii]).key != Some(kv),
                        found ==> found_at < i && mds0.stores@[found_at as int].key == Some(kv),
                    decreases ns - i,
                {
                    let has = match &data.dense[d].value.stores[i].key {
                        Some(sk) => *sk == kv,
                        None => false,
                    };
                    if has && !found {
                        found = true;
                        found_at = i;
                    }
                    i += 1;
                }
                if found {
                    // Join the existing record's observer set, once.
                    let no = data.dense[d].value.stores[found_at].observers.len();
                    let mut t: usize = 0;
                    let mut present = false;
                    while t < no
                        invariant
                            data == data0,
                            d == data0.dense_pos(k),
                            0 <= d < data.dense@.len(),
                            found_at < mds0.stores@.len(),
                            mds0 == data.dense@[d as int].value,
                            no == mds0.stores@[found_at as int].observers@.len(),
                            t <= no,
                            present == exists|tt: int|
                                0 <= tt < t && mds0.stores@[found_at as int].observers@[tt]
                                    == observer,
                        decreases no - t,
                    {
                        if data.dense[d].value.stores[found_at].observers[t] == observer {
                            present = true;
                        }
                        t += 1;
                    }
                    if !present {
                        data.dense[d].value.stores[found_at].observers.push(observer);
                    }
                    core::mem::swap(&mut data, &mut self.data);
                    proof {
                        let nmds = self.data.dense@[d as int].value;
                        assert(mds0.wf());
                        assert(mds0.has_key(kv)) by {
                            assert(mds0.stores@[found_at as int].key == Some(kv));
                        }
                        if !present {
                            assert(nmds.stores@[found_at as int].observers@ == mds0.stores@[
                                found_at as int].observers@.push(observer));
                        }
                        assert(registration_shape(mds0, nmds)) by {
                            assert forall|i2: int| 0 <= i2 < mds0.stores@.len() implies {
                                &&& (#[trigger] nmds.stores@[i2]).lens == mds0.stores@[i2].lens
                                &&& nmds.stores@[i2].key == mds0.stores@[i2].key
                                &&& nmds.stores@[i2].old == mds0.stores@[i2].old
                                &&& (nmds.stores@[i2].observers@ == mds0.stores@[i2].observers@
                                    || exists|o: Entity|
                                    nmds.stores@[i2].observers@ == mds0.stores@[i2].observers@.push(
                                        o,
                                    ))
                            } by {
                                if i2 == found_at && !present {
                                    assert(nmds.stores@[i2].observers@ == mds0.stores@[
                                        i2].observers@.push(observer));
                                }
                            }
                        }
                        assert(observer_registered(lens, observer, mds0, nmds)) by {
                            assert(nmds.has_key(kv)) by {
                                assert(nmds.stores@[found_at as int].key == Some(kv));
                            }
                            assert forall|i2: int|
                                0 <= i2 < nmds.stores@.len() && (#[trigger] nmds.stores@[i2]).key
                                    == Some(kv) implies nmds.stores@[i2].observers@.contains(
                                observer,
                            ) by {
                                assert(i2 == found_at) by {
                                    if i2 != found_at {
                                        assert(mds0.stores@[i2].key == Some(kv));
                                        assert(mds0.stores@[found_at as int].key == Some(kv));
                                    }
                                }
                                if present {
                                    let tt = choose|tt: int|
                                        0 <= tt < mds0.stores@[found_at as int].observers@.len()
                                            && mds0.stores@[found_at as int].observers@[tt]
                                            == observer;
                                    assert(nmds.stores@[found_at as int].observers@[tt]
                                        == observer);
                                } else {
                                    assert(nmds.stores@[found_at as int].observers@.last()
                                        == observer);
                                }
                            }
                        }
                        Self::lemma_data_patch(data0, self.data, k, d);
                        assert(self.wf()) by {
                            Self::lemma_wf_after_patch(*old(self), *self, data0, k, d);
                        }
                    }
                } else {
                    // No record yet: append a fresh one with the current
                    // projection as its snapshot.
                    let snapshot = lens.view(&data.dense[d].value.model);
                    let mut observers: Vec<Entity> = Vec::new();
                    observers.push(observer);
                    let record = StateStore { lens, key: Some(kv), old: snapshot, observers };
                    data.dense[d].value.stores.push(record);
                    core::mem::swap(&mut data, &mut self.data);
                    proof {
                        let nmds = self.data.dense@[d as int].value;
                        assert(!mds0.has_key(kv)) by {
                            if mds0.has_key(kv) {
                                let i2 = choose|i2: int|
                                    0 <= i2 < mds0.stores@.len() && (#[trigger] mds0.stores@[
                                    i2]).key == Some(kv);
                                assert(mds0.stores@[i2].key != Some(kv));
                            }
                        }
                        assert(nmds.stores@.last().observers@ =~= seq![observer]);
                        assert(registration_shape(mds0, nmds)) by {
                            assert forall|i2: int| 0 <= i2 < mds0.stores@.len() implies {
                                &&& (#[trigger] nmds.stores@[i2]).lens == mds0.stores@[i2].lens
                                &&& nmds.stores@[i2].key == mds0.stores@[i2].key
                                &&& nmds.stores@[i2].old == mds0.stores@[i2].old
                                &&& (nmds.stores@[i2].observers@ == mds0.stores@[i2].observers@
                                    || exists|o: Entity|
                                    nmds.stores@[i2].observers@ == mds0.stores@[i2].observers@.push(
                                        o,
                                    ))
                            } by {}
                        }
                        assert(observer_registered(lens, observer, mds0, nmds)) by {
                            assert(nmds.has_key(kv)) by {
                                assert(nmds.stores@.last().key == Some(kv));
                                assert(nmds.stores@[nmds.stores@.len() - 1].key == Some(kv));
                            }
                            assert forall|i2: int|
                                0 <= i2 < nmds.stores@.len() && (#[trigger] nmds.stores@[i2]).key
                                    == Some(kv) implies nmds.stores@[i2].observers@.contains(
                                observer,
                            ) by {
                                if i2 < mds0.stores@.len() {
                                    assert(mds0.stores@[i2].key == Some(kv));
                                    assert(mds0.has_key(kv));
                                } else {
                                    assert(nmds.stores@[i2].observers@[0] == observer);
                                }
                            }
                        }
                        Self::lemma_data_patch(data0, self.data, k, d);
                        assert(self.wf()) by {
                            Self::lemma_wf_after_patch(*old(self), *self, data0, k, d);
                        }
                    }
                }
            },
            None => {
                // Keyless lenses are never deduplicated.
                let snapshot = lens.view(&data.dense[d].value.model);
                let mut observers: Vec<Entity> = Vec::new();
                observers.push(observer);
                let record = StateStore { lens, key: None, old: snapshot, observers };
                data.dense[d].value.stores.push(record);
                core::mem::swap(&mut data, &mut self.data);
                proof {
                    let nmds = self.data.dense@[d as int].value;
                    assert(nmds.stores@.last().observers@ =~= seq![observer]);
                    assert(registration_shape(mds0, nmds)) by {
                        assert forall|i2: int| 0 <= i2 < mds0.stores@.len() implies {
                            &&& (#[trigger] nmds.stores@[i2]).lens == mds0.stores@[i2].lens
                            &&& nmds.stores@[i2].key == mds0.stores@[i2].key
                            &&& nmds.stores@[i2].old == mds0.stores@[i2].old
                            &&& (nmds.stores@[i2].observers@ == mds0.stores@[i2].observers@
                                || exists|o: Entity|
                                nmds.stores@[i2].observers@ == mds0.stores@[i2].observers@.push(o))
                        } by {}
                    }
                    assert(observer_registered(lens, observer, mds0, nmds));
                    Self::lemma_data_patch(data0, self.data, k, d);
                    assert(self.wf()) by {
                        Self::lemma_wf_after_patch(*old(self), *self, data0, k, d);
                    }
                }
            },
        }
    }

    /// After patching the value at dense position `d` (key `k`), the map view
    /// differs at most at `k`.
    proof fn lemma_data_patch(
        older: SparseSet<ModelDataStore<L>>,
        newer: SparseSet<ModelDataStore<L>>,
        k: usize,
        d: usize,
    )
        requires
            older.wf(),
            older.contains_key(k),
            d == older.dense_pos(k),
            newer.sparse == older.sparse,
            newer.dense@.len() == older.dense@.len(),
            forall|dd: int|
                0 <= dd < older.dense@.len() && dd != d ==> newer.dense@[dd] == #[trigger] older
                    .dense@[dd],
            newer.dense@[d as int].key == older.dense@[d as int].key,
        ensures
            newer.wf(),
            newer.as_map().dom() == older.as_map().dom(),
            newer.as_map().remove(k) == older.as_map().remove(k),
            newer.contains_key(k),
            newer.dense_pos(k) == d,
    {
        assert forall|kk: usize| #[trigger] newer.contains_key(kk) implies 0 <= newer.dense_pos(
            kk,
        ) < newer.dense@.len() && newer.dense@[newer.dense_pos(kk)].key == kk by {
            assert(older.contains_key(kk));
        }
        assert forall|dd: int| 0 <= dd < newer.dense@.len() implies (#[trigger] newer
            .dense@[dd]).key < newer.sparse@.len() && newer.sparse@[newer.dense@[dd].key as int]
            == dd by {
            assert((#[trigger] older.dense@[dd]).key < older.sparse@.len() && older.sparse@[
                older.dense@[dd].key as int] == dd);
            if dd != d {
                assert(newer.dense@[dd] == older.dense@[dd]);
            }
        }
        assert(newer.wf());
        assert forall|kk: usize| kk != k implies #[trigger] newer.contains_key(kk) == older
            .contains_key(kk) && (newer.contains_key(kk) ==> newer.value_of(kk) == older.value_of(
            kk,
        )) by {
            if newer.contains_key(kk) || older.contains_key(kk) {
                assert(older.contains_key(kk) == newer.contains_key(kk));
                if older.contains_key(kk) {
                    assert(older.dense_pos(kk) != d) by {
                        if older.dense_pos(kk) == d {
                            assert(older.dense@[d as int].key == kk);
                            assert(older.dense@[d as int].key == k);
                        }
                    }
                }
            }
        }
        assert(newer.as_map().dom() =~= older.as_map().dom());
        assert(newer.as_map().remove(k) =~= older.as_map().remove(k));
    }

    /// Well-formedness is preserved by a registration patch.
    proof fn lemma_wf_after_patch(
        oldc: Self,
        newc: Self,
        data0: SparseSet<ModelDataStore<L>>,
        k: usize,
        d: usize,
    )
        requires
            oldc.wf(),
            data0 == oldc.data,
            newc == (Self { data: newc.data, ..oldc }),
            newc.data.wf(),
            newc.data.dense@.len() == data0.dense@.len(),
            forall|dd: int|
                0 <= dd < data0.dense@.len() && dd != d ==> newc.data.dense@[dd]
                    == #[trigger] data0.dense@[dd],
            d < data0.dense@.len(),
            registration_shape(data0.dense@[d as int].value, newc.data.dense@[d as int].value),
        ensures
            newc.wf(),
    {
        assert forall|dd: int|
            0 <= dd < newc.data.dense@.len() implies (#[trigger] newc
            .data.dense@[dd]).value.wf() by {
            assert(data0.dense@[dd].value.wf());
            if dd == d {
                let ov = data0.dense@[d as int].value;
                let nv = newc.data.dense@[d as int].value;
                assert forall|i: int, j: int|
                    0 <= i < j < nv.stores@.len() && (#[trigger] nv.stores@[i]).key is Some
                    implies (#[trigger] nv.stores@[j]).key != nv.stores@[i].key by {
                    if j < ov.stores@.len() {
                        assert(nv.stores@[i].key == ov.stores@[i].key);
                        assert(nv.stores@[j].key == ov.stores@[j].key);
                    } else {
                        assert(nv.stores@[i].key == ov.stores@[i].key);
                        if nv.stores@[j].key is Some {
                            let kv = nv.stores@[j].key->Some_0;
                            assert(!ov.has_key(kv));
                            if ov.stores@[i].key == Some(kv) {
                                assert(ov.has_key(kv));
                            }
                        }
                    }
                }
            }
        }
    }
}

/// What one registration may do to the records of a model: either the
/// observer joined an existing record (same key, observers extended by at
/// most the observer itself), or exactly one fresh record was appended.
pub open spec fn registration_shape<L: Lens>(
    older: ModelDataStore<L>,
    newer: ModelDataStore<L>,
) -> bool {
    &&& newer.model == older.model
    &&& (newer.stores@.len() == older.stores@.len() || newer.stores@.len() == older.stores@.len()
        + 1)
    &&& forall|i: int|
        0 <= i < older.stores@.len() ==> {
            &&& (#[trigger] newer.stores@[i]).lens == older.stores@[i].lens
            &&& newer.stores@[i].key == older.stores@[i].key
            &&& newer.stores@[i].old == older.stores@[i].old
            &&& (newer.stores@[i].observers@ == older.stores@[i].observers@
                || exists|o: Entity|
                newer.stores@[i].observers@ == older.stores@[i].observers@.push(o))
        }
    &&& (newer.stores@.len() == older.stores@.len() + 1 ==> {
        &&& newer.stores@.last().key is Some ==> !older.has_key(newer.stores@.last().key->Some_0)
        &&& newer.stores@.last().observers@.len() == 1
    })
}

/// What [`crate::context::Context::bind_observer`] promises about the model's
/// records: the observer ends up tracked exactly once for this lens.  With a
/// cache key, a record with that key exists afterwards and holds `observer`;
/// records are never duplicated per key, and a record that already held the
/// observer is left alone.
pub open spec fn observer_registered<L: Lens>(
    lens: L,
    observer: Entity,
    older: ModelDataStore<L>,
    newer: ModelDataStore<L>,
) -> bool {
    &&& registration_shape(older, newer)
    &&& match lens.key_spec() {
        Some(kv) => {
            &&& newer.has_key(kv)
            &&& forall|i: int|
                0 <= i < newer.stores@.len() && (#[trigger] newer.stores@[i]).key == Some(kv)
                    ==> newer.stores@[i].observers@.contains(observer)
            &&& (older.has_key(kv) ==> newer.stores@.len() == older.stores@.len())
        },
        None => {
            &&& newer.stores@.len() == older.stores@.len() + 1
            &&& newer.stores@.last().lens == lens
            &&& newer.stores@.last().old == lens.view_spec(&older.model)
            &&& newer.stores@.last().observers@ == seq![observer]
        },
    }
}


/// Did the projection of this record change since its snapshot?  Presence
/// flips always count as changes; present values are compared with the
/// data's own sameness check.
pub open spec fn changed_record<L: Lens>(
    rec: StateStore<L>,
    model: <L as Lens>::Source,
) -> bool where <L as Lens>::Target: Data {
    match rec.old {
        Some(a) => match rec.lens.view_spec(&model) {
            Some(b) => !a.same_spec(&b),
            None => true,
        },
        None => rec.lens.view_spec(&model) is Some,
    }
}

/// `newer` is `older` with every snapshot refreshed to the current
/// projection; nothing else about the records changed.
pub open spec fn snapshots_refreshed<L: Lens>(
    older: ModelDataStore<L>,
    newer: ModelDataStore<L>,
) -> bool {
    &&& newer.model == older.model
    &&& newer.stores@.len() == older.stores@.len()
    &&& forall|i: int|
        0 <= i < older.stores@.len() ==> {
            &&& (#[trigger] newer.stores@[i]).lens == older.stores@[i].lens
            &&& newer.stores@[i].key == older.stores@[i].key
            &&& newer.stores@[i].observers == older.stores@[i].observers
            &&& newer.stores@[i].old == older.stores@[i].lens.view_spec(&older.model)
        }
}

/// Does entity `o` observe, in `data`, some record whose projection changed?
pub open spec fn observes_changed_record<L: Lens>(
    data: SparseSet<ModelDataStore<L>>,
    o: Entity,
) -> bool where <L as Lens>::Target: Data {
    observes_changed_upto(data, data.dense@.len() as int, 0, o)
}

/// Like [`observes_changed_record`], but over the records strictly before
/// scan position `(d, i)` only.
pub open spec fn observes_changed_upto<L: Lens>(
    data: SparseSet<ModelDataStore<L>>,
    d: int,
    i: int,
    o: Entity,
) -> bool where <L as Lens>::Target: Data {
    exists|dd: int, ii: int|
        {
            &&& 0 <= dd < data.dense@.len()
            &&& 0 <= ii < (#[trigger] data.dense@[dd]).value.stores@.len()
            &&& (dd < d || (dd == d && ii < i))
            &&& changed_record(#[trigger] data.dense@[dd].value.stores@[ii], data.dense@[dd].value.model)
            &&& data.dense@[dd].value.stores@[ii].observers@.contains(o)
        }
}

impl<M, L: Lens> Context<M, L> where <L as Lens>::Target: Data {
    /// The data-update pass: re-projects every dependency record against its
    /// model, refreshes the snapshots, and returns the binding entities that
    /// must rebuild — exactly the observers of records whose projected value
    /// changed (a presence flip always counts), each entity at most once,
    /// however many records it observes.  A record whose value is unchanged
    /// triggers nothing.
    pub fn process_data_updates(&mut self) -> (dirty: Vec<Entity>)
        requires
            old(self).wf(),
        ensures
            final(self).wf(),
            final(self).same_but_data(*old(self)),
            final(self).data.sparse == old(self).data.sparse,
            final(self).data.dense@.len() == old(self).data.dense@.len(),
            forall|d: int|
                0 <= d < old(self).data.dense@.len() ==> {
                    &&& (#[trigger] final(self).data.dense@[d]).key == old(self).data.dense@[d].key
                    &&& snapshots_refreshed(
                        old(self).data.dense@[d].value,
                        final(self).data.dense@[d].value,
                    )
                },
            dirty@.no_duplicates(),
            forall|o: Entity|
                #[trigger] dirty@.contains(o) <==> observes_changed_record(old(self).data, o),
    {
        let ghost data0 = self.data;
        let mut data: SparseSet<ModelDataStore<L>> = SparseSet::new();
        core::mem::swap(&mut data, &mut self.data);
        let mut dirty: Vec<Entity> = Vec::new();
        let nd = data.dense.len();
        let mut d: usize = 0;
        while d < nd
            invariant
                old(self).wf(),
                *self == (Context { data: self.data, ..*old(self) }),
                data0 == old(self).data,
                nd == data.dense@.len(),
                d <= nd,
                data.sparse == data0.sparse,
                data.dense@.len() == data0.dense@.len(),
                forall|dd: int|
                    0 <= dd < nd ==> (#[trigger] data.dense@[dd]).key == data0.dense@[dd].key,
                forall|dd: int|
                    0 <= dd < d ==> snapshots_refreshed(
                        data0.dense@[dd].value,
                        (#[trigger] data.dense@[dd]).value,
                    ),
                forall|dd: int| d <= dd < nd ==> data.dense@[dd] == #[trigger] data0.dense@[dd],
                dirty@.no_duplicates(),
                forall|o: Entity|
                    #[trigger] dirty@.contains(o) <==> observes_changed_upto(
                        data0,
                        d as int,
                        0,
                        o,
                    ),
            decreases nd - d,
        {
            let ns = data.dense[d].value.stores.len();
            let mut i: usize = 0;
            while i < ns
                invariant
                    old(self).wf(),
                    *self == (Context { data: self.data, ..*old(self) }),
                    data0 == old(self).data,
                    nd == data.dense@.len(),
                    d < nd,
                    data.sparse == data0.sparse,
                    data.dense@.len() == data0.dense@.len(),
                    forall|dd: int|
                        0 <= dd < nd ==> (#[trigger] data.dense@[dd]).key == data0.dense@[dd].key,
                    forall|dd: int|
                        0 <= dd < d ==> snapshots_refreshed(
                            data0.dense@[dd].value,
                            (#[trigger] data.dense@[dd]).value,
                        ),
                    forall|dd: int|
                        d < dd < nd ==> data.dense@[dd] == #[trigger] data0.dense@[dd],
                    ns == data0.dense@[d as int].value.stores@.len(),
                    i <= ns,
                    data.dense@[d as int].value.stores@.len() == ns,
                    data.dense@[d as int].value.model == data0.dense@[d as int].value.model,
                    forall|ii: int|
                        0 <= ii < i ==> {
                            &&& (#[trigger] data.dense@[d as int].value.stores@[ii]).lens
                                == data0.dense@[d as int].value.stores@[ii].lens
                            &&& data.dense@[d as int].value.stores@[ii].key
                                == data0.dense@[d as int].value.stores@[ii].key
                            &&& data.dense@[d as int].value.stores@[ii].observers
                                == data0.dense@[d as int].value.stores@[ii].observers
                            &&& data.dense@[d as int].value.stores@[ii].old
                                == data0.dense@[d as int].value.stores@[ii].lens.view_spec(
                                &data0.dense@[d as int].value.model,
                            )
                        },
                    forall|ii: int|
                        i <= ii < ns ==> data.dense@[d as int].value.stores@[ii] == #[trigger]
                            data0.dense@[d as int].value.stores@[ii],
                    dirty@.no_duplicates(),
                    forall|o: Entity|
                        #[trigger] dirty@.contains(o) <==> observes_changed_upto(
                            data0,
                            d as int,
                            i as int,
                            o,
                        ),
                decreases ns - i,
            {
                let ghost rec0 = data0.dense@[d as int].value.stores@[i as int];
                let fresh = data.dense[d].value.stores[i].lens.view(&data.dense[d].value.model);
                let changed = match (&data.dense[d].value.stores[i].old, &fresh) {
                    (Some(a), Some(b)) => !a.same(b),
                    (None, None) => false,
                    _ => true,
                };
                proof {
                    assert(changed == changed_record(rec0, data0.dense@[d as int].value.model));
                }
                let mut snapshot = fresh;
                core::mem::swap(&mut snapshot, &mut data.dense[d].value.stores[i].old);
                if changed {
                    // Collect this record's observers, each entity once.
                    let no = data.dense[d].value.stores[i].observers.len();
                    let mut t: usize = 0;
                    while t < no
                        invariant
                            data0 == old(self).data,
                            nd == data.dense@.len(),
                            d < nd,
                            i < ns,
                            ns == data0.dense@[d as int].value.stores@.len(),
                            no == rec0.observers@.len(),
                            rec0 == data0.dense@[d as int].value.stores@[i as int],
                            data.dense@[d as int].value.stores@.len() == ns,
                            data.dense@[d as int].value.stores@[i as int].observers
                                == rec0.observers,
                            changed_record(rec0, data0.dense@[d as int].value.model),
                            t <= no,
                            dirty@.no_duplicates(),
                            forall|o: Entity|
                                #[trigger] dirty@.contains(o) <==> (observes_changed_upto(
                                    data0,
                                    d as int,
                                    i as int,
                                    o,
                                ) || rec0.observers@.take(t as int).contains(o)),
                        decreases no - t,
                    {
                        let o = data.dense[d].value.stores[i].observers[t];
                        let ndirty = dirty.len();
                        let mut u: usize = 0;
                        let mut seen = false;
                        while u < ndirty
                            invariant
                                ndirty == dirty@.len(),
                                u <= ndirty,
                                seen == exists|uu: int| 0 <= uu < u && dirty@[uu] == o,
                            decreases ndirty - u,
                        {
                            if dirty[u] == o {
                                seen = true;
                            }
                            u += 1;
                        }
                        let ghost dirty0 = dirty@;
                        proof {
                            assert(seen == dirty0.contains(o));
                        }
                        if !seen {
                            dirty.push(o);
                        }
                        proof {
                            assert(rec0.observers@.take(t + 1).drop_last() =~= rec0
                                .observers@.take(t as int));
                            assert(rec0.observers@.take(t + 1).last() == o);
                            assert(rec0.observers@.take(t + 1).contains(o)) by {
                                assert(rec0.observers@.take(t + 1)[t as int] == o);
                            }
                            assert forall|o2: Entity| #[trigger] dirty@.contains(o2) implies (
                            observes_changed_upto(data0, d as int, i as int, o2)
                                || rec0.observers@.take(t + 1).contains(o2)) by {
                                if o2 == o {
                                } else {
                                    assert(dirty0.contains(o2)) by {
                                        let uu = choose|uu: int|
                                            0 <= uu < dirty@.len() && dirty@[uu] == o2;
                                        if !seen {
                                            assert(uu < dirty0.len());
                                            assert(dirty0[uu] == o2);
                                        }
                                    }
                                    if rec0.observers@.take(t as int).contains(o2) {
                                        let uu = choose|uu: int|
                                            0 <= uu < t && #[trigger] rec0.observers@.take(
                                                t as int,
                                            )[uu] == o2;
                                        assert(rec0.observers@.take(t + 1)[uu] == o2);
                                    }
                                }
                            }
                            assert forall|o2: Entity|
                                observes_changed_upto(data0, d as int, i as int, o2)
                                    || rec0.observers@.take(t + 1).contains(o2)
                                implies #[trigger] dirty@.contains(o2) by {
                                if observes_changed_upto(data0, d as int, i as int, o2) {
                                    assert(dirty0.contains(o2));
                                    if !seen {
                                        let uu = choose|uu: int|
                                            0 <= uu < dirty0.len() && dirty0[uu] == o2;
                                        assert(dirty@[uu] == o2);
                                    }
                                } else {
                                    if rec0.observers@.take(t + 1).contains(o2) {
                                        let uu = choose|uu: int|
                                            0 <= uu < t + 1 && #[trigger] rec0.observers@.take(
                                                t + 1,
                                            )[uu] == o2;
                                        if uu < t {
                                            assert(rec0.observers@.take(t as int)[uu] == o2);
                                            assert(rec0.observers@.take(t as int).contains(o2));
                                            assert(dirty0.contains(o2));
                                            if !seen {
                                                let vv = choose|vv: int|
                                                    0 <= vv < dirty0.len() && dirty0[vv] == o2;
                                                assert(dirty@[vv] == o2);
                                            }
                                        } else {
                                            assert(o2 == o);
                                            if seen {
                                                if !dirty0.contains(o) {
                                                    assert(false);
                                                }
                                            } else {
                                                assert(dirty@[dirty@.len() - 1] == o);
                                            }
                                        }
                                    }
                                }
                            }
                        }
                        t += 1;
                    }
                    proof {
                        assert(rec0.observers@.take(no as int) =~= rec0.observers@);
                        assert forall|o: Entity| #[trigger] dirty@.contains(o) <==> (
                        observes_changed_upto(data0, d as int, (i + 1) as int, o)) by {
                            if dirty@.contains(o) {
                                if rec0.observers@.contains(o) {
                                    assert(observes_changed_upto(data0, d as int, i + 1, o)) by {
                                        assert(0 <= d < data0.dense@.len() && 0 <= i < (
                                        data0.dense@[d as int]).value.stores@.len());
                                    }
                                }
                            }
                            if observes_changed_upto(data0, d as int, i + 1, o) {
                                let (dd, ii) = choose|dd: int, ii: int|
                                    {
                                        &&& 0 <= dd < data0.dense@.len()
                                        &&& 0 <= ii < data0.dense@[dd].value.stores@.len()
                                        &&& (dd < d || (dd == d && ii < i + 1))
                                        &&& changed_record(
                                            #[trigger] data0.dense@[dd].value.stores@[ii],
                                            data0.dense@[dd].value.model,
                                        )
                                        &&& data0.dense@[dd].value.stores@[ii].observers@.contains(
                                            o,
                                        )
                                    };
                                if dd == d && ii == i {
                                    assert(rec0.observers@.contains(o));
                                } else {
                                    assert(observes_changed_upto(data0, d as int, i as int, o));
                                }
                            }
                        }
                    }
                } else {
                    proof {
                        assert forall|o: Entity| #[trigger] dirty@.contains(o) <==> (
                        observes_changed_upto(data0, d as int, (i + 1) as int, o)) by {
                            if observes_changed_upto(data0, d as int, i + 1, o) {
                                let (dd, ii) = choose|dd: int, ii: int|
                                    {
                                        &&& 0 <= dd < data0.dense@.len()
                                        &&& 0 <= ii < data0.dense@[dd].value.stores@.len()
                                        &&& (dd < d || (dd == d && ii < i + 1))
                                        &&& changed_record(
                                            #[trigger] data0.dense@[dd].value.stores@[ii],
                                            data0.dense@[dd].value.model,
                                        )
                                        &&& data0.dense@[dd].value.stores@[ii].observers@.contains(
                                            o,
                                        )
                                    };
                                if dd == d && ii == i {
                                    assert(!changed_record(rec0, data0.dense@[d as int].value.model));
                                    assert(false);
                                } else {
                                    assert(observes_changed_upto(data0, d as int, i as int, o));
                                }
                            }
                        }
                    }
                }
                i += 1;
            }
            proof {
                assert forall|o: Entity| #[trigger] dirty@.contains(o) <==> (
                observes_changed_upto(data0, (d + 1) as int, 0, o)) by {
                    if observes_changed_upto(data0, d + 1, 0, o) {
                        let (dd, ii) = choose|dd: int, ii: int|
                            {
                                &&& 0 <= dd < data0.dense@.len()
                                &&& 0 <= ii < data0.dense@[dd].value.stores@.len()
                                &&& (dd < d + 1 || (dd == d + 1 && ii < 0))
                                &&& changed_record(
                                    #[trigger] data0.dense@[dd].value.stores@[ii],
                                    data0.dense@[dd].value.model,
                                )
                                &&& data0.dense@[dd].value.stores@[ii].observers@.contains(o)
                            };
                        assert(dd < d || (dd == d && ii < ns));
                        assert(observes_changed_upto(data0, d as int, ns as int, o));
                    }
                    if observes_changed_upto(data0, d as int, ns as int, o) {
                        assert(observes_changed_upto(data0, d + 1, 0, o));
                    }
                }
            }
            d += 1;
        }
        core::mem::swap(&mut data, &mut self.data);
        proof {
            assert(self.data.wf()) by {
                assert forall|k: usize| #[trigger] self.data.contains_key(k) implies 0
                    <= self.data.dense_pos(k) < self.data.dense@.len() && self.data.dense@[
                    self.data.dense_pos(k)].key == k by {
                    assert(old(self).data.contains_key(k));
                }
                assert forall|dd: int| 0 <= dd < self.data.dense@.len() implies (#[trigger] self
                    .data.dense@[dd]).key < self.data.sparse@.len() && self.data.sparse@[
                    self.data.dense@[dd].key as int] == dd by {
                    assert(self.data.dense@[dd].key == old(self).data.dense@[dd].key);
                }
            }
            assert forall|dd: int|
                0 <= dd < self.data.dense@.len() implies (#[trigger] self
                .data.dense@[dd]).value.wf() by {
                let ov = old(self).data.dense@[dd].value;
                let nv = self.data.dense@[dd].value;
                assert(ov.wf());
                assert(snapshots_refreshed(ov, nv));
                assert forall|i2: int, j2: int|
                    0 <= i2 < j2 < nv.stores@.len() && (#[trigger] nv.stores@[i2]).key is Some
                    implies (#[trigger] nv.stores@[j2]).key != nv.stores@[i2].key by {
                    assert(nv.stores@[i2].key == ov.stores@[i2].key);
                    assert(nv.stores@[j2].key == ov.stores@[j2].key);
                }
            }
            assert(self.wf());
        }
        dirty
    }
}

} // verus!
