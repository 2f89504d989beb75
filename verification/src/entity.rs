//! Generational entity identifiers and the id manager that allocates them.
//!
//! An entity is an index plus a generation counter.  When a slot is freed its
//! generation is bumped, so a handle held across a destroy/reuse boundary can
//! never be mistaken for the entity that now occupies the slot.

use vstd::prelude::*;

verus! {

broadcast use vstd::std_specs::vec::group_vec_axioms;

/// Index value reserved for the null entity.
pub const NULL_INDEX: usize = usize::MAX;

/// A generational handle identifying one node in the UI tree.
///
/// The root entity is a fixed well-known id; the null entity stands for
/// "no target".
#[derive(Clone, Copy, PartialEq, Eq, Structural, Debug, Hash)]
pub struct Entity {
    pub index: usize,
    pub generation: u64,
}

impl Entity {
    /// The fixed root entity.
    pub open spec fn spec_root() -> Entity {
        Entity { index: 0, generation: 0 }
    }

    /// The null entity ("no target").
    pub open spec fn spec_null() -> Entity {
        Entity { index: NULL_INDEX as usize, generation: 0 }
    }

    pub open spec fn spec_index(self) -> int {
        self.index as int
    }

    pub open spec fn spec_generation(self) -> int {
        self.generation as int
    }

    pub open spec fn spec_is_null(self) -> bool {
        self.index == NULL_INDEX
    }

    pub fn root() -> (e: Entity)
        ensures
            e == Entity::spec_root(),
    {
        Entity { index: 0, generation: 0 }
    }

    pub fn null() -> (e: Entity)
        ensures
            e == Entity::spec_null(),
    {
        Entity { index: NULL_INDEX, generation: 0 }
    }

    pub fn is_null(&self) -> (r: bool)
        ensures
            r == self.spec_is_null(),
    {
        self.index == NULL_INDEX
    }

    /// The slot index of this entity.
    pub fn index(&self) -> (i: usize)
        ensures
            i == self.spec_index(),
    {
        self.index
    }

    /// The generation of this entity's slot at the time it was created.
    pub fn generation(&self) -> (g: u64)
        ensures
            g == self.spec_generation(),
    {
        self.generation
    }

    pub(crate) fn make(index: usize, generation: u64) -> (e: Entity)
        ensures
            e.spec_index() == index,
            e.spec_generation() == generation,
    {
        Entity { index, generation }
    }
}

/// Allocator for entities: an arena of slots plus a freelist.
///
/// `create` reuses a freed slot's index but with a bumped generation, so a
/// stale handle never equals a newly created one.  `destroy` is idempotent:
/// destroying an entity that is not live is a no-op.
pub struct IdManager {
    /// Per slot: the generation a live handle must carry.
    generations: Vec<u64>,
    /// Per slot: whether the slot currently holds a live entity.
    alive: Vec<bool>,
    /// Indices of dead slots available for reuse.
    free: Vec<usize>,
}

impl IdManager {
    pub closed spec fn slot_count(self) -> int {
        self.generations@.len() as int
    }

    /// The entity that is live in slot `i`, if any.
    pub closed spec fn live_at(self, i: int) -> bool {
        0 <= i < self.generations@.len() && self.alive@[i]
    }

    /// Is this exact handle (index and generation) currently live?
    pub closed spec fn is_live(self, e: Entity) -> bool {
        self.live_at(e.spec_index()) && self.generations@[e.spec_index()] == e.spec_generation()
    }

    pub closed spec fn wf(self) -> bool {
        &&& self.alive@.len() == self.generations@.len()
        &&& self.generations@.len() >= 1
        &&& self.alive@[0]
        &&& self.generations@[0] == 0
        &&& forall|k: int|
            0 <= k < self.free@.len() ==> 0 < #[trigger] self.free@[k] < self.generations@.len()
                && !self.alive@[self.free@[k] as int]
        &&& forall|k1: int, k2: int|
            0 <= k1 < k2 < self.free@.len() ==> self.free@[k1] != self.free@[k2]
    }

    /// The null entity is never live: no slot carries its index.
    pub proof fn lemma_null_never_live(self)
        ensures
            !self.is_live(Entity::spec_null()),
    {
        assert(self.generations@.len() == vstd::std_specs::vec::spec_vec_len(&self.generations));
    }

    /// A fresh manager has only the root live.
    pub fn new() -> (m: IdManager)
        ensures
            m.wf(),
            m.is_live(Entity::spec_root()),
            m.slot_count() == 1,
            forall|e: Entity| m.is_live(e) ==> e == Entity::spec_root(),
    {
        let mut generations: Vec<u64> = Vec::new();
        let mut alive: Vec<bool> = Vec::new();
        generations.push(0);
        alive.push(true);
        let m = IdManager { generations, alive, free: Vec::new() };
        proof {
            assert(m.is_live(Entity::spec_root()));
        }
        m
    }

    /// Creates a fresh entity.  The result was not live before the call, is
    /// live after it, is never null and never the root, and every previously
    /// live entity stays live.
    pub fn create(&mut self) -> (e: Entity)
        requires
            old(self).wf(),
        ensures
            final(self).wf(),
            final(self).is_live(e),
            !old(self).is_live(e),
            !e.spec_is_null(),
            e != Entity::spec_root(),
            forall|x: Entity| old(self).is_live(x) ==> final(self).is_live(x),
            forall|x: Entity| final(self).is_live(x) && x != e ==> old(self).is_live(x),
            forall|x: Entity|
                old(self).is_live(x) ==> x.spec_index() != e.spec_index(),
    {
        if let Some(index) = self.free.pop() {
            let generation = self.generations[index];
            self.alive.set(index, true);
            let e = Entity { index, generation };
            proof {
                assert(self.generations@.len() == vstd::std_specs::vec::spec_vec_len(&self.generations));
                assert(self.is_live(e));
                assert forall|x: Entity| old(self).is_live(x) implies self.is_live(x) by {}
            }
            e
        } else {
            let index = self.generations.len();
            self.generations.push(0);
            self.alive.push(true);
            let e = Entity { index, generation: 0 };
            proof {
                assert(self.generations@.len() == vstd::std_specs::vec::spec_vec_len(&self.generations));
                assert(self.is_live(e));
            }
            e
        }
    }

    /// Destroys a live entity, freeing its slot with a bumped generation.
    /// Destroying the root, the null entity, or anything not live is a no-op.
    pub fn destroy(&mut self, e: Entity)
        requires
            old(self).wf(),
        ensures
            final(self).wf(),
            !final(self).is_live(e) || e == Entity::spec_root(),
            forall|x: Entity| old(self).is_live(x) && x != e ==> final(self).is_live(x),
            forall|x: Entity| final(self).is_live(x) ==> old(self).is_live(x),
    {
        if e.index == 0 || e.index >= self.generations.len() {
            return;
        }
        if !self.alive[e.index] || self.generations[e.index] != e.generation {
            return;
        }
        self.alive.set(e.index, false);
        let g = self.generations[e.index];
        if g < u64::MAX {
            // Bump the generation so stale handles are distinguishable, and
            // make the slot available again.  A slot whose generation counter
            // is exhausted is retired instead of reused.
            self.generations.set(e.index, g + 1);
            self.free.push(e.index);
        }
        proof {
            assert forall|x: Entity| old(self).is_live(x) && x != e implies self.is_live(x) by {}
        }
    }
}

} // verus!
