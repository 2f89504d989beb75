//! Computed per-entity geometry and visual state, written by the layout pass
//! and read when drawing.

use vstd::prelude::*;
use crate::entity::Entity;
use crate::sparse_set::SparseSet;
use crate::sparse_set::SPARSE_NULL;
use crate::style_types::Display;
use crate::style_types::Visibility;

verus! {

/// A rectangle in thousandths of a pixel.
#[derive(Debug, Clone, Copy, PartialEq, Eq, Structural)]
pub struct BoundingBox {
    pub x: i64,
    pub y: i64,
    pub w: i64,
    pub h: i64,
}

impl BoundingBox {
    pub open spec fn spec_zero() -> BoundingBox {
        BoundingBox { x: 0, y: 0, w: 0, h: 0 }
    }

    pub fn zero() -> (b: BoundingBox)
        ensures
            b == BoundingBox::spec_zero(),
    {
        BoundingBox { x: 0, y: 0, w: 0, h: 0 }
    }
}

/// What the pipeline has computed for one entity.
#[derive(Debug, Clone, Copy, PartialEq, Eq, Structural)]
pub struct CacheEntry {
    pub bounds: BoundingBox,
    pub clip_region: BoundingBox,
    pub visibility: Visibility,
    pub display: Display,
    /// Opacity in thousandths: 1000 is opaque.
    pub opacity: i64,
}

impl CacheEntry {
    pub open spec fn spec_default() -> CacheEntry {
        CacheEntry {
            bounds: BoundingBox::spec_zero(),
            clip_region: BoundingBox::spec_zero(),
            visibility: Visibility::Visible,
            display: Display::Flex,
            opacity: 1000,
        }
    }
}

/// The cache store: entity index to computed entry.
#[derive(Debug)]
pub struct CachedData {
    pub entries: SparseSet<CacheEntry>,
}

impl CachedData {
    pub open spec fn wf(self) -> bool {
        self.entries.wf()
    }

    pub open spec fn as_map(self) -> Map<usize, CacheEntry> {
        self.entries.as_map()
    }

    pub fn new() -> (c: CachedData)
        ensures
            c.wf(),
            c.as_map() == Map::<usize, CacheEntry>::empty(),
    {
        CachedData { entries: SparseSet::new() }
    }

    /// Registers an entity with a default entry.
    pub fn add(&mut self, e: Entity)
        requires
            old(self).wf(),
            e.spec_index() != SPARSE_NULL,
        ensures
            final(self).wf(),
            final(self).as_map() == old(self).as_map().insert(
                e.spec_index() as usize,
                CacheEntry::spec_default(),
            ),
    {
        let entry = CacheEntry {
            bounds: BoundingBox::zero(),
            clip_region: BoundingBox::zero(),
            visibility: Visibility::Visible,
            display: Display::Flex,
            opacity: 1000,
        };
        let r = self.entries.insert(e.index(), entry);
        proof {
            assert(r is Ok);
        }
    }

    /// Purges an entity.
    pub fn remove(&mut self, e: Entity)
        requires
            old(self).wf(),
        ensures
            final(self).wf(),
            final(self).as_map() == old(self).as_map().remove(e.spec_index() as usize),
    {
        let _ = self.entries.remove(e.index());
    }

    /// Overwrites an entity's entry.
    pub fn set(&mut self, e: Entity, entry: CacheEntry)
        requires
            old(self).wf(),
            e.spec_index() != SPARSE_NULL,
        ensures
            final(self).wf(),
            final(self).as_map() == old(self).as_map().insert(e.spec_index() as usize, entry),
    {
        let r = self.entries.insert(e.index(), entry);
        proof {
            assert(r is Ok);
        }
    }

    /// What `get` returns: the entry, or the default when absent.
    pub open spec fn get_spec(self, e: Entity) -> CacheEntry {
        if self.as_map().dom().contains(e.spec_index() as usize) {
            self.as_map()[e.spec_index() as usize]
        } else {
            CacheEntry::spec_default()
        }
    }

    /// The entry of an entity, or the default when it has none.
    pub fn get(&self, e: Entity) -> (r: CacheEntry)
        requires
            self.wf(),
        ensures
            r == self.get_spec(e),
    {
        match self.entries.get(e.index()) {
            Some(entry) => *entry,
            None => CacheEntry {
                bounds: BoundingBox::zero(),
                clip_region: BoundingBox::zero(),
                visibility: Visibility::Visible,
                display: Display::Flex,
                opacity: 1000,
            },
        }
    }
}

} // verus!
