use vstd::prelude::*;

use crate::algebra::LIMIT;
use crate::components::{Material, Surface, Transform, Translation};
use crate::geometry::Shape;
use crate::storage::SparseSet;

verus! {

/// The component stores of the physics world, one per component kind.
pub struct World {
    pub transform: SparseSet<Transform>,
    pub translation: SparseSet<Translation>,
    pub surface: SparseSet<Surface>,
    pub shape: SparseSet<Shape>,
    pub material: SparseSet<Material>,
}

impl World {
    /// Every store is consistent and every component within the bounds the
    /// solver's arithmetic needs; every shape is valid.
    pub open spec fn wf(&self) -> bool {
        &&& self.transform.wf()
        &&& self.translation.wf()
        &&& self.surface.wf()
        &&& self.shape.wf()
        &&& self.material.wf()
        &&& forall|i: int|
            0 <= i < self.transform.comps().len() ==> (#[trigger] self.transform.comps()[i]).pos.bounded(
                LIMIT as int,
            )
        &&& forall|i: int|
            0 <= i < self.translation.comps().len() ==> (#[trigger] self.translation.comps()[i]).wf()
        &&& forall|i: int| 0 <= i < self.shape.comps().len() ==> (#[trigger] self.shape.comps()[i]).sound()
    }

    /// What the bounds give for the components one entity holds.
    pub proof fn lemma_entity_bounds(&self, e: crate::entities::Entity)
        requires
            self.wf(),
        ensures
            self.transform.contains(e) ==> self.transform.comps()[self.transform.ents().index_of(
                e,
            )].pos.bounded(LIMIT as int),
            self.translation.contains(e) ==> self.translation.comps()[self.translation.ents().index_of(
                e,
            )].wf(),
            self.shape.contains(e) ==> self.shape.comps()[self.shape.ents().index_of(e)].sound(),
    {
        if self.transform.contains(e) {
            self.transform.lemma_contains_index(e);
        }
        if self.translation.contains(e) {
            self.translation.lemma_contains_index(e);
        }
        if self.shape.contains(e) {
            self.shape.lemma_contains_index(e);
        }
    }

    pub fn new() -> (r: Self)
        ensures
            r.wf(),
            r.transform.ents().len() == 0,
            r.translation.ents().len() == 0,
            r.surface.ents().len() == 0,
            r.shape.ents().len() == 0,
            r.material.ents().len() == 0,
    {
        World {
            transform: SparseSet::new(),
            translation: SparseSet::new(),
            surface: SparseSet::new(),
            shape: SparseSet::new(),
            material: SparseSet::new(),
        }
    }

    /// Empties every store.
    pub fn reset(&mut self)
        ensures
            final(self).wf(),
            final(self).transform.ents().len() == 0,
            final(self).translation.ents().len() == 0,
            final(self).surface.ents().len() == 0,
            final(self).shape.ents().len() == 0,
            final(self).material.ents().len() == 0,
    {
        *self = World::new();
    }
}

} // verus!
