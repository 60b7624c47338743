use vstd::prelude::*;

verus! {

/// An opaque entity handle: an index key into the component stores.
pub type Entity = u32;

/// Hands out fresh entity handles in increasing order.
pub struct EntityManager {
    pub(crate) next_id: Entity,
}

impl EntityManager {
    pub closed spec fn next(&self) -> Entity {
        self.next_id
    }

    pub fn new() -> (r: Self)
        ensures
            r.next() == 0,
    {
        EntityManager { next_id: 0 }
    }

    /// Returns the next handle and advances past it.
    pub fn create(&mut self) -> (id: Entity)
        requires
            old(self).next() < u32::MAX,
        ensures
            id == old(self).next(),
            final(self).next() == old(self).next() + 1,
    {
        let id = self.next_id;
        self.next_id = self.next_id + 1;
        id
    }

    /// Makes `idx` the next handle to be created.
    pub fn skip_to(&mut self, idx: Entity)
        ensures
            final(self).next() == idx,
    {
        self.next_id = idx;
    }

    pub fn reset(&mut self)
        ensures
            final(self).next() == 0,
    {
        *self = Self::new();
    }
}

} // verus!
