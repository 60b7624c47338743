use vstd::prelude::*;

use crate::entities::Entity;
use crate::error::ComponentError;

verus! {

/// A sparse-indexed component store: components are packed densely, and an
/// index table maps each entity to the slot of its component.
pub struct SparseSet<T> {
    pub(crate) components: Vec<T>,
    pub(crate) entities: Vec<Entity>,
    pub(crate) sparse: Vec<Option<usize>>,
}

impl<T> SparseSet<T> {
    /// The index table and the packed arrays agree.
    pub closed spec fn wf(&self) -> bool {
        &&& self.components.len() == self.entities.len()
        &&& forall|i: int|
            0 <= i < self.entities.len() ==> (#[trigger] self.entities@[i] as int) < self.sparse.len()
                && self.sparse@[self.entities@[i] as int] == Some(i as usize)
        &&& forall|e: int|
            0 <= e < self.sparse.len() && (#[trigger] self.sparse@[e]) is Some ==> {
                &&& self.sparse@[e].unwrap() < self.entities.len()
                &&& self.entities@[self.sparse@[e].unwrap() as int] as int == e
            }
    }

    /// The entities that hold a component, in storage order.
    pub closed spec fn ents(&self) -> Seq<Entity> {
        self.entities@
    }

    /// The components, in storage order (parallel to `ents`).
    pub closed spec fn comps(&self) -> Seq<T> {
        self.components@
    }

    pub open spec fn contains(&self, e: Entity) -> bool {
        self.ents().contains(e)
    }

    /// Each entity mapped to its component.
    pub open spec fn view(&self) -> Map<Entity, T> {
        Map::new(
            |e: Entity| self.ents().contains(e),
            |e: Entity| self.comps()[self.ents().index_of(e)],
        )
    }

    pub proof fn lemma_ents_unique(&self)
        requires
            self.wf(),
        ensures
            self.ents().no_duplicates(),
            self.ents().len() == self.comps().len(),
    {
        assert forall|i: int, j: int|
            0 <= i < self.ents().len() && 0 <= j < self.ents().len() && i != j implies self.ents()[i]
            != self.ents()[j] by {
            if self.ents()[i] == self.ents()[j] {
                assert(self.sparse@[self.entities@[i] as int] == Some(i as usize));
                assert(self.sparse@[self.entities@[j] as int] == Some(j as usize));
            }
        }
    }

    pub proof fn lemma_index_of(&self, i: int)
        requires
            self.wf(),
            0 <= i < self.ents().len(),
        ensures
            self.ents().contains(self.ents()[i]),
            self.ents().index_of(self.ents()[i]) == i,
    {
        self.lemma_ents_unique();
        let e = self.ents()[i];
        assert(self.ents()[i] == e);
        let j = self.ents().index_of(e);
        assert(0 <= j < self.ents().len() && self.ents()[j] == e);
    }

    pub proof fn lemma_contains_index(&self, e: Entity)
        requires
            self.wf(),
            self.contains(e),
        ensures
            0 <= self.ents().index_of(e) < self.ents().len(),
            self.ents()[self.ents().index_of(e)] == e,
            self.ents().len() == self.comps().len(),
    {
        self.lemma_ents_unique();
        let i = choose|i: int| 0 <= i < self.ents().len() && self.ents()[i] == e;
        self.lemma_index_of(i);
    }

    /// The slot that holds `e`'s component, if any.
    fn slot(&self, e: Entity) -> (r: Option<usize>)
        requires
            self.wf(),
        ensures
            match r {
                Some(i) => i < self.ents().len() && self.ents()[i as int] == e,
                None => !self.ents().contains(e),
            },
    {
        let id = e as usize;
        if id < self.sparse.len() {
            match self.sparse[id] {
                Some(i) => Some(i),
                None => {
                    assert forall|k: int| 0 <= k < self.ents().len() implies self.ents()[k] != e by {
                        assert(self.sparse@[self.entities@[k] as int] == Some(k as usize));
                    }
                    None
                },
            }
        } else {
            assert forall|k: int| 0 <= k < self.ents().len() implies self.ents()[k] != e by {
                assert((self.entities@[k] as int) < self.sparse.len());
            }
            None
        }
    }

    pub fn new() -> (r: Self)
        ensures
            r.wf(),
            r.ents() == Seq::<Entity>::empty(),
            r.comps() == Seq::<T>::empty(),
    {
        SparseSet { components: Vec::new(), entities: Vec::new(), sparse: Vec::new() }
    }

    pub fn len(&self) -> (r: usize)
        requires
            self.wf(),
        ensures
            r == self.ents().len(),
            r == self.comps().len(),
    {
        self.entities.len()
    }

    /// Adds a component for `e`, at the end of the storage order; fails if `e`
    /// already has one.
    pub fn insert(&mut self, e: Entity, c: T) -> (r: Result<(), ComponentError>)
        requires
            old(self).wf(),
        ensures
            final(self).wf(),
            old(self).contains(e) ==> r == Err::<(), ComponentError>(
                ComponentError::AlreadyExistingComponent(e),
            ) && final(self).ents() == old(self).ents() && final(self).comps() == old(self).comps(),
            !old(self).contains(e) ==> r is Ok && final(self).ents() == old(self).ents().push(e)
                && final(self).comps() == old(self).comps().push(c),
    {
        let index = self.components.len();
        let id = e as usize;
        if self.slot(e).is_some() {
            return Err(ComponentError::AlreadyExistingComponent(e));
        }
        while self.sparse.len() <= id
            invariant
                self.wf(),
                !self.ents().contains(e),
                self.ents() == old(self).ents(),
                self.comps() == old(self).comps(),
                index == self.components.len(),
            decreases id + 1 - self.sparse.len(),
        {
            self.sparse.push(None);
        }
        assert(self.sparse@[id as int] is None) by {
            if self.sparse@[id as int] is Some {
                assert(self.entities@[self.sparse@[id as int].unwrap() as int] == e);
            }
        }
        self.components.push(c);
        self.entities.push(e);
        self.sparse.set(id, Some(index));
        assert forall|i: int| 0 <= i < self.entities.len() implies (#[trigger] self.entities@[i] as int)
            < self.sparse.len() && self.sparse@[self.entities@[i] as int] == Some(i as usize) by {
            if i < index {
                assert(old(self).ents()[i] != e);
            }
        }
        Ok(())
    }

    /// Takes out `e`'s component; the last component moves into its slot.
    pub fn remove(&mut self, e: Entity) -> (r: Option<T>)
        requires
            old(self).wf(),
        ensures
            final(self).wf(),
            !old(self).contains(e) ==> r is None && final(self).ents() == old(self).ents()
                && final(self).comps() == old(self).comps(),
            old(self).contains(e) ==> {
                let i = old(self).ents().index_of(e);
                &&& r == Some(old(self).comps()[i])
                &&& final(self).ents() == old(self).ents().update(i, old(self).ents().last()).drop_last()
                &&& final(self).comps() == old(self).comps().update(i, old(self).comps().last()).drop_last()
            },
    {
        proof { self.lemma_ents_unique(); }
        let index = match self.slot(e) {
            Some(i) => i,
            None => return None,
        };
        proof {
            self.lemma_index_of(index as int);
        }
        let ghost pre = *self;
        let removed = self.components.swap_remove(index);
        self.entities.swap_remove(index);
        let id = e as usize;
        if index < self.entities.len() {
            let moved = self.entities[index];
            self.sparse.set(moved as usize, Some(index));
            proof {
                pre.lemma_ents_unique();
                assert(moved == pre.ents().last());
                assert(moved != e);
            }
        }
        self.sparse.set(id, None);
        proof {
            pre.lemma_ents_unique();
            assert forall|i: int| 0 <= i < self.entities.len() implies (#[trigger] self.entities@[i] as int)
                < self.sparse.len() && self.sparse@[self.entities@[i] as int] == Some(i as usize) by {
                if i != index as int {
                    assert(pre.entities@[i] != e);
                    assert(pre.entities@[i] != pre.entities@[pre.entities.len() - 1]);
                }
            }
            assert forall|k: int|
                0 <= k < self.sparse.len() && (#[trigger] self.sparse@[k]) is Some implies {
                &&& self.sparse@[k].unwrap() < self.entities.len()
                &&& self.entities@[self.sparse@[k].unwrap() as int] as int == k
            } by {
                if k != id as int && !(index < self.entities.len() && k == pre.entities@[pre.entities.len() - 1] as int) {
                    let s = pre.sparse@[k].unwrap();
                    assert(pre.entities@[s as int] as int == k);
                    if s as int == pre.entities.len() - 1 {
                        assert(false);
                    }
                }
            }
        }
        Some(removed)
    }

    /// Replaces `e`'s component; fails if `e` has none.
    pub fn set(&mut self, e: Entity, c: T) -> (r: Result<(), ComponentError>)
        requires
            old(self).wf(),
        ensures
            final(self).wf(),
            final(self).ents() == old(self).ents(),
            !old(self).contains(e) ==> r == Err::<(), ComponentError>(
                ComponentError::MissingComponent(e),
            ) && final(self).comps() == old(self).comps(),
            old(self).contains(e) ==> r is Ok && final(self).comps() == old(self).comps().update(
                old(self).ents().index_of(e),
                c,
            ),
    {
        proof { self.lemma_ents_unique(); }
        match self.slot(e) {
            Some(i) => {
                proof { self.lemma_index_of(i as int); }
                self.components.set(i, c);
                Ok(())
            },
            None => Err(ComponentError::MissingComponent(e)),
        }
    }

    pub fn get(&self, e: Entity) -> (r: Option<&T>)
        requires
            self.wf(),
        ensures
            !self.contains(e) ==> r is None,
            self.contains(e) ==> r == Some(&self.comps()[self.ents().index_of(e)]),
    {
        proof { self.lemma_ents_unique(); }
        match self.slot(e) {
            Some(i) => {
                proof { self.lemma_index_of(i as int); }
                Some(&self.components[i])
            },
            None => None,
        }
    }

    pub fn get_mut(&mut self, e: Entity) -> (r: Option<&mut T>)
        requires
            old(self).wf(),
        ensures
            !old(self).contains(e) ==> r is None && *final(self) == *old(self),
            old(self).contains(e) ==> match r {
                Some(c) => {
                    &&& *c == old(self).comps()[old(self).ents().index_of(e)]
                    &&& final(self).wf()
                    &&& final(self).ents() == old(self).ents()
                    &&& final(self).comps() == old(self).comps().update(
                        old(self).ents().index_of(e),
                        *final(c),
                    )
                },
                None => false,
            },
    {
        proof { self.lemma_ents_unique(); }
        match self.slot(e) {
            Some(i) => {
                proof { self.lemma_index_of(i as int); }
                Some(&mut self.components[i])
            },
            None => None,
        }
    }

    /// The entity stored in slot `i`.
    pub fn entity_at(&self, i: usize) -> (r: Entity)
        requires
            self.wf(),
            i < self.ents().len(),
        ensures
            r == self.ents()[i as int],
    {
        self.entities[i]
    }

    /// The component stored in slot `i`.
    pub fn get_at(&self, i: usize) -> (r: &T)
        requires
            self.wf(),
            i < self.ents().len(),
        ensures
            *r == self.comps()[i as int],
    {
        &self.components[i]
    }

    /// Replaces the component stored in slot `i`.
    pub fn set_at(&mut self, i: usize, c: T)
        requires
            old(self).wf(),
            i < old(self).ents().len(),
        ensures
            final(self).wf(),
            final(self).ents() == old(self).ents(),
            final(self).comps() == old(self).comps().update(i as int, c),
    {
        self.components.set(i, c);
    }

    /// The entities that hold a component, in storage order.
    pub fn get_ents(&self) -> (r: Vec<Entity>)
        ensures
            r@ == self.ents(),
    {
        self.entities.clone()
    }

    /// The components, in storage order.
    pub fn get_ref(&self) -> (r: &Vec<T>)
        ensures
            r@ == self.comps(),
    {
        &self.components
    }
}

} // verus!
