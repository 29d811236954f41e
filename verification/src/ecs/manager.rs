//! The entity manager: one component store per kind of component, made when
//! the kind is first used, and the queue of entities that wait to be removed.

use crate::ecs::components::{Component, ComponentKind};
use crate::ecs::store::{lemma_remove_wf, ComponentStore, StoreModel};
use vstd::prelude::*;

verus! {

/// Entities that are to be removed at the start of the next tick.
pub struct CommandQueue {
    entities_to_remove: Vec<usize>,
}

impl CommandQueue {
    /// The queued entities, oldest request first.
    pub closed spec fn view(&self) -> Seq<usize> {
        self.entities_to_remove@
    }

    /// An empty queue.
    pub fn new() -> (queue: Self)
        ensures
            queue@ == Seq::<usize>::empty(),
    {
        Self { entities_to_remove: Vec::new() }
    }

    /// Asks for `entity` to be removed.
    pub fn remove_entity(&mut self, entity: usize)
        ensures
            final(self)@ == old(self)@.push(entity),
    {
        self.entities_to_remove.push(entity);
    }

    /// Forgets all requests.
    pub fn clear(&mut self)
        ensures
            final(self)@ == Seq::<usize>::empty(),
    {
        self.entities_to_remove.clear();
    }

    /// The queued entities, oldest request first.
    pub fn entities_to_remove(&self) -> (entities: &Vec<usize>)
        ensures
            entities@ == self@,
    {
        &self.entities_to_remove
    }
}

/// The entities of `first`, in its order, that `second` holds too, among the
/// first `n`.
pub open spec fn in_both(first: Seq<usize>, second: Map<usize, usize>, n: int) -> Seq<usize>
    decreases n,
{
    if n <= 0 {
        Seq::empty()
    } else if second.contains_key(first[n - 1]) {
        in_both(first, second, n - 1).push(first[n - 1])
    } else {
        in_both(first, second, n - 1)
    }
}

/// Hands out entity ids and keeps the components of all entities.
pub struct EntityManager {
    entities_count: usize,
    kinds: Vec<ComponentKind>,
    component_stores: Vec<ComponentStore<Component>>,
}

impl EntityManager {
    /// How many ids were handed out: the next id.
    pub closed spec fn count(&self) -> usize {
        self.entities_count
    }

    /// The kinds that have a store, in the order in which they were first
    /// used.
    pub closed spec fn kinds(&self) -> Seq<ComponentKind> {
        self.kinds@
    }

    /// The content of each store, in the order of `kinds`.
    pub closed spec fn stores(&self) -> Seq<StoreModel<Component>> {
        Seq::new(self.component_stores@.len(), |i: int| self.component_stores@[i].model())
    }

    /// Each kind has at most one store, each store is a well-formed sparse
    /// set, and holds components of its kind only.
    pub open spec fn wf(&self) -> bool {
        &&& self.kinds().len() == self.stores().len()
        &&& self.kinds().no_duplicates()
        &&& forall|i: int| 0 <= i < self.stores().len() ==> (#[trigger] self.stores()[i]).wf()
        &&& forall|i: int, j: int|
            0 <= i < self.stores().len() && 0 <= j < self.stores()[i].components.len() ==> (
            #[trigger] self.stores()[i].components[j]).spec_kind() == self.kinds()[i]
    }

    /// Whether `entity` has a component of `kind`.
    pub open spec fn has(&self, entity: usize, kind: ComponentKind) -> bool {
        self.kinds().contains(kind) && self.stores()[self.kinds().index_of(kind)].has(entity)
    }

    /// A manager without entities or stores.
    pub fn new() -> (manager: Self)
        ensures
            manager.wf(),
            manager.count() == 0,
            manager.kinds() == Seq::<ComponentKind>::empty(),
            manager.stores() == Seq::<StoreModel<Component>>::empty(),
    {
        let manager = Self { entities_count: 0, kinds: Vec::new(), component_stores: Vec::new() };
        proof {
            assert(manager.stores() =~= Seq::<StoreModel<Component>>::empty());
        }
        manager
    }

    /// How many ids were handed out.
    pub fn entities_count(&self) -> (count: usize)
        ensures
            count == self.count(),
    {
        self.entities_count
    }

    /// Hands out the next id. Ids count up from zero and are never handed
    /// out twice.
    pub fn add_entity(&mut self) -> (entity: usize)
        requires
            old(self).count() < usize::MAX,
        ensures
            entity == old(self).count(),
            final(self).count() == old(self).count() + 1,
            final(self).kinds() == old(self).kinds(),
            final(self).stores() == old(self).stores(),
    {
        let entity = self.entities_count;
        self.entities_count += 1;
        entity
    }

    /// The place of the store of `kind`, if there is one.
    fn find_store(&self, kind: ComponentKind) -> (at: Option<usize>)
        requires
            self.kinds().len() == self.stores().len(),
        ensures
            match at {
                Some(i) => i < self.kinds().len() && self.kinds()[i as int] == kind,
                None => !self.kinds().contains(kind),
            },
    {
        let mut i: usize = 0;
        while i < self.kinds.len()
            invariant
                i <= self.kinds.len(),
                forall|j: int| 0 <= j < i ==> self.kinds@[j] != kind,
            decreases self.kinds.len() - i,
        {
            if self.kinds[i] == kind {
                return Some(i);
            }
            i += 1;
        }
        None
    }

    /// Takes `entity` out of every store.
    pub fn remove_entity(&mut self, entity: usize)
        requires
            old(self).wf(),
        ensures
            final(self).wf(),
            final(self).count() == old(self).count(),
            final(self).kinds() == old(self).kinds(),
            final(self).stores().len() == old(self).stores().len(),
            forall|i: int|
                0 <= i < old(self).stores().len() ==> #[trigger] final(self).stores()[i] == old(self).stores()[i].remove(entity),
    {
        let mut i: usize = 0;
        while i < self.component_stores.len()
            invariant
                i <= self.component_stores.len(),
                self.count() == old(self).count(),
                self.kinds() == old(self).kinds(),
                self.stores().len() == old(self).stores().len(),
                old(self).wf(),
                forall|j: int|
                    0 <= j < i ==> #[trigger] self.stores()[j] == old(self).stores()[j].remove(
                        entity,
                    ),
                forall|j: int|
                    i <= j < self.stores().len() ==> #[trigger] self.stores()[j] == old(self).stores()[j],
            decreases self.component_stores.len() - i,
        {
            let ghost stores_before = self.stores();
            proof {
                assert(old(self).stores()[i as int].wf());
                assert(self.stores()[i as int] == old(self).stores()[i as int]);
            }
            self.component_stores[i].remove(entity);
            proof {
                assert(self.stores() =~= stores_before.update(
                    i as int,
                    stores_before[i as int].remove(entity),
                ));
            }
            i += 1;
        }
        proof {
            assert forall|i: int| 0 <= i < self.stores().len() implies (
            #[trigger] self.stores()[i]).wf() by {
                assert(old(self).stores()[i].wf());
                lemma_remove_wf(old(self).stores()[i], entity);
            }
            assert forall|i: int, j: int|
                0 <= i < self.stores().len() && 0 <= j < self.stores()[i].components.len() implies (
            #[trigger] self.stores()[i].components[j]).spec_kind() == self.kinds()[i] by {
                let before = old(self).stores()[i];
                assert(before.wf());
                assert(self.stores()[i] == before.remove(entity));
                if before.has(entity) {
                    let last = before.components.len() - 1;
                    assert(before.components[last].spec_kind() == self.kinds()[i]);
                    assert(before.components[j].spec_kind() == self.kinds()[i]);
                }
            }
        }
    }

    /// Gives `entity` the component, in the store of the component's kind,
    /// which is made if the kind is new. An entity that has a component of
    /// the kind keeps it.
    pub fn add_component_to_entity(&mut self, entity: usize, component: Component)
        requires
            old(self).wf(),
        ensures
            final(self).wf(),
            final(self).count() == old(self).count(),
            !old(self).kinds().contains(component.spec_kind()) ==> final(self).kinds() == old(self).kinds().push(component.spec_kind()) && final(self).stores() == old(self).stores().push(
                StoreModel::<Component>::empty().add(entity, component),
            ),
            old(self).kinds().contains(component.spec_kind()) ==> final(self).kinds() == old(self).kinds() && final(self).stores() == ({
                let i = old(self).kinds().index_of(component.spec_kind());
                old(self).stores().update(i, old(self).stores()[i].add(entity, component))
            }),
    {
        let kind = component.kind();
        let ghost added = component;
        match self.find_store(kind) {
            Some(i) => {
                proof {
                    assert(self.stores()[i as int].wf());
                    assert(self.kinds().index_of(kind) == i as int);
                }
                self.component_stores[i].add(entity, component);
                proof {
                    let before = old(self).stores()[i as int];
                    assert(self.stores() =~= old(self).stores().update(
                        i as int,
                        before.add(entity, added),
                    ));
                    assert forall|a: int, b: int|
                        0 <= a < self.stores().len() && 0 <= b
                            < self.stores()[a].components.len() implies (
                    #[trigger] self.stores()[a].components[b]).spec_kind() == self.kinds()[a] by {
                        if a == i as int && b < before.components.len() {
                            assert(before.components[b].spec_kind() == self.kinds()[a]);
                        } else if a != i as int {
                            assert(old(self).stores()[a].components[b].spec_kind()
                                == self.kinds()[a]);
                        }
                    }
                    assert forall|a: int| 0 <= a < self.stores().len() implies (
                    #[trigger] self.stores()[a]).wf() by {
                        assert(old(self).stores()[a].wf());
                    }
                }
            },
            None => {
                // There wasn't an existing place to store this component, create one.
                let mut new_component_store = ComponentStore::<Component>::new();
                new_component_store.add(entity, component);
                self.component_stores.push(new_component_store);
                self.kinds.push(kind);
                proof {
                    let fresh = StoreModel::<Component>::empty().add(entity, added);
                    assert(self.stores() =~= old(self).stores().push(fresh));
                    assert forall|a: int, b: int|
                        0 <= a < self.stores().len() && 0 <= b
                            < self.stores()[a].components.len() implies (
                    #[trigger] self.stores()[a].components[b]).spec_kind() == self.kinds()[a] by {
                        if a < old(self).stores().len() {
                            assert(old(self).stores()[a].components[b].spec_kind()
                                == self.kinds()[a]);
                        }
                    }
                    assert forall|a: int| 0 <= a < self.stores().len() implies (
                    #[trigger] self.stores()[a]).wf() by {
                        if a < old(self).stores().len() {
                            assert(old(self).stores()[a].wf());
                        }
                    }
                    assert(self.kinds().no_duplicates());
                }
            },
        }
    }

    /// Takes the component of `kind` off `entity`. Without a store of the
    /// kind nothing changes.
    pub fn remove_component_from_entity(&mut self, entity: usize, kind: ComponentKind)
        requires
            old(self).wf(),
        ensures
            final(self).wf(),
            final(self).count() == old(self).count(),
            final(self).kinds() == old(self).kinds(),
            !old(self).kinds().contains(kind) ==> final(self).stores() == old(self).stores(),
            old(self).kinds().contains(kind) ==> final(self).stores() == ({
                let i = old(self).kinds().index_of(kind);
                old(self).stores().update(i, old(self).stores()[i].remove(entity))
            }),
    {
        match self.find_store(kind) {
            Some(i) => {
                proof {
                    assert(self.stores()[i as int].wf());
                    assert(self.kinds().index_of(kind) == i as int);
                }
                self.component_stores[i].remove(entity);
                proof {
                    let before = old(self).stores()[i as int];
                    assert(self.stores() =~= old(self).stores().update(
                        i as int,
                        before.remove(entity),
                    ));
                    assert forall|a: int, b: int|
                        0 <= a < self.stores().len() && 0 <= b
                            < self.stores()[a].components.len() implies (
                    #[trigger] self.stores()[a].components[b]).spec_kind() == self.kinds()[a] by {
                        if a == i as int {
                            if before.has(entity) {
                                let last = before.components.len() - 1;
                                assert(before.components[last].spec_kind() == self.kinds()[a]);
                                assert(before.components[b].spec_kind() == self.kinds()[a]);
                            }
                        } else {
                            assert(old(self).stores()[a].components[b].spec_kind()
                                == self.kinds()[a]);
                        }
                    }
                    assert forall|a: int| 0 <= a < self.stores().len() implies (
                    #[trigger] self.stores()[a]).wf() by {
                        assert(old(self).stores()[a].wf());
                    }
                }
            },
            None => {},
        }
    }

    /// The store of `kind`, if the kind was ever used.
    pub fn borrow_components(&self, kind: ComponentKind) -> (store: Option<
        &ComponentStore<Component>,
    >)
        requires
            self.wf(),
        ensures
            store is Some <==> self.kinds().contains(kind),
            store is Some ==> store->0.wf() && store->0.model() == self.stores()[self.kinds().index_of(
                kind,
            )],
    {
        match self.find_store(kind) {
            Some(i) => {
                proof {
                    assert(self.kinds().index_of(kind) == i as int);
                    assert(self.stores()[i as int].wf());
                }
                Some(&self.component_stores[i])
            },
            None => None,
        }
    }

    /// The store of `kind` for writing, if the kind was ever used. What the
    /// caller leaves in it becomes the store of the kind; the manager is
    /// well formed again if that store is, and holds components of the kind
    /// only.
    pub fn borrow_components_mut(&mut self, kind: ComponentKind) -> (store: Option<
        &mut ComponentStore<Component>,
    >)
        requires
            old(self).wf(),
        ensures
            store is Some <==> old(self).kinds().contains(kind),
            final(self).count() == old(self).count(),
            final(self).kinds() == old(self).kinds(),
            match store {
                Some(st) => st.wf() && st.model() == old(self).stores()[old(self).kinds().index_of(
                    kind,
                )] && final(self).stores() == old(self).stores().update(
                    old(self).kinds().index_of(kind),
                    final(st).model(),
                ),
                None => final(self).stores() == old(self).stores(),
            },
    {
        match self.find_store(kind) {
            Some(i) => {
                proof {
                    assert(self.kinds().index_of(kind) == i as int);
                    assert(self.stores()[i as int].wf());
                }
                Some(&mut self.component_stores[i])
            },
            None => None,
        }
    }

    /// Lists the entities that have a component of `kind` into `entities`,
    /// in the order of the store, and tells whether there is any.
    pub fn get_entities_with(&self, kind: ComponentKind, entities: &mut Vec<usize>) -> (any: bool)
        requires
            self.wf(),
        ensures
            any == (final(entities)@.len() > 0),
            self.kinds().contains(kind) ==> final(entities)@ == self.stores()[self.kinds().index_of(
                kind,
            )].entities,
            !self.kinds().contains(kind) ==> final(entities)@ == Seq::<usize>::empty(),
    {
        entities.clear();
        if let Some(store) = self.borrow_components(kind) {
            let found = store.get_entities();
            let mut i: usize = 0;
            while i < found.len()
                invariant
                    i <= found.len(),
                    entities@ == found@.take(i as int),
                decreases found.len() - i,
            {
                entities.push(found[i]);
                proof {
                    assert(entities@ =~= found@.take(i + 1));
                }
                i += 1;
            }
            proof {
                assert(found@.take(found@.len() as int) =~= found@);
            }
        }
        !entities.is_empty()
    }

    /// Lists the entities that have components of both kinds into
    /// `entities`, in the order of the first kind's store, and tells whether
    /// there is any. There is none where either kind was never used.
    pub fn get_entities_with_both(
        &self,
        first: ComponentKind,
        second: ComponentKind,
        entities: &mut Vec<usize>,
    ) -> (any: bool)
        requires
            self.wf(),
        ensures
            any == (final(entities)@.len() > 0),
            self.kinds().contains(first) && self.kinds().contains(second) ==> final(entities)@ == ({
                let a = self.stores()[self.kinds().index_of(first)];
                let b = self.stores()[self.kinds().index_of(second)];
                in_both(a.entities, b.index, a.entities.len() as int)
            }),
            !(self.kinds().contains(first) && self.kinds().contains(second)) ==> final(entities)@
                == Seq::<usize>::empty(),
    {
        entities.clear();
        let first_store = self.borrow_components(first);
        let second_store = self.borrow_components(second);
        if first_store.is_none() || second_store.is_none() {
            return false;
        }
        let first_store = first_store.unwrap();
        let second_store = second_store.unwrap();
        let found = first_store.get_entities();
        let mut i: usize = 0;
        while i < found.len()
            invariant
                i <= found.len(),
                found@ == first_store.model().entities,
                entities@ == in_both(found@, second_store.model().index, i as int),
            decreases found.len() - i,
        {
            proof {
                reveal_with_fuel(in_both, 2);
            }
            if second_store.has(found[i]) {
                entities.push(found[i]);
            }
            i += 1;
        }
        !entities.is_empty()
    }
}

} // verus!
