//! The sparse-set component store: two dense arrays that run in parallel and a
//! map from entity to its slot in them.

use std::collections::HashMap;
use vstd::prelude::*;

verus! {

broadcast use vstd::std_specs::hash::group_hash_axioms;

/// What a store holds, as mathematics: the dense entity ids, the dense
/// components beside them, and the slot of each present id.
pub struct StoreModel<T> {
    pub entities: Seq<usize>,
    pub components: Seq<T>,
    pub index: Map<usize, usize>,
}

impl<T> StoreModel<T> {
    /// The store with nothing in it.
    pub open spec fn empty() -> Self {
        StoreModel { entities: Seq::empty(), components: Seq::empty(), index: Map::empty() }
    }

    /// The sparse-set invariant: the two dense arrays are equally long, the
    /// slot of every present id holds that id, every slot belongs to a present
    /// id, and there are as many present ids as slots. A slot number fits the
    /// machine word.
    pub open spec fn wf(self) -> bool {
        &&& self.components.len() == self.entities.len()
        &&& self.entities.len() <= usize::MAX
        &&& self.index.dom().finite()
        &&& self.index.dom().len() == self.entities.len()
        &&& forall|id: usize| #[trigger]
            self.index.contains_key(id) ==> self.index[id] < self.entities.len()
                && self.entities[self.index[id] as int] == id
        &&& forall|i: int|
            0 <= i < self.entities.len() ==> self.index.contains_key(#[trigger] self.entities[i])
                && self.index[self.entities[i]] == i
    }

    /// Whether `entity` has a component here.
    pub open spec fn has(self, entity: usize) -> bool {
        self.index.contains_key(entity)
    }

    /// The component of each present entity.
    pub open spec fn as_map(self) -> Map<usize, T> {
        Map::new(
            |id: usize| self.index.contains_key(id),
            |id: usize| self.components[self.index[id] as int],
        )
    }

    /// Adding: nothing changes where the entity is present, else entity and
    /// component go to the end of the dense arrays.
    pub open spec fn add(self, entity: usize, component: T) -> Self {
        if self.has(entity) {
            self
        } else {
            StoreModel {
                entities: self.entities.push(entity),
                components: self.components.push(component),
                index: self.index.insert(entity, self.entities.len() as usize),
            }
        }
    }

    /// Removing: nothing changes where the entity is absent, else the last
    /// slot moves into the freed one and the arrays lose their last slot.
    pub open spec fn remove(self, entity: usize) -> Self {
        if !self.has(entity) {
            self
        } else {
            let slot = self.index[entity] as int;
            let last = self.entities.len() - 1;
            StoreModel {
                entities: self.entities.update(slot, self.entities[last]).drop_last(),
                components: self.components.update(slot, self.components[last]).drop_last(),
                index: self.index.insert(self.entities[last], slot as usize).remove(entity),
            }
        }
    }
}

/// The empty store is well formed.
pub proof fn lemma_empty_wf<T>()
    ensures
        StoreModel::<T>::empty().wf(),
        StoreModel::<T>::empty().as_map() =~= Map::<usize, T>::empty(),
{
}

/// Adding keeps the sparse-set invariant, and gives the entity the component
/// unless it had one.
pub proof fn lemma_add_wf<T>(m: StoreModel<T>, entity: usize, component: T)
    requires
        m.wf(),
        m.entities.len() < usize::MAX,
    ensures
        m.add(entity, component).wf(),
        m.has(entity) ==> m.add(entity, component) == m,
        !m.has(entity) ==> m.add(entity, component).as_map() =~= m.as_map().insert(
            entity,
            component,
        ),
        m.add(entity, component).has(entity),
{
    if !m.has(entity) {
        let n = m.add(entity, component);
        assert forall|i: int| 0 <= i < n.entities.len() implies n.index.contains_key(
            #[trigger] n.entities[i],
        ) && n.index[n.entities[i]] == i by {
            if i < m.entities.len() {
                assert(m.index.contains_key(m.entities[i]));
            }
        }
    }
}

/// Removing keeps the sparse-set invariant, and takes exactly that entity
/// out: every other entity keeps its component.
pub proof fn lemma_remove_wf<T>(m: StoreModel<T>, entity: usize)
    requires
        m.wf(),
    ensures
        m.remove(entity).wf(),
        !m.has(entity) ==> m.remove(entity) == m,
        m.remove(entity).as_map() =~= m.as_map().remove(entity),
        !m.remove(entity).has(entity),
{
    if m.has(entity) {
        let n = m.remove(entity);
        let slot = m.index[entity] as int;
        let last = m.entities.len() - 1;
        let moved = m.entities[last];
        assert(m.index.contains_key(moved) && m.index[moved] == last);
        assert forall|id: usize| #[trigger] n.index.contains_key(id) implies n.index[id]
            < n.entities.len() && n.entities[n.index[id] as int] == id by {
            if id != moved {
                assert(m.index.contains_key(id));
                assert(m.index[id] != last);
            }
        }
        assert forall|i: int| 0 <= i < n.entities.len() implies n.index.contains_key(
            #[trigger] n.entities[i],
        ) && n.index[n.entities[i]] == i by {
            if i != slot {
                assert(m.index.contains_key(m.entities[i]));
                assert(m.entities[i] != entity);
            }
        }
        assert(n.index.dom() =~= m.index.dom().remove(entity)) by {
            assert(m.index.dom().contains(moved));
        }
        assert forall|id: usize| n.as_map().contains_key(id) implies #[trigger] n.as_map()[id]
            == m.as_map().remove(entity)[id] by {
            if id != moved {
                assert(m.index.contains_key(id));
                assert(m.index[id] != last);
            }
        }
    } else {
        assert(m.as_map().remove(entity) =~= m.as_map());
    }
}

/// Adding the same entity a second time changes nothing, whatever the second
/// component is: the first one stays.
pub proof fn lemma_add_idempotent<T>(m: StoreModel<T>, entity: usize, first: T, second: T)
    requires
        m.wf(),
        m.add(entity, first).wf(),
    ensures
        m.add(entity, first).add(entity, second) == m.add(entity, first),
        m.add(entity, first).add(entity, second).entities.len() == m.add(
            entity,
            first,
        ).entities.len(),
        !m.has(entity) ==> m.add(entity, first).add(entity, second).as_map()[entity] == first,
{
}

/// A component of type `T` for each of a set of entities.
pub struct ComponentStore<T> {
    components: Vec<T>,
    entities: Vec<usize>,
    entity_map: HashMap<usize, usize>,
}

impl<T> ComponentStore<T> {
    /// The mathematical content of the store.
    pub closed spec fn model(&self) -> StoreModel<T> {
        StoreModel {
            entities: self.entities@,
            components: self.components@,
            index: self.entity_map@,
        }
    }

    /// The sparse-set invariant, on this store.
    pub open spec fn wf(&self) -> bool {
        self.model().wf()
    }

    /// The component of each present entity.
    pub open spec fn view(&self) -> Map<usize, T> {
        self.model().as_map()
    }

    /// An empty store.
    pub fn new() -> (store: Self)
        ensures
            store.model() == StoreModel::<T>::empty(),
            store.wf(),
    {
        let store = Self { components: Vec::new(), entities: Vec::new(), entity_map: HashMap::new() };
        proof {
            assert(store.model().index =~= Map::<usize, usize>::empty());
            assert(store.model().entities =~= Seq::<usize>::empty());
            assert(store.model().components =~= Seq::<T>::empty());
        }
        store
    }

    /// Gives `entity` the component, unless it has one already: the first
    /// component given stays.
    pub fn add(&mut self, entity: usize, component: T)
        requires
            old(self).wf(),
        ensures
            final(self).model() == old(self).model().add(entity, component),
            final(self).wf(),
    {
        if self.has(entity) {
            return ;
        }
        let ghost added = component;
        self.components.push(component);
        self.entities.push(entity);
        self.entity_map.insert(entity, self.components.len() - 1);
        proof {
            lemma_add_wf(old(self).model(), entity, added);
        }
    }

    /// Takes `entity` and its component out, if it is there. The last slot of
    /// the dense arrays moves into the freed slot.
    pub fn remove(&mut self, entity: usize)
        requires
            old(self).wf(),
        ensures
            final(self).model() == old(self).model().remove(entity),
            final(self).wf(),
    {
        if !self.has(entity) {
            return ;
        }
        proof {
            lemma_remove_wf(self.model(), entity);
        }
        let index = *self.entity_map.get(&entity).unwrap();
        let moved = self.entities[self.entities.len() - 1];
        self.entity_map.insert(moved, index);
        self.components.swap_remove(index);
        self.entities.swap_remove(index);
        self.entity_map.remove(&entity);
        proof {
            let goal = old(self).model().remove(entity);
            assert(self.model().entities =~= goal.entities);
            assert(self.model().components =~= goal.components);
            assert(self.model().index =~= goal.index);
        }
    }

    /// Whether `entity` has a component here.
    pub fn has(&self, entity: usize) -> (present: bool)
        ensures
            present == self.model().has(entity),
    {
        self.entity_map.contains_key(&entity)
    }

    /// The component of `entity`, if it has one.
    pub fn get(&self, entity: usize) -> (component: Option<&T>)
        requires
            self.wf(),
        ensures
            component is Some <==> self.model().has(entity),
            component is Some ==> *component->0 == self@[entity],
    {
        let index = match self.entity_map.get(&entity) {
            Some(i) => *i,
            None => return None,
        };
        Some(&self.components[index])
    }

    /// All components, in slot order.
    pub fn get_all(&self) -> (components: &Vec<T>)
        ensures
            components@ == self.model().components,
    {
        &self.components
    }

    /// The component of `entity`, if it has one, for writing. Whatever is
    /// written lands in that entity's slot and nowhere else.
    pub fn get_mut(&mut self, entity: usize) -> (component: Option<&mut T>)
        requires
            old(self).wf(),
        ensures
            component is Some <==> old(self).model().has(entity),
            match component {
                Some(c) => *c == old(self)@[entity] && final(self).model() == (StoreModel {
                    components: old(self).model().components.update(
                        old(self).model().index[entity] as int,
                        *final(c),
                    ),
                    ..old(self).model()
                }),
                None => final(self).model() == old(self).model(),
            },
    {
        let index = match self.entity_map.get(&entity) {
            Some(i) => *i,
            None => return None,
        };
        Some(&mut self.components[index])
    }

    /// All components for writing, in slot order. The entities and their
    /// slots stay; the store is well formed again once as many components
    /// stand there as before.
    pub fn get_all_mut(&mut self) -> (components: &mut Vec<T>)
        ensures
            components@ == old(self).model().components,
            final(self).model() == (StoreModel {
                components: final(components)@,
                ..old(self).model()
            }),
    {
        &mut self.components
    }

    /// All present entities, in slot order: the order in which they were
    /// added, but for the moves that removals made.
    pub fn get_entities(&self) -> (entities: &Vec<usize>)
        ensures
            entities@ == self.model().entities,
    {
        &self.entities
    }

    /// How many entities are present.
    pub fn len(&self) -> (n: usize)
        ensures
            n == self.model().entities.len(),
    {
        self.entities.len()
    }
}

} // verus!
