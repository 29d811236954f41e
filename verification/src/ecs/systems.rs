//! The world of entities as the systems see it, the flush of the removal
//! queue, and the systems whose rules are on whole numbers.

use crate::chunk::Chunk;
use crate::ecs::actor::moved_columns;
use std::collections::HashSet;
use vstd::std_specs::iter::IteratorSpec;
use crate::ecs::components::{Component, ComponentKind};
use crate::ecs::manager::{CommandQueue, EntityManager};
use crate::ecs::store::{lemma_remove_wf, StoreModel};
use vstd::prelude::*;

verus! {

broadcast use vstd::std_specs::hash::group_hash_axioms;

/// What every system works on: the components, the queue of removals, and a
/// buffer for query results that is reused from tick to tick.
pub struct Ecs {
    pub manager: EntityManager,
    pub queue: CommandQueue,
    pub entity_cache: Vec<usize>,
}

/// The column sets after the first `n` entities of `queue` that have a body
/// in `actors` have left the columns under it.
pub open spec fn flushed_columns(
    columns: Seq<Set<usize>>,
    actors: StoreModel<Component>,
    queue: Seq<usize>,
    n: int,
) -> Seq<Set<usize>>
    decreases n,
{
    if n <= 0 {
        columns
    } else {
        let before = flushed_columns(columns, actors, queue, n - 1);
        let entity = queue[n - 1];
        if actors.has(entity) {
            match actors.as_map()[entity] {
                Component::Actor(actor) => moved_columns(
                    before,
                    entity,
                    actor.spec_footprint(),
                    None,
                ),
                _ => before,
            }
        } else {
            before
        }
    }
}

/// A store after the first `n` entities of `queue` were taken out of it.
pub open spec fn flushed_store(store: StoreModel<Component>, queue: Seq<usize>, n: int) -> StoreModel<
    Component,
>
    decreases n,
{
    if n <= 0 {
        store
    } else {
        flushed_store(store, queue, n - 1).remove(queue[n - 1])
    }
}

/// A flushed store holds no queued entity, and every other entity of the
/// store with its component as before.
pub proof fn lemma_flush_removes_queued(store: StoreModel<Component>, queue: Seq<usize>, n: int)
    requires
        store.wf(),
        0 <= n <= queue.len(),
    ensures
        flushed_store(store, queue, n).wf(),
        forall|e: usize|
            #![trigger flushed_store(store, queue, n).has(e)]
            flushed_store(store, queue, n).has(e) <==> store.has(e) && !queue.take(n).contains(e),
        forall|e: usize|
            flushed_store(store, queue, n).has(e) ==> #[trigger] flushed_store(
                store,
                queue,
                n,
            ).as_map()[e] == store.as_map()[e],
    decreases n,
{
    if n > 0 {
        lemma_flush_removes_queued(store, queue, n - 1);
        let before = flushed_store(store, queue, n - 1);
        lemma_remove_wf(before, queue[n - 1]);
        let after = flushed_store(store, queue, n);
        assert(after == before.remove(queue[n - 1]));
        assert(after.as_map() =~= before.as_map().remove(queue[n - 1]));
        assert forall|e: usize|
            #![trigger after.has(e)]
            after.has(e) <==> store.has(e) && !queue.take(n).contains(e) by {
            assert(after.has(e) <==> after.as_map().contains_key(e));
            assert(before.has(e) <==> before.as_map().contains_key(e));
            let now = queue.take(n);
            let earlier = queue.take(n - 1);
            if now.contains(e) {
                let k = choose|k: int| 0 <= k < now.len() && now[k] == e;
                if k < n - 1 {
                    assert(earlier[k] == e);
                }
            }
            if earlier.contains(e) {
                let k = choose|k: int| 0 <= k < earlier.len() && earlier[k] == e;
                assert(now[k] == e);
            }
            if e == queue[n - 1] {
                assert(now[n - 1] == e);
            }
        }
        assert forall|e: usize| after.has(e) implies #[trigger] after.as_map()[e]
            == store.as_map()[e] by {
            assert(after.as_map().contains_key(e));
            assert(before.has(e));
        }
    } else {
        assert(queue.take(0).len() == 0);
    }
}

/// The entities among the first `n` of `store` whose health is used up, in
/// the order of the store.
pub open spec fn used_up(store: StoreModel<Component>, n: int) -> Seq<usize>
    decreases n,
{
    if n <= 0 {
        Seq::empty()
    } else {
        let before = used_up(store, n - 1);
        match store.components[n - 1] {
            Component::Health(health) => if health.spec_amount() <= 0 {
                before.push(store.entities[n - 1])
            } else {
                before
            },
            _ => before,
        }
    }
}

impl Ecs {
    /// A world without entities.
    pub fn new() -> (ecs: Self)
        ensures
            ecs.manager.wf(),
            ecs.manager.count() == 0,
            ecs.manager.kinds() == Seq::<ComponentKind>::empty(),
            ecs.queue@ == Seq::<usize>::empty(),
            ecs.entity_cache@ == Seq::<usize>::empty(),
    {
        Self { manager: EntityManager::new(), queue: CommandQueue::new(), entity_cache: Vec::new() }
    }

    /// Carries out the queued removals: each queued entity that has a body
    /// leaves the columns under it, then every queued entity loses all its
    /// components, and the queue is emptied.
    pub fn flush_queue(&mut self, chunk: &mut Chunk)
        requires
            old(self).manager.wf(),
            old(chunk).wf(),
        ensures
            final(self).manager.wf(),
            final(chunk).wf(),
            final(chunk).blocks() == old(chunk).blocks(),
            final(chunk).dirty() == old(chunk).dirty(),
            final(self).entity_cache@ == old(self).entity_cache@,
            final(self).manager.count() == old(self).manager.count(),
            final(self).manager.kinds() == old(self).manager.kinds(),
            final(self).queue@ == Seq::<usize>::empty(),
            final(self).manager.stores().len() == old(self).manager.stores().len(),
            forall|i: int|
                0 <= i < old(self).manager.stores().len() ==> #[trigger] final(self).manager.stores()[i]
                    == flushed_store(
                    old(self).manager.stores()[i],
                    old(self).queue@,
                    old(self).queue@.len() as int,
                ),
            !old(self).manager.kinds().contains(ComponentKind::Actor) ==> final(chunk).columns()
                == old(chunk).columns(),
            old(self).manager.kinds().contains(ComponentKind::Actor) ==> final(chunk).columns()
                == flushed_columns(
                old(chunk).columns(),
                old(self).manager.stores()[old(self).manager.kinds().index_of(ComponentKind::Actor)],
                old(self).queue@,
                old(self).queue@.len() as int,
            ),
    {
        if let Some(actors) = self.manager.borrow_components(ComponentKind::Actor) {
            let queued = self.queue.entities_to_remove();
            let mut i: usize = 0;
            while i < queued.len()
                invariant
                    i <= queued.len(),
                    queued@ == old(self).queue@,
                    actors.wf(),
                    chunk.wf(),
                    chunk.blocks() == old(chunk).blocks(),
                    chunk.dirty() == old(chunk).dirty(),
                    chunk.columns() == flushed_columns(
                        old(chunk).columns(),
                        actors.model(),
                        queued@,
                        i as int,
                    ),
                decreases queued.len() - i,
            {
                proof {
                    reveal_with_fuel(flushed_columns, 2);
                }
                let entity = queued[i];
                // An entity without a body is registered over no column.
                match actors.get(entity) {
                    Some(Component::Actor(actor)) => {
                        actor.update_occupied_blocks(entity, chunk, None);
                    },
                    _ => {},
                }
                i += 1;
            }
        }
        let mut k: usize = 0;
        while k < self.queue.entities_to_remove().len()
            invariant
                k <= self.queue@.len(),
                self.queue@ == old(self).queue@,
                self.entity_cache@ == old(self).entity_cache@,
                self.manager.wf(),
                self.manager.count() == old(self).manager.count(),
                self.manager.kinds() == old(self).manager.kinds(),
                self.manager.stores().len() == old(self).manager.stores().len(),
                forall|j: int|
                    0 <= j < old(self).manager.stores().len() ==> #[trigger] self.manager.stores()[j]
                        == flushed_store(old(self).manager.stores()[j], old(self).queue@, k as int),
            decreases self.queue@.len() - k,
        {
            let entity = self.queue.entities_to_remove()[k];
            let ghost before = self.manager.stores();
            self.manager.remove_entity(entity);
            proof {
                assert forall|j: int| 0 <= j < old(self).manager.stores().len() implies (
                #[trigger] self.manager.stores()[j]) == flushed_store(
                    old(self).manager.stores()[j],
                    old(self).queue@,
                    k + 1,
                ) by {
                    assert(self.manager.stores()[j] == before[j].remove(entity));
                    reveal_with_fuel(flushed_store, 2);
                }
            }
            k += 1;
        }
        self.queue.clear();
    }
}

/// What a check of everyone's health does to the world: the manager stays
/// as it is, the entities that have health stand in the query buffer, and
/// those of them whose health is zero or less were added to the queue, in
/// the order of the health store.
pub open spec fn health_checked(before: &Ecs, after: &Ecs) -> bool {
    &&& after.manager.count() == before.manager.count()
    &&& after.manager.kinds() == before.manager.kinds()
    &&& after.manager.stores() == before.manager.stores()
    &&& !before.manager.kinds().contains(ComponentKind::Health) ==> {
        &&& after.entity_cache@ == Seq::<usize>::empty()
        &&& after.queue@ == before.queue@
    }
    &&& before.manager.kinds().contains(ComponentKind::Health) ==> ({
        let store = before.manager.stores()[before.manager.kinds().index_of(ComponentKind::Health)];
        &&& after.entity_cache@ == store.entities
        &&& after.queue@ == before.queue@.add(used_up(store, store.entities.len() as int))
    })
}

/// Queues the entities whose health is used up.
pub struct HealthSystem {}

impl HealthSystem {
    /// Asks for the removal of every entity whose health is zero or less, in
    /// the order of the health store. The entities that have health are left
    /// in the query buffer.
    pub fn queue_dead(&mut self, ecs: &mut Ecs)
        requires
            old(ecs).manager.wf(),
        ensures
            final(ecs).manager.wf(),
            health_checked(old(ecs), final(ecs)),
    {
        if !ecs.manager.get_entities_with(ComponentKind::Health, &mut ecs.entity_cache) {
            proof {
                if ecs.manager.kinds().contains(ComponentKind::Health) {
                    let store = ecs.manager.stores()[ecs.manager.kinds().index_of(
                        ComponentKind::Health,
                    )];
                    assert(ecs.entity_cache@ =~= store.entities);
                    assert(used_up(store, 0) =~= Seq::<usize>::empty());
                    assert(ecs.queue@.add(Seq::<usize>::empty()) =~= ecs.queue@);
                }
            }
            return ;
        }
        let healths = match ecs.manager.borrow_components(ComponentKind::Health) {
            Some(h) => h,
            None => return ,
        };
        let all = healths.get_all();
        let mut i: usize = 0;
        while i < ecs.entity_cache.len()
            invariant
                i <= ecs.entity_cache@.len(),
                ecs.manager.wf(),
                ecs.manager.count() == old(ecs).manager.count(),
                ecs.manager.kinds() == old(ecs).manager.kinds(),
                ecs.manager.stores() == old(ecs).manager.stores(),
                ecs.manager.kinds().contains(ComponentKind::Health),
                healths.model() == ecs.manager.stores()[ecs.manager.kinds().index_of(
                    ComponentKind::Health,
                )],
                healths.wf(),
                all@ == healths.model().components,
                ecs.entity_cache@ == healths.model().entities,
                ecs.queue@ == old(ecs).queue@.add(used_up(healths.model(), i as int)),
            decreases ecs.entity_cache@.len() - i,
        {
            proof {
                reveal_with_fuel(used_up, 2);
            }
            let entity = ecs.entity_cache[i];
            match &all[i] {
                Component::Health(health) => {
                    if health.amount() <= 0 {
                        ecs.queue.remove_entity(entity);
                    }
                },
                _ => {},
            }
            proof {
                assert(ecs.queue@ =~= old(ecs).queue@.add(used_up(healths.model(), i + 1)));
            }
            i += 1;
        }
    }
}

/// The body of `entity`, if it has one.
pub open spec fn body_of(manager: &EntityManager, entity: usize) -> Option<
    crate::ecs::actor::Actor,
> {
    if manager.has(entity, ComponentKind::Actor) {
        match manager.stores()[manager.kinds().index_of(ComponentKind::Actor)].as_map()[entity] {
            Component::Actor(actor) => Some(actor),
            _ => None,
        }
    } else {
        None
    }
}

/// The items that `entity` carries, if it has an inventory.
pub open spec fn inventory_of(manager: &EntityManager, entity: usize) -> Option<Seq<char>> {
    if manager.has(entity, ComponentKind::Inventory) {
        match manager.stores()[manager.kinds().index_of(ComponentKind::Inventory)].as_map()[entity] {
            Component::Inventory(inventory) => Some(inventory@),
            _ => None,
        }
    } else {
        None
    }
}

/// The health of `entity`, if it has any.
pub open spec fn health_of(manager: &EntityManager, entity: usize) -> Option<int> {
    if manager.has(entity, ComponentKind::Health) {
        match manager.stores()[manager.kinds().index_of(ComponentKind::Health)].as_map()[entity] {
            Component::Health(health) => Some(health.spec_amount() as int),
            _ => None,
        }
    } else {
        None
    }
}

/// Whether `other` is something that `entity` can act on: another entity,
/// with a body and with a component of `kind`.
pub open spec fn is_candidate(
    manager: &EntityManager,
    entity: usize,
    other: usize,
    kind: ComponentKind,
) -> bool {
    other != entity && manager.has(other, kind) && manager.has(other, ComponentKind::Actor)
}

/// Picks from `nearby` the entities that `entity` can act on: every other
/// entity that has a body and a component of `kind`, each once.
pub fn nearby_with(
    manager: &EntityManager,
    entity: usize,
    nearby: &HashSet<usize>,
    kind: ComponentKind,
) -> (found: Vec<usize>)
    requires
        manager.wf(),
    ensures
        found@.no_duplicates(),
        forall|e: usize|
            found@.contains(e) <==> nearby@.contains(e) && is_candidate(manager, entity, e, kind),
{
    let mut found: Vec<usize> = Vec::new();
    let wanted = match manager.borrow_components(kind) {
        Some(w) => w,
        None => {
            return found;
        },
    };
    let actors = match manager.borrow_components(ComponentKind::Actor) {
        Some(a) => a,
        None => {
            return found;
        },
    };
    let ghost all = nearby.iter().remaining().unref();
    let ghost mut done: int = 0;
    for e in iter: nearby.iter()
        invariant
            all.to_set() == nearby@,
            all.no_duplicates(),
            iter.seq().unref() == all,
            done == iter.index(),
            manager.wf(),
            manager.kinds().contains(kind),
            manager.kinds().contains(ComponentKind::Actor),
            wanted.model() == manager.stores()[manager.kinds().index_of(kind)],
            actors.model() == manager.stores()[manager.kinds().index_of(ComponentKind::Actor)],
            found@.no_duplicates(),
            forall|x: usize|
                found@.contains(x) <==> is_candidate(manager, entity, x, kind) && exists|k: int|
                    0 <= k < done && #[trigger] all[k] == x,
    {
        let ghost before = found@;
        proof {
            assert(all[done] == *e);
        }
        if *e != entity && wanted.has(*e) && actors.has(*e) {
            proof {
                if before.contains(*e) {
                    let k = choose|k: int| 0 <= k < done && #[trigger] all[k] == *e;
                    assert(all[k] == all[done]);
                }
            }
            found.push(*e);
            proof {
                assert(found@ == before.push(*e));
                assert forall|x: usize| found@.contains(x) <==> before.contains(x) || x == *e by {
                    if before.contains(x) {
                        let i = choose|i: int| 0 <= i < before.len() && before[i] == x;
                        assert(found@[i] == x);
                    }
                    if x == *e {
                        assert(found@[before.len() as int] == x);
                    }
                }
            }
        }
        proof {
            assert(is_candidate(manager, entity, *e, kind) <==> (*e != entity && wanted.model().has(
                *e,
            ) && actors.model().has(*e)));
            assert forall|x: usize|
                found@.contains(x) <==> is_candidate(manager, entity, x, kind) && exists|k: int|
                    0 <= k < done + 1 && #[trigger] all[k] == x by {
                if found@.contains(x) {
                    if before.contains(x) {
                        let k = choose|k: int| 0 <= k < done && #[trigger] all[k] == x;
                        assert(0 <= k < done + 1 && all[k] == x);
                    } else {
                        assert(x == *e);
                        assert(0 <= done < done + 1 && all[done] == x);
                    }
                }
                if is_candidate(manager, entity, x, kind) && exists|k: int|
                    0 <= k < done + 1 && #[trigger] all[k] == x {
                    let k = choose|k: int| 0 <= k < done + 1 && #[trigger] all[k] == x;
                    if k < done {
                        assert(before.contains(x));
                    } else {
                        assert(x == *e);
                    }
                }
            }
            done = done + 1;
        }
    }
    proof {
        assert forall|x: usize|
            found@.contains(x) <==> nearby@.contains(x) && is_candidate(
                manager,
                entity,
                x,
                kind,
            ) by {
            if nearby@.contains(x) {
                assert(all.to_set().contains(x));
                assert(all.contains(x));
            }
            if exists|k: int| 0 <= k < done && #[trigger] all[k] == x {
                assert(all.contains(x));
            }
        }
    }
    found
}

/// What a look round the body of `entity` finds. With a body, `after` holds
/// the entities over the columns under its corners, and `found` lists, each
/// once, those of them that `entity` can act on. Without a body the buffer
/// stays as it was and nothing is found.
pub open spec fn looked_round(
    before: Set<usize>,
    after: Set<usize>,
    ecs: &Ecs,
    chunk: &Chunk,
    entity: usize,
    kind: ComponentKind,
    found: Seq<usize>,
) -> bool {
    match body_of(&ecs.manager, entity) {
        Some(actor) => {
            &&& forall|e: usize|
                after.contains(e) <==> exists|x: int, z: int|
                    actor.spec_footprint().covers(x, z) && #[trigger] chunk.occupants(x, z).contains(
                        e,
                    )
            &&& found.no_duplicates()
            &&& forall|e: usize|
                found.contains(e) <==> after.contains(e) && is_candidate(
                    &ecs.manager,
                    entity,
                    e,
                    kind,
                )
        },
        None => after == before && found == Seq::<usize>::empty(),
    }
}

/// Looks round the body of `entity` for entities with a component of `kind`.
fn look_round(
    buffer: &mut HashSet<usize>,
    ecs: &Ecs,
    chunk: &Chunk,
    entity: usize,
    kind: ComponentKind,
) -> (found: Vec<usize>)
    requires
        ecs.manager.wf(),
        chunk.wf(),
    ensures
        looked_round(old(buffer)@, final(buffer)@, ecs, chunk, entity, kind, found@),
{
    let actors = match ecs.manager.borrow_components(ComponentKind::Actor) {
        Some(a) => a,
        None => {
            return Vec::new();
        },
    };
    match actors.get(entity) {
        Some(Component::Actor(actor)) => {
            actor.get_nearby_entities(chunk, buffer);
            nearby_with(&ecs.manager, entity, buffer, kind)
        },
        _ => Vec::new(),
    }
}

/// Lets those who fight find and hurt each other.
pub struct FighterSystem {
    nearby_entities: HashSet<usize>,
}

impl FighterSystem {
    /// A system that has not looked round yet.
    pub fn new() -> (system: Self)
        ensures
            system.nearby() == Set::<usize>::empty(),
    {
        Self { nearby_entities: HashSet::new() }
    }

    /// The entities found near the fighter by the last look round.
    pub closed spec fn nearby(&self) -> Set<usize> {
        self.nearby_entities@
    }

    /// Looks round the body of `entity` and lists what it could hit: every
    /// other entity over one of the columns under its corners that has
    /// health and a body. An entity without a body finds nothing.
    pub fn targets_near(&mut self, ecs: &Ecs, chunk: &Chunk, entity: usize) -> (found: Vec<usize>)
        requires
            ecs.manager.wf(),
            chunk.wf(),
        ensures
            looked_round(
                old(self).nearby(),
                final(self).nearby(),
                ecs,
                chunk,
                entity,
                ComponentKind::Health,
                found@,
            ),
    {
        look_round(&mut self.nearby_entities, ecs, chunk, entity, ComponentKind::Health)
    }

    /// Takes `damage` off the health of `target`, where it has any and the
    /// result fits the machine integer. Nothing else changes.
    pub fn strike(&mut self, ecs: &mut Ecs, target: usize, damage: i32) -> (struck: bool)
        requires
            old(ecs).manager.wf(),
        ensures
            final(ecs).manager.wf(),
            final(ecs).manager.count() == old(ecs).manager.count(),
            final(ecs).manager.kinds() == old(ecs).manager.kinds(),
            final(ecs).entity_cache@ == old(ecs).entity_cache@,
            final(ecs).queue@ == old(ecs).queue@,
            struck == (health_of(&old(ecs).manager, target) matches Some(h) && i32::MIN <= h
                - damage <= i32::MAX),
            !struck ==> final(ecs).manager.stores() == old(ecs).manager.stores(),
            struck ==> ({
                let at = old(ecs).manager.kinds().index_of(ComponentKind::Health);
                let store = old(ecs).manager.stores()[at];
                let slot = store.index[target] as int;
                &&& final(ecs).manager.stores().len() == old(ecs).manager.stores().len()
                &&& forall|i: int|
                    0 <= i < old(ecs).manager.stores().len() && i != at
                        ==> #[trigger] final(ecs).manager.stores()[i] == old(ecs).manager.stores()[i]
                &&& final(ecs).manager.stores()[at].entities == store.entities
                &&& final(ecs).manager.stores()[at].index == store.index
                &&& final(ecs).manager.stores()[at].components.len() == store.components.len()
                &&& forall|j: int|
                    0 <= j < store.components.len() && j != slot
                        ==> #[trigger] final(ecs).manager.stores()[at].components[j]
                        == store.components[j]
                &&& health_of(&final(ecs).manager, target) == Some(
                    health_of(&old(ecs).manager, target)->0 - damage,
                )
            }),
    {
        let fits = match ecs.manager.borrow_components(ComponentKind::Health) {
            Some(healths) => match healths.get(target) {
                Some(Component::Health(health)) => {
                    let amount = health.amount();
                    (damage >= 0 && amount >= i32::MIN + damage) || (damage < 0 && amount
                        <= i32::MAX + damage)
                },
                _ => false,
            },
            None => false,
        };
        if !fits {
            return false;
        }
        match ecs.manager.borrow_components_mut(ComponentKind::Health) {
            Some(healths) => {
                match healths.get_mut(target) {
                    Some(Component::Health(health)) => {
                        health.take_damage(damage);
                    },
                    _ => {},
                }
            },
            None => {},
        }
        true
    }
}

/// Puts what lies about into the inventories of those who touch it.
pub struct InventorySystem {
    nearby_entities: HashSet<usize>,
}

impl InventorySystem {
    /// A system that has not looked round yet.
    pub fn new() -> (system: Self)
        ensures
            system.nearby() == Set::<usize>::empty(),
    {
        Self { nearby_entities: HashSet::new() }
    }

    /// The entities found near the collector by the last look round.
    pub closed spec fn nearby(&self) -> Set<usize> {
        self.nearby_entities@
    }

    /// Looks round the body of `entity` and lists the items near it: every
    /// other entity over one of the columns under its corners that is an
    /// item and has a body. An entity without a body finds nothing.
    pub fn items_near(&mut self, ecs: &Ecs, chunk: &Chunk, entity: usize) -> (found: Vec<usize>)
        requires
            ecs.manager.wf(),
            chunk.wf(),
        ensures
            looked_round(
                old(self).nearby(),
                final(self).nearby(),
                ecs,
                chunk,
                entity,
                ComponentKind::Item,
                found@,
            ),
    {
        look_round(&mut self.nearby_entities, ecs, chunk, entity, ComponentKind::Item)
    }

    /// `entity` picks `item` up: its inventory gains a token and the item is
    /// queued for removal. An entity without an inventory picks nothing up.
    pub fn pick_up(&mut self, ecs: &mut Ecs, entity: usize, item: usize) -> (picked: bool)
        requires
            old(ecs).manager.wf(),
        ensures
            final(ecs).manager.wf(),
            final(ecs).manager.count() == old(ecs).manager.count(),
            final(ecs).manager.kinds() == old(ecs).manager.kinds(),
            final(ecs).entity_cache@ == old(ecs).entity_cache@,
            picked == (inventory_of(&old(ecs).manager, entity) is Some),
            !picked ==> final(ecs).queue@ == old(ecs).queue@ && final(ecs).manager.stores() == old(ecs).manager.stores(),
            picked ==> final(ecs).queue@ == old(ecs).queue@.push(item),
            picked ==> ({
                let at = old(ecs).manager.kinds().index_of(ComponentKind::Inventory);
                let store = old(ecs).manager.stores()[at];
                let slot = store.index[entity] as int;
                &&& final(ecs).manager.stores().len() == old(ecs).manager.stores().len()
                &&& forall|i: int|
                    0 <= i < old(ecs).manager.stores().len() && i != at
                        ==> #[trigger] final(ecs).manager.stores()[i] == old(ecs).manager.stores()[i]
                &&& final(ecs).manager.stores()[at].entities == store.entities
                &&& final(ecs).manager.stores()[at].index == store.index
                &&& final(ecs).manager.stores()[at].components.len() == store.components.len()
                &&& forall|j: int|
                    0 <= j < store.components.len() && j != slot
                        ==> #[trigger] final(ecs).manager.stores()[at].components[j]
                        == store.components[j]
                &&& inventory_of(&final(ecs).manager, entity) == Some(
                    inventory_of(&old(ecs).manager, entity)->0.push(
                        crate::ecs::components::item_token(
                            inventory_of(&old(ecs).manager, entity)->0.len() as int,
                        ),
                    ),
                )
            }),
    {
        let mut picked = false;
        match ecs.manager.borrow_components_mut(ComponentKind::Inventory) {
            Some(inventories) => {
                match inventories.get_mut(entity) {
                    Some(Component::Inventory(inventory)) => {
                        inventory.add_item();
                        picked = true;
                    },
                    _ => {},
                }
            },
            None => {},
        }
        if picked {
            ecs.queue.remove_entity(item);
        }
        picked
    }
}

} // verus!
