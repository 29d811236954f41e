use std::collections::HashSet;
use voxel_sim::chunk::{Cell, Chunk};
use voxel_sim::ecs::actor::{Actor, Corner, Footprint};
use voxel_sim::ecs::components::{
    ChaseAi, Component, ComponentKind, Display, Health, HealthDisplay, Inventory, Item, Player,
};
use voxel_sim::ecs::manager::{CommandQueue, EntityManager};
use voxel_sim::ecs::systems::{Ecs, HealthSystem};

// The footprint of a box with the given centre and half extent, in whole
// world units.
fn footprint(x: i32, z: i32, half: i32) -> Footprint {
    Footprint {
        c0: Corner { x: x - half, z: z - half },
        c1: Corner { x: x + half, z: z - half },
        c2: Corner { x: x - half, z: z + half },
        c3: Corner { x: x + half, z: z + half },
    }
}

fn columns_of(chunk: &Chunk, entity: usize) -> Vec<(i32, i32)> {
    let mut found = Vec::new();
    for z in 0..32 {
        for x in 0..32 {
            if chunk.entities_at_block(x, z).unwrap().contains(&entity) {
                found.push((x, z));
            }
        }
    }
    found
}

fn health_of(manager: &EntityManager, entity: usize) -> Option<i32> {
    match manager.borrow_components(ComponentKind::Health)?.get(entity)? {
        Component::Health(h) => Some(h.amount()),
        _ => None,
    }
}

#[test]
fn health_takes_damage() {
    let mut health = Health::new(100);
    assert_eq!(health.amount(), 100);
    health.take_damage(25);
    assert_eq!(health.amount(), 75);
    health.take_damage(80);
    assert_eq!(health.amount(), -5);
    health.take_damage(-5);
    assert_eq!(health.amount(), 0);
}

#[test]
fn inventory_tokens_alternate() {
    let mut inventory = Inventory::new();
    assert!(inventory.items().is_empty());
    inventory.add_item();
    inventory.add_item();
    inventory.add_item();
    assert_eq!(inventory.items(), &vec!['a', 'b', 'a']);
    inventory.remove_item(0);
    assert_eq!(inventory.items(), &vec!['b', 'a']);
    inventory.remove_item(2);
    assert_eq!(inventory.items(), &vec!['b', 'a']);
    inventory.add_item();
    assert_eq!(inventory.items(), &vec!['b', 'a', 'a']);
    inventory.remove_item(2);
    inventory.remove_item(1);
    inventory.remove_item(0);
    assert!(inventory.items().is_empty());
}

#[test]
fn display_keeps_its_texture() {
    assert_eq!(Display::new(3).tex_index(), 3);
    assert_eq!(Display::new(0).tex_index(), 0);
}

#[test]
fn component_kinds() {
    assert_eq!(Component::Health(Health::new(1)).kind(), ComponentKind::Health);
    assert_eq!(Component::Player(Player {}).kind(), ComponentKind::Player);
    assert_eq!(Component::Item(Item {}).kind(), ComponentKind::Item);
    assert_eq!(Component::Display(Display::new(1)).kind(), ComponentKind::Display);
    assert_eq!(Component::Inventory(Inventory::new()).kind(), ComponentKind::Inventory);
    assert_eq!(Component::ChaseAi(ChaseAi::new()).kind(), ComponentKind::ChaseAi);
    assert_eq!(
        Component::Actor(Actor::new(footprint(0, 0, 1))).kind(),
        ComponentKind::Actor
    );
    assert_eq!(
        Component::HealthDisplay(HealthDisplay {}).kind(),
        ComponentKind::HealthDisplay
    );
}

#[test]
fn command_queue_keeps_request_order() {
    let mut queue = CommandQueue::new();
    assert!(queue.entities_to_remove().is_empty());
    queue.remove_entity(4);
    queue.remove_entity(2);
    queue.remove_entity(4);
    assert_eq!(queue.entities_to_remove(), &vec![4, 2, 4]);
    queue.clear();
    assert!(queue.entities_to_remove().is_empty());
}

#[test]
fn entity_ids_count_up() {
    let mut manager = EntityManager::new();
    assert_eq!(manager.add_entity(), 0);
    assert_eq!(manager.add_entity(), 1);
    assert_eq!(manager.add_entity(), 2);
}

#[test]
fn stores_are_made_on_first_use() {
    let mut manager = EntityManager::new();
    let mut found = vec![77];
    assert!(manager.borrow_components(ComponentKind::Health).is_none());
    assert!(!manager.get_entities_with(ComponentKind::Health, &mut found));
    assert!(found.is_empty());

    let a = manager.add_entity();
    let b = manager.add_entity();
    manager.add_component_to_entity(a, Component::Health(Health::new(10)));
    manager.add_component_to_entity(b, Component::Health(Health::new(20)));
    manager.add_component_to_entity(b, Component::Player(Player {}));
    assert!(manager.get_entities_with(ComponentKind::Health, &mut found));
    assert_eq!(found, vec![a, b]);
    assert!(manager.get_entities_with(ComponentKind::Player, &mut found));
    assert_eq!(found, vec![b]);
    assert!(manager.borrow_components(ComponentKind::Item).is_none());
    assert_eq!(health_of(&manager, a), Some(10));
    assert_eq!(health_of(&manager, b), Some(20));
}

#[test]
fn first_component_of_a_kind_wins() {
    let mut manager = EntityManager::new();
    let a = manager.add_entity();
    manager.add_component_to_entity(a, Component::Health(Health::new(10)));
    manager.add_component_to_entity(a, Component::Health(Health::new(99)));
    assert_eq!(health_of(&manager, a), Some(10));
    assert_eq!(manager.borrow_components(ComponentKind::Health).unwrap().len(), 1);
}

#[test]
fn query_for_two_kinds_follows_the_first_store() {
    let mut manager = EntityManager::new();
    let mut found = Vec::new();
    let ids: Vec<usize> = (0..5).map(|_| manager.add_entity()).collect();
    for id in [ids[3], ids[0], ids[4], ids[1]] {
        manager.add_component_to_entity(id, Component::Health(Health::new(1)));
    }
    assert!(!manager.get_entities_with_both(
        ComponentKind::Health,
        ComponentKind::Display,
        &mut found
    ));
    assert!(found.is_empty());
    for id in [ids[1], ids[2], ids[3]] {
        manager.add_component_to_entity(id, Component::Display(Display::new(2)));
    }
    assert!(manager.get_entities_with_both(
        ComponentKind::Health,
        ComponentKind::Display,
        &mut found
    ));
    assert_eq!(found, vec![ids[3], ids[1]]);
    assert!(manager.get_entities_with_both(
        ComponentKind::Display,
        ComponentKind::Health,
        &mut found
    ));
    assert_eq!(found, vec![ids[1], ids[3]]);
    manager.remove_component_from_entity(ids[3], ComponentKind::Display);
    manager.remove_component_from_entity(ids[1], ComponentKind::Health);
    manager.remove_component_from_entity(ids[1], ComponentKind::Item);
    assert!(!manager.get_entities_with_both(
        ComponentKind::Health,
        ComponentKind::Display,
        &mut found
    ));
    assert!(found.is_empty());
}

#[test]
fn remove_entity_clears_every_store() {
    let mut manager = EntityManager::new();
    let mut found = Vec::new();
    let a = manager.add_entity();
    let b = manager.add_entity();
    for id in [a, b] {
        manager.add_component_to_entity(id, Component::Health(Health::new(5)));
        manager.add_component_to_entity(id, Component::Display(Display::new(1)));
        manager.add_component_to_entity(id, Component::Inventory(Inventory::new()));
    }
    manager.remove_entity(a);
    for kind in [ComponentKind::Health, ComponentKind::Display, ComponentKind::Inventory] {
        assert!(manager.get_entities_with(kind, &mut found));
        assert_eq!(found, vec![b]);
        assert!(!manager.borrow_components(kind).unwrap().has(a));
    }
    manager.remove_entity(b);
    for kind in [ComponentKind::Health, ComponentKind::Display, ComponentKind::Inventory] {
        assert!(!manager.get_entities_with(kind, &mut found));
        assert!(manager.borrow_components(kind).is_some());
    }
}

#[test]
fn components_can_be_changed_in_place() {
    let mut manager = EntityManager::new();
    let a = manager.add_entity();
    manager.add_component_to_entity(a, Component::Health(Health::new(50)));
    assert!(manager.borrow_components_mut(ComponentKind::Item).is_none());
    let store = manager.borrow_components_mut(ComponentKind::Health).unwrap();
    if let Some(Component::Health(health)) = store.get_mut(a) {
        health.take_damage(20);
    }
    assert_eq!(health_of(&manager, a), Some(30));
}

#[test]
fn step_registers_the_new_footprint() {
    let mut chunk = Chunk::new();
    let mut actor = Actor::new(footprint(4, 4, 1));
    let empty: Vec<i32> = Vec::new();
    assert!(columns_of(&chunk, 9).is_empty());
    // Corners at 3 and 5 lie in the columns 1 and 1: one column.
    assert!(actor.step(9, footprint(4, 4, 1), &empty, &empty, &empty, &mut chunk, false));
    assert_eq!(columns_of(&chunk, 9), vec![(1, 1)]);
    // Corners at 5 and 7 lie in the columns 1 and 2: four columns.
    assert!(actor.step(9, footprint(6, 6, 1), &empty, &empty, &empty, &mut chunk, false));
    assert_eq!(columns_of(&chunk, 9), vec![(1, 1), (2, 1), (1, 2), (2, 2)]);
    assert_eq!(actor.footprint(), footprint(6, 6, 1));
    // One column on along x: the old and the new footprint share columns.
    assert!(actor.step(9, footprint(9, 6, 1), &empty, &empty, &empty, &mut chunk, false));
    assert_eq!(columns_of(&chunk, 9), vec![(2, 1), (3, 1), (2, 2), (3, 2)]);
    assert!(!chunk.is_dirty());
}

#[test]
fn blocked_step_changes_nothing() {
    let mut chunk = Chunk::new();
    chunk.set_block(true, 3, 0, 2);
    let mut actor = Actor::new(footprint(7, 7, 1));
    let empty: Vec<i32> = Vec::new();
    assert!(actor.step(1, footprint(7, 7, 1), &empty, &empty, &empty, &mut chunk, false));
    let before = columns_of(&chunk, 1);
    assert_eq!(before, vec![(2, 2)]);
    let moved = actor.step(1, footprint(10, 7, 1), &vec![3, 3], &vec![0, 0], &vec![2, 2], &mut chunk, false);
    assert!(!moved);
    assert_eq!(actor.footprint(), footprint(7, 7, 1));
    assert_eq!(columns_of(&chunk, 1), before);
    // Without clipping the same move goes through.
    let moved = actor.step(1, footprint(10, 7, 1), &vec![3, 3], &vec![0, 0], &vec![2, 2], &mut chunk, true);
    assert!(moved);
    assert_eq!(actor.footprint(), footprint(10, 7, 1));
    assert_eq!(columns_of(&chunk, 1), vec![(3, 2)]);
}

#[test]
fn occupancy_follows_a_walk_and_leaves_others_alone() {
    let mut chunk = Chunk::new();
    let empty: Vec<i32> = Vec::new();
    let mut walker = Actor::new(footprint(2, 2, 1));
    let mut other = Actor::new(footprint(8, 5, 1));
    assert!(other.step(2, footprint(8, 5, 1), &empty, &empty, &empty, &mut chunk, true));
    let other_columns = columns_of(&chunk, 2);
    let mut x = 2;
    let mut z = 2;
    for i in 0..40 {
        if i % 3 == 0 {
            z += 1;
        } else {
            x += 2;
        }
        assert!(walker.step(1, footprint(x, z, 1), &empty, &empty, &empty, &mut chunk, true));
        let mut expected: Vec<(i32, i32)> = Vec::new();
        for cz in [(z - 1) / 3, (z + 1) / 3] {
            for cx in [(x - 1) / 3, (x + 1) / 3] {
                if cx < 32 && cz < 32 && !expected.contains(&(cx, cz)) {
                    expected.push((cx, cz));
                }
            }
        }
        expected.sort_by_key(|c| (c.1, c.0));
        assert_eq!(columns_of(&chunk, 1), expected);
        assert_eq!(columns_of(&chunk, 2), other_columns);
    }
}

#[test]
fn nearby_entities_are_those_over_the_corner_columns() {
    let mut chunk = Chunk::new();
    chunk.add_entity_to_block(10, 1, 1);
    chunk.add_entity_to_block(11, 2, 1);
    chunk.add_entity_to_block(12, 2, 2);
    chunk.add_entity_to_block(13, 3, 2);
    chunk.add_entity_to_block(14, 1, 2);
    let actor = Actor::new(footprint(6, 6, 1));
    let mut nearby: HashSet<usize> = HashSet::new();
    nearby.insert(500);
    actor.get_nearby_entities(&chunk, &mut nearby);
    let expected: HashSet<usize> = [10, 11, 12, 14].into_iter().collect();
    assert_eq!(nearby, expected);
    let outside = Actor::new(footprint(-10, -10, 1));
    outside.get_nearby_entities(&chunk, &mut nearby);
    assert!(nearby.is_empty());
}

#[test]
fn health_system_queues_the_dead() {
    let mut ecs = Ecs::new();
    let mut system = HealthSystem {};
    system.queue_dead(&mut ecs);
    assert!(ecs.queue.entities_to_remove().is_empty());
    let ids: Vec<usize> = (0..4).map(|_| ecs.manager.add_entity()).collect();
    for (id, amount) in ids.iter().zip([10, 0, -3, 1]) {
        ecs.manager.add_component_to_entity(*id, Component::Health(Health::new(amount)));
    }
    ecs.queue.remove_entity(77);
    system.queue_dead(&mut ecs);
    assert_eq!(ecs.queue.entities_to_remove(), &vec![77, ids[1], ids[2]]);
    assert_eq!(ecs.entity_cache, ids);
}

#[test]
fn flush_removes_components_and_occupancy() {
    let mut ecs = Ecs::new();
    let mut chunk = Chunk::new();
    let empty: Vec<i32> = Vec::new();
    let a = ecs.manager.add_entity();
    let b = ecs.manager.add_entity();
    let c = ecs.manager.add_entity();
    let mut body_a = Actor::new(footprint(6, 6, 1));
    let mut body_b = Actor::new(footprint(6, 6, 1));
    assert!(body_a.step(a, footprint(6, 6, 1), &empty, &empty, &empty, &mut chunk, true));
    assert!(body_b.step(b, footprint(6, 6, 1), &empty, &empty, &empty, &mut chunk, true));
    ecs.manager.add_component_to_entity(a, Component::Actor(body_a));
    ecs.manager.add_component_to_entity(b, Component::Actor(body_b));
    ecs.manager.add_component_to_entity(a, Component::Health(Health::new(0)));
    ecs.manager.add_component_to_entity(b, Component::Health(Health::new(5)));
    ecs.manager.add_component_to_entity(c, Component::Health(Health::new(0)));
    ecs.entity_cache.push(123);

    ecs.queue.remove_entity(a);
    ecs.queue.remove_entity(c);
    ecs.flush_queue(&mut chunk);

    assert!(ecs.queue.entities_to_remove().is_empty());
    assert!(columns_of(&chunk, a).is_empty());
    assert_eq!(columns_of(&chunk, b), vec![(1, 1), (2, 1), (1, 2), (2, 2)]);
    let mut found = Vec::new();
    assert!(ecs.manager.get_entities_with(ComponentKind::Health, &mut found));
    assert_eq!(found, vec![b]);
    assert!(ecs.manager.get_entities_with(ComponentKind::Actor, &mut found));
    assert_eq!(found, vec![b]);
    assert_eq!(ecs.entity_cache, vec![123]);
}

#[test]
fn flush_without_bodies_still_removes() {
    let mut ecs = Ecs::new();
    let mut chunk = Chunk::new();
    let a = ecs.manager.add_entity();
    let b = ecs.manager.add_entity();
    ecs.manager.add_component_to_entity(a, Component::Health(Health::new(0)));
    ecs.manager.add_component_to_entity(b, Component::Health(Health::new(3)));
    chunk.add_entity_to_block(a, 1, 1);
    ecs.queue.remove_entity(a);
    ecs.flush_queue(&mut chunk);
    assert!(ecs.queue.entities_to_remove().is_empty());
    assert_eq!(health_of(&ecs.manager, a), None);
    assert_eq!(health_of(&ecs.manager, b), Some(3));
    // Only a body says over which columns an entity is registered.
    assert_eq!(columns_of(&chunk, a), vec![(1, 1)]);
}

#[test]
fn chase_ai_follows_its_path_as_a_stack() {
    let chunk = Chunk::new();
    let mut ai = ChaseAi::new();
    assert_eq!(ai.next_waypoint(), None);
    ai.advance();
    assert_eq!(ai.next_waypoint(), None);
    // From the cell (0, 0, 0) to the cell (0, 0, 3).
    ai.repath(&chunk, Cell { x: 1, y: 1, z: 1 }, Cell { x: 1, y: 1, z: 10 });
    assert_eq!(ai.next_waypoint(), Some(Cell { x: 0, y: 0, z: 1 }));
    ai.arrive();
    assert_eq!(ai.next_waypoint(), None);
    ai.advance();
    assert_eq!(ai.next_waypoint(), Some(Cell { x: 0, y: 0, z: 2 }));
    ai.arrive();
    ai.advance();
    assert_eq!(ai.next_waypoint(), Some(Cell { x: 0, y: 0, z: 3 }));
    ai.arrive();
    ai.advance();
    assert_eq!(ai.next_waypoint(), None);
    // No way between levels: idle.
    ai.repath(&chunk, Cell { x: 1, y: 1, z: 1 }, Cell { x: 1, y: 4, z: 10 });
    assert_eq!(ai.next_waypoint(), None);
}
