use std::collections::HashSet;
use voxel_sim::chunk::raycast::RaycastHit;
use voxel_sim::chunk::{Cell, Chunk, CHUNK_HEIGHT, CHUNK_LEN, CHUNK_SIZE};
use voxel_sim::direction::Direction;
use voxel_sim::rng::Rng;

fn xorshift(mut s: u32) -> u32 {
    s ^= s << 13;
    s ^= s >> 7;
    s ^= s << 5;
    s
}

// The per-axis sample cells of a box, from its centre and size in world
// units: floor(size) + 2 samples spread evenly over the box.
fn axis_samples(center: f32, size: f32) -> Vec<i32> {
    let position = center * (1.0 / 3.0);
    let size = size * (1.0 / 3.0);
    let start = position - size * 0.5;
    let steps = size.floor() as i32 + 1;
    let mut cells = Vec::new();
    for i in 0..=steps {
        let interp = start + i as f32 / steps as f32 * size;
        cells.push(interp.floor() as i32);
    }
    cells
}

fn collide(chunk: &Chunk, center: (f32, f32, f32), size: (f32, f32, f32)) -> Option<Cell> {
    chunk.get_block_collision(
        &axis_samples(center.0, size.0),
        &axis_samples(center.1, size.1),
        &axis_samples(center.2, size.2),
    )
}

#[test]
fn new_chunk_is_empty_inside_and_solid_outside() {
    let chunk = Chunk::new();
    assert!(!chunk.is_dirty());
    for z in 0..CHUNK_SIZE as i32 {
        for y in 0..CHUNK_HEIGHT as i32 {
            for x in 0..CHUNK_SIZE as i32 {
                assert!(!chunk.get_block(x, y, z));
            }
        }
    }
    assert_eq!(CHUNK_LEN, CHUNK_SIZE * CHUNK_HEIGHT * CHUNK_SIZE);
}

#[test]
fn out_of_bounds_reads_are_solid() {
    let chunk = Chunk::new();
    assert!(chunk.get_block(-1, 0, 0));
    assert!(chunk.get_block(0, -1, 0));
    assert!(chunk.get_block(0, 0, -1));
    assert!(chunk.get_block(32, 0, 0));
    assert!(chunk.get_block(0, 8, 0));
    assert!(chunk.get_block(0, 0, 32));
    assert!(chunk.get_block(i32::MIN, i32::MAX, 5));
    assert!(!chunk.get_block(31, 7, 31));
}

#[test]
fn out_of_bounds_writes_change_nothing() {
    let mut chunk = Chunk::new();
    chunk.set_block(true, -1, 0, 0);
    chunk.set_block(true, 32, 0, 0);
    chunk.set_block(true, 0, 8, 0);
    chunk.set_block(true, 0, 0, -5);
    chunk.set_block(true, 0, 0, 32);
    assert!(!chunk.is_dirty());
    for z in 0..32 {
        for y in 0..8 {
            for x in 0..32 {
                assert!(!chunk.get_block(x, y, z));
            }
        }
    }
}

#[test]
fn set_block_writes_one_cell_and_marks_dirty() {
    let mut chunk = Chunk::new();
    chunk.set_block(true, 3, 2, 1);
    assert!(chunk.is_dirty());
    assert!(chunk.get_block(3, 2, 1));
    assert!(!chunk.get_block(2, 2, 1));
    assert!(!chunk.get_block(3, 1, 1));
    assert!(!chunk.get_block(3, 2, 0));
    assert!(!chunk.get_block(1, 2, 3));
    chunk.set_block(false, 3, 2, 1);
    assert!(!chunk.get_block(3, 2, 1));
    assert!(chunk.is_dirty());
}

#[test]
fn collision_round_trip() {
    let mut chunk = Chunk::new();
    chunk.set_block(true, 2, 0, 2);
    // A unit box in the middle of the empty cell (5, 1, 5).
    assert_eq!(collide(&chunk, (16.5, 4.5, 16.5), (1.0, 1.0, 1.0)), None);
    // A unit box in the middle of the solid cell (2, 0, 2).
    assert_eq!(
        collide(&chunk, (7.5, 1.5, 7.5), (1.0, 1.0, 1.0)),
        Some(Cell { x: 2, y: 0, z: 2 })
    );
    // A box that reaches from the empty cell (1, 0, 2) into the solid one.
    assert_eq!(
        collide(&chunk, (6.0, 1.5, 7.5), (1.5, 1.0, 1.0)),
        Some(Cell { x: 2, y: 0, z: 2 })
    );
}

#[test]
fn collision_returns_first_solid_sample_in_scan_order() {
    let mut chunk = Chunk::new();
    chunk.set_block(true, 4, 1, 6);
    chunk.set_block(true, 4, 0, 7);
    chunk.set_block(true, 5, 0, 6);
    let hit = chunk.get_block_collision(&vec![3, 4, 5], &vec![0, 1], &vec![6, 7]);
    assert_eq!(hit, Some(Cell { x: 4, y: 0, z: 7 }));
    let hit = chunk.get_block_collision(&vec![5, 4], &vec![1, 0], &vec![7, 6]);
    assert_eq!(hit, Some(Cell { x: 5, y: 0, z: 6 }));
    assert_eq!(chunk.get_block_collision(&vec![3], &vec![0, 1], &vec![6, 7]), None);
    assert_eq!(chunk.get_block_collision(&vec![], &vec![0], &vec![0]), None);
    // Outside the chunk every sample is solid.
    assert_eq!(
        chunk.get_block_collision(&vec![0, -1], &vec![0], &vec![0]),
        Some(Cell { x: -1, y: 0, z: 0 })
    );
}

#[test]
fn raycast_hits_wall_at_x_three() {
    let mut chunk = Chunk::new();
    for z in 0..32 {
        for y in 0..8 {
            chunk.set_block(true, 3, y, z);
        }
    }
    // From (0.5, 0.5, 0.5) along +x with range 10 the ray leaves a cell
    // through its right face at distances 0.5, 1.5, ...: eleven steps.
    let steps = vec![Direction::Right; 11];
    let hit = chunk.raycast(Cell { x: 0, y: 0, z: 0 }, &steps, None);
    assert_eq!(
        hit,
        Some(RaycastHit {
            steps: 3,
            position: Cell { x: 3, y: 0, z: 0 },
            last_position: Cell { x: 2, y: 0, z: 0 },
        })
    );
}

#[test]
fn raycast_collects_entities_over_crossed_columns() {
    let mut chunk = Chunk::new();
    chunk.set_block(true, 3, 0, 0);
    chunk.add_entity_to_block(42, 1, 0);
    chunk.add_entity_to_block(43, 2, 0);
    chunk.add_entity_to_block(44, 3, 0);
    chunk.add_entity_to_block(45, 1, 1);
    let mut seen: HashSet<usize> = HashSet::new();
    seen.insert(999);
    let steps = vec![Direction::Right; 11];
    let hit = chunk.raycast(Cell { x: 0, y: 0, z: 0 }, &steps, Some(&mut seen));
    assert_eq!(hit.map(|h| h.position), Some(Cell { x: 3, y: 0, z: 0 }));
    let expected: HashSet<usize> = [42, 43].into_iter().collect();
    assert_eq!(seen, expected);
}

#[test]
fn raycast_misses_in_the_open_and_stops_at_the_edge() {
    let chunk = Chunk::new();
    let steps = vec![Direction::Backward; 5];
    assert_eq!(chunk.raycast(Cell { x: 4, y: 2, z: 4 }, &steps, None), None);
    let steps = vec![Direction::Up, Direction::Left, Direction::Left, Direction::Left];
    let hit = chunk.raycast(Cell { x: 1, y: 2, z: 4 }, &steps, None);
    assert_eq!(
        hit,
        Some(RaycastHit {
            steps: 3,
            position: Cell { x: -1, y: 3, z: 4 },
            last_position: Cell { x: 0, y: 3, z: 4 },
        })
    );
    // A ray that starts in a blocking cell stops there.
    let hit = chunk.raycast(Cell { x: -1, y: 0, z: 0 }, &steps, None);
    assert_eq!(
        hit,
        Some(RaycastHit {
            steps: 0,
            position: Cell { x: -1, y: 0, z: 0 },
            last_position: Cell { x: -1, y: 0, z: 0 },
        })
    );
}

#[test]
fn column_occupancy_add_remove_and_bounds() {
    let mut chunk = Chunk::new();
    chunk.add_entity_to_block(7, 2, 3);
    chunk.add_entity_to_block(8, 2, 3);
    chunk.add_entity_to_block(7, 2, 3);
    chunk.add_entity_to_block(9, -1, 3);
    chunk.add_entity_to_block(9, 2, 32);
    let at = chunk.entities_at_block(2, 3).unwrap();
    let expected: HashSet<usize> = [7, 8].into_iter().collect();
    assert_eq!(at, &expected);
    assert!(chunk.entities_at_block(3, 2).unwrap().is_empty());
    assert!(chunk.entities_at_block(-1, 3).is_none());
    assert!(chunk.entities_at_block(2, 32).is_none());
    chunk.remove_entity_from_block(7, 2, 3);
    chunk.remove_entity_from_block(8, 3, 2);
    chunk.remove_entity_from_block(8, 40, 2);
    let expected: HashSet<usize> = [8].into_iter().collect();
    assert_eq!(chunk.entities_at_block(2, 3).unwrap(), &expected);
    assert!(!chunk.is_dirty());
}

#[test]
fn spawn_scans_forward_from_the_drawn_place() {
    let mut chunk = Chunk::new();
    // Seed 1 draws 272481, place 2145: the cell (1, 3, 8).
    let mut rng = Rng::new(1);
    assert_eq!(chunk.get_spawn_position(&mut rng), Some(Cell { x: 1, y: 3, z: 8 }));
    chunk.set_block(true, 1, 3, 8);
    chunk.set_block(true, 2, 3, 8);
    let mut rng = Rng::new(1);
    assert_eq!(chunk.get_spawn_position(&mut rng), Some(Cell { x: 3, y: 3, z: 8 }));
    // The generator moved on by one draw.
    assert_eq!(rng.range(1000), xorshift(272481) % 1000);
}

#[test]
fn spawn_wraps_round_and_fails_on_a_full_grid() {
    let mut chunk = Chunk::new();
    for z in 0..32 {
        for y in 0..8 {
            for x in 0..32 {
                chunk.set_block(true, x, y, z);
            }
        }
    }
    let mut rng = Rng::new(1);
    assert_eq!(chunk.get_spawn_position(&mut rng), None);
    chunk.set_block(false, 5, 0, 0);
    let mut rng = Rng::new(1);
    assert_eq!(chunk.get_spawn_position(&mut rng), Some(Cell { x: 5, y: 0, z: 0 }));
}

#[test]
fn generated_blocks_follow_the_generator() {
    let mut chunk = Chunk::new();
    chunk.set_block(true, 9, 5, 9);
    let mut rng = Rng::new(12345);
    chunk.generate_blocks(&mut rng);
    assert!(chunk.is_dirty());
    let mut state: u32 = 12345;
    let mut scattered = 0;
    for z in 0..32 {
        for x in 0..32 {
            state = xorshift(state);
            let expect = state % 100 <= 10;
            if expect {
                scattered += 1;
            }
            assert!(chunk.get_block(x, 0, z));
            assert_eq!(chunk.get_block(x, 1, z), expect);
            for y in 2..8 {
                assert_eq!(chunk.get_block(x, y, z), (x, y, z) == (9, 5, 9));
            }
        }
    }
    assert!(scattered > 0);
    assert_eq!(rng.range(1 << 20), xorshift(state) % (1 << 20));
}
