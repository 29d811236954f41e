use voxel_sim::a_star::{
    a_star_search, get_neighbors, heuristic, reconstruct_path, to_cell, CameFrom,
};
use voxel_sim::chunk::{Cell, Chunk};

fn cell(x: i32, y: i32, z: i32) -> Cell {
    Cell { x, y, z }
}

// The world position of the middle of a cell, in whole units.
fn middle(c: Cell) -> Cell {
    cell(c.x * 3 + 1, c.y * 3 + 1, c.z * 3 + 1)
}

// An open plane of `size` by `size` cells on level 1, walled in.
fn walled_plane(size: i32) -> Chunk {
    let mut chunk = Chunk::new();
    for i in 0..=size {
        chunk.set_block(true, size, 1, i);
        chunk.set_block(true, i, 1, size);
    }
    chunk
}

fn find(chunk: &Chunk, start: Cell, goal: Cell) -> (CameFrom, Vec<Cell>) {
    let mut came_from = CameFrom::new();
    let mut path = vec![cell(9, 9, 9)];
    a_star_search(chunk, middle(start), middle(goal), &mut came_from);
    reconstruct_path(middle(start), middle(goal), &came_from, &mut path);
    (came_from, path)
}

fn adjacent(a: Cell, b: Cell) -> bool {
    a.y == b.y && ((a.x - b.x).abs() + (a.z - b.z).abs() == 1)
}

#[test]
fn world_positions_divide_toward_zero() {
    assert_eq!(to_cell(cell(0, 1, 2)), cell(0, 0, 0));
    assert_eq!(to_cell(cell(3, 5, 6)), cell(1, 1, 2));
    assert_eq!(to_cell(cell(-1, -2, -3)), cell(0, 0, -1));
    assert_eq!(to_cell(cell(-4, 95, -6)), cell(-1, 31, -2));
    assert_eq!(to_cell(cell(i32::MIN, i32::MAX, 0)), cell(-715827882, 715827882, 0));
}

#[test]
fn heuristic_is_planar_manhattan_distance() {
    assert_eq!(heuristic(cell(0, 0, 0), cell(4, 0, 4)), 8);
    assert_eq!(heuristic(cell(4, 0, 4), cell(0, 0, 0)), 8);
    assert_eq!(heuristic(cell(1, 7, 2), cell(1, 0, 2)), 0);
    assert_eq!(heuristic(cell(-3, 0, 5), cell(2, 9, -1)), 11);
}

#[test]
fn neighbors_come_forward_backward_right_left() {
    let mut chunk = Chunk::new();
    let mut neighbors = vec![cell(0, 0, 0)];
    get_neighbors(cell(5, 2, 5), &chunk, &mut neighbors);
    assert_eq!(neighbors, vec![cell(5, 2, 4), cell(5, 2, 6), cell(6, 2, 5), cell(4, 2, 5)]);
    chunk.set_block(true, 5, 2, 6);
    chunk.set_block(true, 4, 2, 5);
    get_neighbors(cell(5, 2, 5), &chunk, &mut neighbors);
    assert_eq!(neighbors, vec![cell(5, 2, 4), cell(6, 2, 5)]);
    get_neighbors(cell(0, 0, 0), &chunk, &mut neighbors);
    assert_eq!(neighbors, vec![cell(0, 0, 1), cell(1, 0, 0)]);
}

#[test]
fn open_plane_path_has_manhattan_length() {
    let chunk = walled_plane(5);
    let (came_from, path) = find(&chunk, cell(0, 1, 0), cell(4, 1, 4));
    assert_eq!(path.len(), 8);
    assert_eq!(path[0], cell(4, 1, 4));
    for pair in path.windows(2) {
        assert!(adjacent(pair[0], pair[1]));
        assert_eq!(came_from.get(pair[0]), Some(pair[1]));
    }
    assert!(adjacent(path[7], cell(0, 1, 0)));
    assert_eq!(came_from.get(cell(0, 1, 0)), Some(cell(0, 1, 0)));
    for c in path.iter() {
        assert!(!chunk.get_block(c.x, c.y, c.z));
    }
}

#[test]
fn path_leads_round_a_wall() {
    let mut chunk = walled_plane(5);
    // A wall across the plane at z = 2 with a gap at x = 4.
    for x in 0..4 {
        chunk.set_block(true, x, 1, 2);
    }
    let (_, path) = find(&chunk, cell(0, 1, 0), cell(0, 1, 4));
    assert!(path.len() >= 12);
    assert_eq!(path[0], cell(0, 1, 4));
    assert!(path.contains(&cell(4, 1, 2)));
    for pair in path.windows(2) {
        assert!(adjacent(pair[0], pair[1]));
    }
    assert!(adjacent(*path.last().unwrap(), cell(0, 1, 0)));
    for c in path.iter() {
        assert!(!chunk.get_block(c.x, c.y, c.z));
    }
}

#[test]
fn solid_goal_gives_no_path() {
    let mut chunk = walled_plane(5);
    chunk.set_block(true, 4, 1, 4);
    let (came_from, path) = find(&chunk, cell(0, 1, 0), cell(4, 1, 4));
    assert!(path.is_empty());
    assert!(!came_from.contains_key(cell(4, 1, 4)));
    // Everything else of the plane was reached.
    assert_eq!(came_from.len(), 24);
}

#[test]
fn walled_off_goal_gives_no_path() {
    let mut chunk = walled_plane(5);
    chunk.set_block(true, 3, 1, 4);
    chunk.set_block(true, 4, 1, 3);
    let (came_from, path) = find(&chunk, cell(0, 1, 0), cell(4, 1, 4));
    assert!(path.is_empty());
    assert_eq!(came_from.get(cell(4, 1, 4)), None);
    assert!(came_from.contains_key(cell(3, 1, 3)));
}

#[test]
fn goal_on_another_level_is_not_searched() {
    let chunk = Chunk::new();
    let mut came_from = CameFrom::new();
    let mut path = vec![cell(1, 1, 1)];
    a_star_search(&chunk, cell(1, 4, 1), cell(1, 7, 1), &mut came_from);
    reconstruct_path(cell(1, 4, 1), cell(1, 7, 1), &came_from, &mut path);
    assert_eq!(came_from.len(), 0);
    assert!(path.is_empty());
}

#[test]
fn start_equal_to_goal_gives_an_empty_path() {
    let chunk = Chunk::new();
    let (came_from, path) = find(&chunk, cell(3, 2, 3), cell(3, 2, 3));
    assert!(path.is_empty());
    assert_eq!(came_from.len(), 1);
    assert_eq!(came_from.get(cell(3, 2, 3)), Some(cell(3, 2, 3)));
}

#[test]
fn search_starts_from_outside_the_chunk() {
    let chunk = Chunk::new();
    let mut came_from = CameFrom::new();
    let mut path = Vec::new();
    // The world position (-3, 0, 6) lies in the cell (-1, 0, 2).
    a_star_search(&chunk, cell(-3, 0, 6), cell(6, 0, 6), &mut came_from);
    reconstruct_path(cell(-3, 0, 6), cell(6, 0, 6), &came_from, &mut path);
    assert_eq!(path, vec![cell(2, 0, 2), cell(1, 0, 2), cell(0, 0, 2)]);
    assert_eq!(came_from.get(cell(0, 0, 2)), Some(cell(-1, 0, 2)));
}

#[test]
fn reconstruction_needs_the_goal_in_the_map() {
    let mut came_from = CameFrom::new();
    came_from.insert(cell(0, 0, 0), cell(0, 0, 0));
    came_from.insert(cell(1, 0, 0), cell(0, 0, 0));
    came_from.insert(cell(2, 0, 0), cell(1, 0, 0));
    let mut path = Vec::new();
    reconstruct_path(cell(0, 0, 0), cell(7, 0, 0), &came_from, &mut path);
    assert_eq!(path, vec![cell(2, 0, 0), cell(1, 0, 0)]);
    reconstruct_path(cell(0, 0, 0), cell(9, 0, 0), &came_from, &mut path);
    assert!(path.is_empty());
    came_from.clear();
    reconstruct_path(cell(0, 0, 0), cell(7, 0, 0), &came_from, &mut path);
    assert!(path.is_empty());
}

#[test]
fn cells_are_expanded_lowest_estimate_first() {
    let chunk = Chunk::new();
    let (came_from, path) = find(&chunk, cell(1, 0, 1), cell(3, 0, 1));
    assert_eq!(path, vec![cell(3, 0, 1), cell(2, 0, 1)]);
    // The start was expanded, then its neighbour nearest the goal, and then
    // the goal left the frontier: nothing else was expanded.
    assert_eq!(came_from.len(), 8);
    assert_eq!(came_from.get(cell(1, 0, 1)), Some(cell(1, 0, 1)));
    for c in [cell(1, 0, 0), cell(1, 0, 2), cell(2, 0, 1), cell(0, 0, 1)] {
        assert_eq!(came_from.get(c), Some(cell(1, 0, 1)));
    }
    for c in [cell(2, 0, 0), cell(2, 0, 2), cell(3, 0, 1)] {
        assert_eq!(came_from.get(c), Some(cell(2, 0, 1)));
    }
    assert_eq!(came_from.get(cell(0, 0, 0)), None);
    assert_eq!(came_from.get(cell(4, 0, 1)), None);
}

#[test]
fn equal_estimates_leave_the_frontier_oldest_first() {
    let mut chunk = Chunk::new();
    // The goal lies behind a wall that reaches the edge of the chunk, so
    // the search falls back on three neighbours of equal estimate.
    chunk.set_block(true, 2, 0, 0);
    chunk.set_block(true, 2, 0, 1);
    chunk.set_block(true, 2, 0, 2);
    let (came_from, path) = find(&chunk, cell(1, 0, 1), cell(3, 0, 1));
    // Forward waited longest and left first: the corner cell was reached
    // from it, not from the left neighbour.
    assert_eq!(came_from.get(cell(0, 0, 0)), Some(cell(1, 0, 0)));
    // The way leads past the far end of the wall.
    assert_eq!(path[0], cell(3, 0, 1));
    assert_eq!(*path.last().unwrap(), cell(1, 0, 2));
    assert_eq!(path.len(), 6);
    for pair in path.windows(2) {
        assert!(adjacent(pair[0], pair[1]));
    }
}
