//! The six axis-aligned face directions of a cell.

use vstd::prelude::*;

verus! {

/// A face direction. `Forward` looks toward decreasing `z`, `Right` toward
/// increasing `x`, `Up` toward increasing `y`.
#[derive(Copy, Clone, Debug, PartialEq, Eq, Structural)]
pub enum Direction {
    Forward,
    Backward,
    Right,
    Left,
    Up,
    Down,
}

/// The direction with ordinal `i`: the four horizontal ones come first.
pub open spec fn spec_index_to_dir(i: int) -> Direction {
    if i == 0 {
        Direction::Forward
    } else if i == 1 {
        Direction::Backward
    } else if i == 2 {
        Direction::Right
    } else if i == 3 {
        Direction::Left
    } else if i == 4 {
        Direction::Up
    } else {
        Direction::Down
    }
}

/// The unit step `(dx, dy, dz)` that a direction stands for.
pub open spec fn spec_dir_to_offset(dir: Direction) -> (int, int, int) {
    match dir {
        Direction::Up => (0, 1, 0),
        Direction::Down => (0, -1, 0),
        Direction::Forward => (0, 0, -1),
        Direction::Backward => (0, 0, 1),
        Direction::Left => (-1, 0, 0),
        Direction::Right => (1, 0, 0),
    }
}

/// The axis (0 = x, 1 = y, 2 = z) along which a direction points.
pub open spec fn spec_dir_outward_component(dir: Direction) -> int {
    match dir {
        Direction::Right | Direction::Left => 0,
        Direction::Up | Direction::Down => 1,
        Direction::Forward | Direction::Backward => 2,
    }
}

/// Converts an ordinal below six to its direction.
pub fn index_to_dir(i: usize) -> (dir: Direction)
    requires
        i < 6,
    ensures
        dir == spec_index_to_dir(i as int),
{
    match i {
        0 => Direction::Forward,
        1 => Direction::Backward,
        2 => Direction::Right,
        3 => Direction::Left,
        4 => Direction::Up,
        _ => Direction::Down,
    }
}

/// The unit step of a direction.
pub fn dir_to_offset(dir: Direction) -> (offset: (i32, i32, i32))
    ensures
        (offset.0 as int, offset.1 as int, offset.2 as int) == spec_dir_to_offset(dir),
{
    match dir {
        Direction::Up => (0, 1, 0),
        Direction::Down => (0, -1, 0),
        Direction::Forward => (0, 0, -1),
        Direction::Backward => (0, 0, 1),
        Direction::Left => (-1, 0, 0),
        Direction::Right => (1, 0, 0),
    }
}

/// The axis along which a direction points.
pub fn dir_outward_component(dir: Direction) -> (axis: usize)
    ensures
        axis as int == spec_dir_outward_component(dir),
{
    match dir {
        Direction::Right | Direction::Left => 0,
        Direction::Up | Direction::Down => 1,
        Direction::Forward | Direction::Backward => 2,
    }
}

/// Every direction is the image of exactly its own ordinal, and its step moves
/// one cell along its outward axis and none along the others.
pub proof fn lemma_direction_steps(i: int)
    requires
        0 <= i < 6,
    ensures
        ({
            let o = spec_dir_to_offset(spec_index_to_dir(i));
            let a = spec_dir_outward_component(spec_index_to_dir(i));
            &&& (a == 0 ==> (o.0 == 1 || o.0 == -1) && o.1 == 0 && o.2 == 0)
            &&& (a == 1 ==> (o.1 == 1 || o.1 == -1) && o.0 == 0 && o.2 == 0)
            &&& (a == 2 ==> (o.2 == 1 || o.2 == -1) && o.0 == 0 && o.1 == 0)
            &&& (i < 4 ==> o.1 == 0)
        }),
{
}

} // verus!
