//! Simulation substrate of a small voxel world: a sparse-set component store
//! with its entity manager, the voxel chunk with its grid queries, and a grid
//! pathfinder.

pub mod direction;
pub mod rng;
pub mod ecs;
pub mod chunk;
pub mod mesh;
pub mod a_star;
pub mod input;
