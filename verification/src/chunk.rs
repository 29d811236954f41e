//! The voxel chunk: a dense grid of blocks of fixed extent, with the set of
//! entities that stand over each column of it.

use crate::mesh::{build_faces, faces_below, lemma_mesh_size, mesh_of, Face};
use std::collections::HashSet;
use vstd::prelude::*;

pub mod collision;
pub mod raycast;
pub mod terrain;

verus! {

broadcast use vstd::std_specs::hash::group_hash_axioms;

/// Edge length of a block in world units.
pub const BLOCK_SIZE: i32 = 3;

/// Extent of the chunk along `x` and along `z`, in blocks.
pub const CHUNK_SIZE: usize = 32;

/// Extent of the chunk along `y`, in blocks.
pub const CHUNK_HEIGHT: usize = 8;

/// Number of blocks in the chunk.
pub const CHUNK_LEN: usize = 8192;

/// Number of `(x, z)` columns in the chunk.
pub const COLUMN_COUNT: usize = 1024;

/// A grid coordinate, in blocks.
#[derive(Copy, Clone, Debug, PartialEq, Eq, Structural)]
pub struct Cell {
    pub x: i32,
    pub y: i32,
    pub z: i32,
}

/// Whether `(x, y, z)` lies inside the chunk.
pub open spec fn in_bounds(x: int, y: int, z: int) -> bool {
    0 <= x < 32 && 0 <= y < 8 && 0 <= z < 32
}

/// The place of an in-bounds block in the dense grid.
pub open spec fn linear_index(x: int, y: int, z: int) -> int {
    x + y * 32 + z * 256
}

/// Whether `(x, z)` names a column of the chunk.
pub open spec fn column_in_bounds(x: int, z: int) -> bool {
    0 <= x < 32 && 0 <= z < 32
}

/// The place of a column among the columns.
pub open spec fn column_index(x: int, z: int) -> int {
    x + z * 32
}

/// The cell at a place of the dense grid.
pub open spec fn cell_at(i: int) -> (int, int, int) {
    (i % 32, (i / 32) % 8, i / 256)
}

/// A cell's place and the cell at a place are inverse to each other.
pub proof fn lemma_linear_index_bijective(x: int, y: int, z: int, i: int)
    ensures
        in_bounds(x, y, z) ==> 0 <= linear_index(x, y, z) < 8192 && cell_at(
            linear_index(x, y, z),
        ) == (x, y, z),
        0 <= i < 8192 ==> in_bounds(cell_at(i).0, cell_at(i).1, cell_at(i).2) && linear_index(
            cell_at(i).0,
            cell_at(i).1,
            cell_at(i).2,
        ) == i,
{
}

/// The cell with the given coordinates.
pub open spec fn cell_of(c: (int, int, int)) -> Cell {
    Cell { x: c.0 as i32, y: c.1 as i32, z: c.2 as i32 }
}

/// The world is exactly one chunk.
pub struct Chunk {
    blocks: Vec<bool>,
    entities_on_blocks: Vec<HashSet<usize>>,
    is_dirty: bool,
}

impl Chunk {
    /// The dense grid: one flag per block, solid or empty.
    pub closed spec fn blocks(&self) -> Seq<bool> {
        self.blocks@
    }

    /// The entities registered over each column, by column index.
    pub closed spec fn columns(&self) -> Seq<Set<usize>> {
        Seq::new(self.entities_on_blocks@.len(), |i: int| self.entities_on_blocks@[i]@)
    }

    /// Whether a block was edited since the mesh was last generated.
    pub closed spec fn dirty(&self) -> bool {
        self.is_dirty
    }

    /// The grid and the columns have their fixed sizes.
    pub open spec fn wf(&self) -> bool {
        self.blocks().len() == 8192 && self.columns().len() == 1024
    }

    /// Whether `(x, y, z)` blocks movement: every cell outside the chunk
    /// does, and inside it the solid ones.
    pub open spec fn solid(&self, x: int, y: int, z: int) -> bool {
        !in_bounds(x, y, z) || self.blocks()[linear_index(x, y, z)]
    }

    /// The entities registered over column `(x, z)`: none outside the chunk.
    pub open spec fn occupants(&self, x: int, z: int) -> Set<usize> {
        if column_in_bounds(x, z) {
            self.columns()[column_index(x, z)]
        } else {
            Set::empty()
        }
    }

    /// A chunk of empty blocks, with no entity over any column, not dirty.
    pub fn new() -> (chunk: Self)
        ensures
            chunk.wf(),
            !chunk.dirty(),
            forall|i: int| 0 <= i < 8192 ==> !(#[trigger] chunk.blocks()[i]),
            forall|i: int| 0 <= i < 1024 ==> (#[trigger] chunk.columns()[i]) == Set::<usize>::empty(),
    {
        let mut blocks: Vec<bool> = Vec::new();
        let mut i: usize = 0;
        while i < CHUNK_LEN
            invariant
                i <= CHUNK_LEN,
                blocks@.len() == i,
                forall|k: int| 0 <= k < i ==> !(#[trigger] blocks@[k]),
            decreases CHUNK_LEN - i,
        {
            blocks.push(false);
            i += 1;
        }
        let mut entities_on_blocks: Vec<HashSet<usize>> = Vec::new();
        let mut c: usize = 0;
        while c < COLUMN_COUNT
            invariant
                c <= COLUMN_COUNT,
                entities_on_blocks@.len() == c,
                forall|k: int| 0 <= k < c ==> (#[trigger] entities_on_blocks@[k])@ == Set::<usize>::empty(),
            decreases COLUMN_COUNT - c,
        {
            entities_on_blocks.push(HashSet::new());
            c += 1;
        }
        Self { blocks, entities_on_blocks, is_dirty: false }
    }

    /// Makes the block at `(x, y, z)` solid or empty and marks the chunk
    /// dirty. Outside the chunk nothing changes at all.
    pub fn set_block(&mut self, solid: bool, x: i32, y: i32, z: i32)
        requires
            old(self).wf(),
        ensures
            final(self).wf(),
            final(self).columns() == old(self).columns(),
            in_bounds(x as int, y as int, z as int) ==> final(self).dirty() && final(self).blocks()
                == old(self).blocks().update(linear_index(x as int, y as int, z as int), solid),
            !in_bounds(x as int, y as int, z as int) ==> final(self).dirty() == old(self).dirty()
                && final(self).blocks() == old(self).blocks(),
    {
        if x < 0 || x >= 32 || y < 0 || y >= 8 || z < 0 || z >= 32 {
            return ;
        }
        let ux = x as usize;
        let uy = y as usize;
        let uz = z as usize;
        self.blocks[ux + uy * CHUNK_SIZE + uz * CHUNK_SIZE * CHUNK_HEIGHT] = solid;
        self.is_dirty = true;
        proof {
            assert(final(self).columns() =~= old(self).columns());
        }
    }

    /// Whether `(x, y, z)` blocks movement. Outside the chunk every cell
    /// does.
    pub fn get_block(&self, x: i32, y: i32, z: i32) -> (solid: bool)
        requires
            self.wf(),
        ensures
            solid == self.solid(x as int, y as int, z as int),
    {
        if x < 0 || x >= 32 || y < 0 || y >= 8 || z < 0 || z >= 32 {
            return true;
        }
        let ux = x as usize;
        let uy = y as usize;
        let uz = z as usize;
        self.blocks[ux + uy * CHUNK_SIZE + uz * CHUNK_SIZE * CHUNK_HEIGHT]
    }

    /// Whether the chunk was edited since its mesh was last generated.
    pub fn is_dirty(&self) -> (dirty: bool)
        ensures
            dirty == self.dirty(),
    {
        self.is_dirty
    }

    /// Registers `entity` over column `(x, z)`. Outside the chunk nothing
    /// changes.
    pub fn add_entity_to_block(&mut self, entity: usize, x: i32, z: i32)
        requires
            old(self).wf(),
        ensures
            final(self).wf(),
            final(self).blocks() == old(self).blocks(),
            final(self).dirty() == old(self).dirty(),
            column_in_bounds(x as int, z as int) ==> final(self).columns() == old(
                self,
            ).columns().update(
                column_index(x as int, z as int),
                old(self).occupants(x as int, z as int).insert(entity),
            ),
            !column_in_bounds(x as int, z as int) ==> final(self).columns() == old(self).columns(),
    {
        if x < 0 || x >= 32 || z < 0 || z >= 32 {
            return ;
        }
        let ux = x as usize;
        let uz = z as usize;
        self.entities_on_blocks[ux + uz * CHUNK_SIZE].insert(entity);
        proof {
            assert(final(self).columns() =~= old(self).columns().update(
                column_index(x as int, z as int),
                old(self).occupants(x as int, z as int).insert(entity),
            ));
        }
    }

    /// Takes `entity` off column `(x, z)`. Outside the chunk nothing changes.
    pub fn remove_entity_from_block(&mut self, entity: usize, x: i32, z: i32)
        requires
            old(self).wf(),
        ensures
            final(self).wf(),
            final(self).blocks() == old(self).blocks(),
            final(self).dirty() == old(self).dirty(),
            column_in_bounds(x as int, z as int) ==> final(self).columns() == old(
                self,
            ).columns().update(
                column_index(x as int, z as int),
                old(self).occupants(x as int, z as int).remove(entity),
            ),
            !column_in_bounds(x as int, z as int) ==> final(self).columns() == old(self).columns(),
    {
        if x < 0 || x >= 32 || z < 0 || z >= 32 {
            return ;
        }
        let ux = x as usize;
        let uz = z as usize;
        self.entities_on_blocks[ux + uz * CHUNK_SIZE].remove(&entity);
        proof {
            assert(final(self).columns() =~= old(self).columns().update(
                column_index(x as int, z as int),
                old(self).occupants(x as int, z as int).remove(entity),
            ));
        }
    }

    /// The entities registered over column `(x, z)`, or nothing for a column
    /// outside the chunk.
    pub fn entities_at_block(&self, x: i32, z: i32) -> (entities: Option<&HashSet<usize>>)
        requires
            self.wf(),
        ensures
            entities is Some <==> column_in_bounds(x as int, z as int),
            entities is Some ==> entities->0@ == self.occupants(x as int, z as int),
    {
        if x < 0 || x >= 32 || z < 0 || z >= 32 {
            return None;
        }
        let ux = x as usize;
        let uz = z as usize;
        Some(&self.entities_on_blocks[ux + uz * CHUNK_SIZE])
    }
}

impl Chunk {
    /// Whether the block at place `i` of the dense grid is solid.
    pub open spec fn solid_at(&self, i: int) -> bool {
        self.blocks()[i]
    }

    /// Lists the visible faces and clears the dirty flag.
    pub fn generate_mesh(&mut self) -> (faces: Vec<Face>)
        requires
            old(self).wf(),
        ensures
            final(self).wf(),
            !final(self).dirty(),
            final(self).blocks() == old(self).blocks(),
            final(self).columns() == old(self).columns(),
            faces@ == mesh_of(old(self)),
            faces@.len() <= 49152,
    {
        self.is_dirty = false;
        proof {
            assert(self.columns() =~= old(self).columns());
            lemma_mesh_depends_on_blocks(self, old(self), 49152);
            lemma_mesh_size(old(self), 49152);
        }
        build_faces(self)
    }

    /// Regenerates the mesh where a block was edited since the last time,
    /// and only then.
    pub fn update_mesh(&mut self) -> (faces: Option<Vec<Face>>)
        requires
            old(self).wf(),
        ensures
            final(self).wf(),
            !final(self).dirty(),
            final(self).blocks() == old(self).blocks(),
            final(self).columns() == old(self).columns(),
            faces is Some <==> old(self).dirty(),
            faces is Some ==> faces->0@ == mesh_of(old(self)) && faces->0@.len() <= 49152,
    {
        if self.is_dirty {
            Some(self.generate_mesh())
        } else {
            None
        }
    }
}

/// The mesh is a function of the blocks alone.
pub proof fn lemma_mesh_depends_on_blocks(a: &Chunk, b: &Chunk, slots: int)
    requires
        a.blocks() == b.blocks(),
    ensures
        faces_below(a, slots) == faces_below(b, slots),
    decreases slots,
{
    if slots > 0 {
        lemma_mesh_depends_on_blocks(a, b, slots - 1);
    }
}

} // verus!
