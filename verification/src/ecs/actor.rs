//! The part of a movable body that the grid sees: the columns under its four
//! corners, and the bookkeeping that keeps the chunk's column sets in step
//! with them.

use crate::a_star::spec_block_coord;
use crate::chunk::collision::lattice_clear;
use crate::chunk::raycast::collect_entities;
use crate::chunk::{column_in_bounds, column_index, Chunk, BLOCK_SIZE};
use std::collections::HashSet;
use vstd::prelude::*;

verus! {

/// A corner of a body's bounding box on the horizontal plane, in whole world
/// units.
#[derive(Copy, Clone, Debug, PartialEq, Eq, Structural)]
pub struct Corner {
    pub x: i32,
    pub z: i32,
}

/// The four corners of a body's bounding box, in the order low `x` low `z`,
/// high `x` low `z`, low `x` high `z`, high `x` high `z`.
#[derive(Copy, Clone, Debug, PartialEq, Eq, Structural)]
pub struct Footprint {
    pub c0: Corner,
    pub c1: Corner,
    pub c2: Corner,
    pub c3: Corner,
}

/// The column that holds a corner: its coordinates divided by the block
/// size, rounded toward zero.
pub open spec fn corner_column(c: Corner) -> (int, int) {
    (spec_block_coord(c.x as int), spec_block_coord(c.z as int))
}

impl Footprint {
    /// Corner `i` of the four.
    pub open spec fn corner(self, i: int) -> Corner {
        if i == 0 {
            self.c0
        } else if i == 1 {
            self.c1
        } else if i == 2 {
            self.c2
        } else {
            self.c3
        }
    }

    /// Whether one of the four corners stands in column `(x, z)`.
    pub open spec fn covers(self, x: int, z: int) -> bool {
        corner_column(self.c0) == (x, z) || corner_column(self.c1) == (x, z) || corner_column(
            self.c2,
        ) == (x, z) || corner_column(self.c3) == (x, z)
    }
}

/// Whether `fp`, if there is one, covers column `(x, z)`.
pub open spec fn covered(fp: Option<Footprint>, x: int, z: int) -> bool {
    fp is Some && fp->0.covers(x, z)
}

/// The column sets after `entity` left the columns of `from` and entered
/// those of `to`.
pub open spec fn moved_columns(
    columns: Seq<Set<usize>>,
    entity: usize,
    from: Footprint,
    to: Option<Footprint>,
) -> Seq<Set<usize>> {
    Seq::new(
        columns.len(),
        |i: int|
            {
                let x = i % 32;
                let z = i / 32;
                if covered(to, x, z) {
                    columns[i].insert(entity)
                } else if from.covers(x, z) {
                    columns[i].remove(entity)
                } else {
                    columns[i]
                }
            },
    )
}

/// The column sets after `entity` left column `col`.
pub open spec fn without_at(columns: Seq<Set<usize>>, entity: usize, col: (int, int)) -> Seq<
    Set<usize>,
> {
    Seq::new(
        columns.len(),
        |i: int|
            if col == (i % 32, i / 32) {
                columns[i].remove(entity)
            } else {
                columns[i]
            },
    )
}

/// The column sets after `entity` entered column `col`.
pub open spec fn with_at(columns: Seq<Set<usize>>, entity: usize, col: (int, int)) -> Seq<
    Set<usize>,
> {
    Seq::new(
        columns.len(),
        |i: int|
            if col == (i % 32, i / 32) {
                columns[i].insert(entity)
            } else {
                columns[i]
            },
    )
}

/// Whether `entity` is registered over no column but those under `fp`.
pub open spec fn registered_within(chunk: &Chunk, entity: usize, fp: Footprint) -> bool {
    forall|x: int, z: int|
        column_in_bounds(x, z) && #[trigger] chunk.occupants(x, z).contains(entity) ==> fp.covers(
            x,
            z,
        )
}

/// Whether `entity` is registered over exactly the columns of the chunk
/// under `fp`.
pub open spec fn occupancy_consistent(chunk: &Chunk, entity: usize, fp: Footprint) -> bool {
    forall|x: int, z: int|
        column_in_bounds(x, z) ==> (#[trigger] chunk.occupants(x, z).contains(entity) <==> fp.covers(
            x,
            z,
        ))
}

/// A body on the grid.
#[derive(Copy, Clone, Debug)]
pub struct Actor {
    footprint: Footprint,
}

/// The column coordinate of a world coordinate.
fn column_coord(a: i32) -> (c: i32)
    ensures
        c as int == spec_block_coord(a as int),
{
    a / BLOCK_SIZE
}

/// Takes `entity` off the column under `corner`.
fn leave_column(chunk: &mut Chunk, entity: usize, corner: Corner)
    requires
        old(chunk).wf(),
    ensures
        final(chunk).wf(),
        final(chunk).blocks() == old(chunk).blocks(),
        final(chunk).dirty() == old(chunk).dirty(),
        final(chunk).columns() == without_at(old(chunk).columns(), entity, corner_column(corner)),
{
    chunk.remove_entity_from_block(entity, column_coord(corner.x), column_coord(corner.z));
    proof {
        let goal = without_at(old(chunk).columns(), entity, corner_column(corner));
        assert forall|i: int| 0 <= i < 1024 implies #[trigger] chunk.columns()[i] == goal[i] by {
            assert(column_index(i % 32, i / 32) == i);
        }
        assert(chunk.columns() =~= goal);
    }
}

/// Registers `entity` over the column under `corner`.
fn enter_column(chunk: &mut Chunk, entity: usize, corner: Corner)
    requires
        old(chunk).wf(),
    ensures
        final(chunk).wf(),
        final(chunk).blocks() == old(chunk).blocks(),
        final(chunk).dirty() == old(chunk).dirty(),
        final(chunk).columns() == with_at(old(chunk).columns(), entity, corner_column(corner)),
{
    chunk.add_entity_to_block(entity, column_coord(corner.x), column_coord(corner.z));
    proof {
        let goal = with_at(old(chunk).columns(), entity, corner_column(corner));
        assert forall|i: int| 0 <= i < 1024 implies #[trigger] chunk.columns()[i] == goal[i] by {
            assert(column_index(i % 32, i / 32) == i);
        }
        assert(chunk.columns() =~= goal);
    }
}

impl Actor {
    /// The corners of the body where it stands.
    pub closed spec fn spec_footprint(&self) -> Footprint {
        self.footprint
    }

    /// A body that stands on `footprint`. It is registered over no column
    /// until it first moves.
    pub fn new(footprint: Footprint) -> (actor: Self)
        ensures
            actor.spec_footprint() == footprint,
    {
        Self { footprint }
    }

    /// The corners of the body where it stands.
    pub fn footprint(&self) -> (footprint: Footprint)
        ensures
            footprint == self.spec_footprint(),
    {
        self.footprint
    }

    /// Puts the body somewhere else without telling the chunk.
    pub fn teleport(&mut self, footprint: Footprint)
        ensures
            final(self).spec_footprint() == footprint,
    {
        self.footprint = footprint;
    }

    /// Tries to move the body to `destination`. `xs`, `ys` and `zs` are the
    /// sample cells of the body's box there. Unless `no_clip` is set, the
    /// move is refused where a sample is solid, and nothing changes. Else
    /// the body stands on `destination`, and `entity` has left the columns
    /// under its old corners and entered those under the new ones.
    pub fn step(
        &mut self,
        entity: usize,
        destination: Footprint,
        xs: &Vec<i32>,
        ys: &Vec<i32>,
        zs: &Vec<i32>,
        chunk: &mut Chunk,
        no_clip: bool,
    ) -> (moved: bool)
        requires
            old(chunk).wf(),
        ensures
            final(chunk).wf(),
            moved == (no_clip || lattice_clear(old(chunk), xs@, ys@, zs@, xs@.len() as int)),
            final(chunk).blocks() == old(chunk).blocks(),
            final(chunk).dirty() == old(chunk).dirty(),
            !moved ==> final(self).spec_footprint() == old(self).spec_footprint(),
            !moved ==> final(chunk).columns() == old(chunk).columns(),
            moved ==> final(self).spec_footprint() == destination,
            moved ==> final(chunk).columns() == moved_columns(
                old(chunk).columns(),
                entity,
                old(self).spec_footprint(),
                Some(destination),
            ),
    {
        if !no_clip && chunk.get_block_collision(xs, ys, zs).is_some() {
            return false;
        }
        self.update_occupied_blocks(entity, chunk, Some(destination));
        self.footprint = destination;
        true
    }

    /// Takes `entity` off the columns under the body's corners and, where a
    /// new footprint is given, registers it over the columns under that.
    pub fn update_occupied_blocks(
        &self,
        entity: usize,
        chunk: &mut Chunk,
        new_footprint: Option<Footprint>,
    )
        requires
            old(chunk).wf(),
        ensures
            final(chunk).wf(),
            final(chunk).blocks() == old(chunk).blocks(),
            final(chunk).dirty() == old(chunk).dirty(),
            final(chunk).columns() == moved_columns(
                old(chunk).columns(),
                entity,
                self.spec_footprint(),
                new_footprint,
            ),
    {
        let old_fp = self.footprint;
        leave_column(chunk, entity, old_fp.c0);
        leave_column(chunk, entity, old_fp.c1);
        leave_column(chunk, entity, old_fp.c2);
        leave_column(chunk, entity, old_fp.c3);
        if let Some(fp) = new_footprint {
            enter_column(chunk, entity, fp.c0);
            enter_column(chunk, entity, fp.c1);
            enter_column(chunk, entity, fp.c2);
            enter_column(chunk, entity, fp.c3);
        }
        proof {
            let goal = moved_columns(
                old(chunk).columns(),
                entity,
                self.spec_footprint(),
                new_footprint,
            );
            assert forall|i: int| 0 <= i < 1024 implies #[trigger] chunk.columns()[i] =~= goal[i] by {}
            assert(chunk.columns() =~= goal);
        }
    }

    /// Gathers the entities registered over the columns under the body's
    /// corners.
    pub fn get_nearby_entities(&self, chunk: &Chunk, nearby_entities: &mut HashSet<usize>)
        requires
            chunk.wf(),
        ensures
            forall|e: usize|
                final(nearby_entities)@.contains(e) <==> exists|x: int, z: int|
                    self.spec_footprint().covers(x, z) && #[trigger] chunk.occupants(x, z).contains(
                        e,
                    ),
    {
        nearby_entities.clear();
        let fp = self.footprint;
        let ghost c0 = corner_column(fp.c0);
        let ghost c1 = corner_column(fp.c1);
        let ghost c2 = corner_column(fp.c2);
        let ghost c3 = corner_column(fp.c3);
        if let Some(found) = chunk.entities_at_block(column_coord(fp.c0.x), column_coord(fp.c0.z)) {
            collect_entities(nearby_entities, found);
        }
        if let Some(found) = chunk.entities_at_block(column_coord(fp.c1.x), column_coord(fp.c1.z)) {
            collect_entities(nearby_entities, found);
        }
        if let Some(found) = chunk.entities_at_block(column_coord(fp.c2.x), column_coord(fp.c2.z)) {
            collect_entities(nearby_entities, found);
        }
        if let Some(found) = chunk.entities_at_block(column_coord(fp.c3.x), column_coord(fp.c3.z)) {
            collect_entities(nearby_entities, found);
        }
        proof {
            assert(nearby_entities@ =~= chunk.occupants(c0.0, c0.1).union(
                chunk.occupants(c1.0, c1.1),
            ).union(chunk.occupants(c2.0, c2.1)).union(chunk.occupants(c3.0, c3.1)));
            assert forall|e: usize| nearby_entities@.contains(e) implies exists|x: int, z: int|
                self.spec_footprint().covers(x, z) && #[trigger] chunk.occupants(x, z).contains(
                    e,
                ) by {
                if chunk.occupants(c0.0, c0.1).contains(e) {
                    assert(self.spec_footprint().covers(c0.0, c0.1));
                } else if chunk.occupants(c1.0, c1.1).contains(e) {
                    assert(self.spec_footprint().covers(c1.0, c1.1));
                } else if chunk.occupants(c2.0, c2.1).contains(e) {
                    assert(self.spec_footprint().covers(c2.0, c2.1));
                } else {
                    assert(chunk.occupants(c3.0, c3.1).contains(e));
                    assert(self.spec_footprint().covers(c3.0, c3.1));
                }
            }
        }
    }
}

/// After a move, the entity is registered over exactly the columns of the
/// chunk that its new footprint covers, provided that before the move it was
/// registered over no column outside its old footprint. Every other entity
/// is registered where it was.
pub proof fn lemma_move_keeps_occupancy(
    before: &Chunk,
    after: &Chunk,
    entity: usize,
    from: Footprint,
    to: Footprint,
)
    requires
        before.wf(),
        after.wf(),
        registered_within(before, entity, from),
        after.columns() == moved_columns(before.columns(), entity, from, Some(to)),
    ensures
        occupancy_consistent(after, entity, to),
        registered_within(after, entity, to),
        forall|other: usize, x: int, z: int|
            other != entity ==> (#[trigger] after.occupants(x, z).contains(other)
                <==> before.occupants(x, z).contains(other)),
{
    assert forall|x: int, z: int| column_in_bounds(x, z) implies (#[trigger] after.occupants(
        x,
        z,
    ).contains(entity) <==> to.covers(x, z)) by {
        let i = column_index(x, z);
        assert(i % 32 == x && i / 32 == z);
        if !to.covers(x, z) && !from.covers(x, z) {
            assert(!before.occupants(x, z).contains(entity));
        }
    }
    assert forall|other: usize, x: int, z: int| other != entity implies (#[trigger] after.occupants(
        x,
        z,
    ).contains(other) <==> before.occupants(x, z).contains(other)) by {
        if column_in_bounds(x, z) {
            let i = column_index(x, z);
            assert(i % 32 == x && i / 32 == z);
        }
    }
}

/// Once an entity has left its columns, it is registered over none,
/// provided that it was registered over no column outside its footprint.
pub proof fn lemma_leave_clears_occupancy(
    before: &Chunk,
    after: &Chunk,
    entity: usize,
    from: Footprint,
)
    requires
        before.wf(),
        after.wf(),
        registered_within(before, entity, from),
        after.columns() == moved_columns(before.columns(), entity, from, None),
    ensures
        forall|x: int, z: int| !(#[trigger] after.occupants(x, z).contains(entity)),
{
    assert forall|x: int, z: int| !(#[trigger] after.occupants(x, z).contains(entity)) by {
        if column_in_bounds(x, z) {
            let i = column_index(x, z);
            assert(i % 32 == x && i / 32 == z);
            if !from.covers(x, z) {
                assert(!before.occupants(x, z).contains(entity));
            }
        }
    }
}

} // verus!
