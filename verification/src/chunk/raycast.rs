//! Rays over the grid: a walk from cell to cell until a block is met.

use crate::chunk::{cell_of, Cell, Chunk};
use crate::direction::{dir_to_offset, spec_dir_to_offset, Direction};
use std::collections::HashSet;
use vstd::prelude::*;
use vstd::std_specs::iter::IteratorSpec;

verus! {

broadcast use vstd::std_specs::hash::group_hash_axioms;

/// The outcome of a ray that met a block.
#[derive(Copy, Clone, Debug, PartialEq, Eq, Structural)]
pub struct RaycastHit {
    /// How many steps the ray took before it met the block.
    pub steps: usize,
    /// The blocking cell.
    pub position: Cell,
    /// The cell the ray was in just before: the start cell where it took no
    /// step.
    pub last_position: Cell,
}

/// The cell that a ray from `start` is in after the first `n` of `steps`.
pub open spec fn ray_cell(start: Cell, steps: Seq<Direction>, n: int) -> (int, int, int)
    decreases n,
{
    if n <= 0 {
        (start.x as int, start.y as int, start.z as int)
    } else {
        let c = ray_cell(start, steps, n - 1);
        let o = spec_dir_to_offset(steps[n - 1]);
        (c.0 + o.0, c.1 + o.1, c.2 + o.2)
    }
}

/// The entities over the columns that the ray crosses in its first `n` cells.
pub open spec fn ray_entities(chunk: &Chunk, start: Cell, steps: Seq<Direction>, n: int) -> Set<
    usize,
>
    decreases n,
{
    if n <= 0 {
        Set::empty()
    } else {
        let c = ray_cell(start, steps, n - 1);
        ray_entities(chunk, start, steps, n - 1).union(chunk.occupants(c.0, c.2))
    }
}

/// Whether the ray is still in the open after `n` steps: none of its cells so
/// far blocks.
pub open spec fn ray_clear(chunk: &Chunk, start: Cell, steps: Seq<Direction>, n: int) -> bool {
    forall|k: int|
        0 <= k <= n ==> {
            let c = #[trigger] ray_cell(start, steps, k);
            !chunk.solid(c.0, c.1, c.2)
        }
}

/// Whether the ray meets its first blocking cell after exactly `n` steps.
pub open spec fn ray_first_hit(chunk: &Chunk, start: Cell, steps: Seq<Direction>, n: int) -> bool {
    let c = ray_cell(start, steps, n);
    0 <= n <= steps.len() && chunk.solid(c.0, c.1, c.2) && (n > 0 ==> ray_clear(
        chunk,
        start,
        steps,
        n - 1,
    ))
}

/// Puts every entity of `from` into `into`.
pub fn collect_entities(into: &mut HashSet<usize>, from: &HashSet<usize>)
    ensures
        final(into)@ == old(into)@.union(from@),
{
    let ghost all = from.iter().remaining().unref();
    let ghost mut done: int = 0;
    for e in iter: from.iter()
        invariant
            all.to_set() == from@,
            iter.seq().unref() == all,
            done == iter.index(),
            forall|x: usize|
                into@.contains(x) <==> old(into)@.contains(x) || exists|k: int|
                    0 <= k < done && #[trigger] all[k] == x,
    {
        into.insert(*e);
        proof {
            assert(all[done] == *e);
            done = done + 1;
        }
    }
    proof {
        assert forall|x: usize| into@.contains(x) <==> old(into)@.union(from@).contains(x) by {
            if from@.contains(x) {
                assert(all.to_set().contains(x));
                assert(all.contains(x));
            }
            if exists|k: int| 0 <= k < done && #[trigger] all[k] == x {
                assert(all.contains(x));
            }
        }
        assert(into@ =~= old(into)@.union(from@));
    }
}

impl Chunk {
    /// Walks a ray cell by cell until it meets a blocking cell or runs out of
    /// steps.
    fn walk_ray(&self, start: Cell, steps: &Vec<Direction>) -> (hit: Option<RaycastHit>)
        requires
            self.wf(),
        ensures
            match hit {
                Some(h) => {
                    &&& ray_first_hit(self, start, steps@, h.steps as int)
                    &&& h.position == cell_of(ray_cell(start, steps@, h.steps as int))
                    &&& h.last_position == cell_of(ray_cell(start, steps@, h.steps - 1))
                },
                None => ray_clear(self, start, steps@, steps@.len() as int),
            },
    {
        let mut block_pos = start;
        let mut last_pos = start;
        let mut n: usize = 0;
        let mut hit_block = self.get_block(block_pos.x, block_pos.y, block_pos.z);
        while !hit_block && n < steps.len()
            invariant
                self.wf(),
                n <= steps.len(),
                (block_pos.x as int, block_pos.y as int, block_pos.z as int) == ray_cell(
                    start,
                    steps@,
                    n as int,
                ),
                last_pos == cell_of(ray_cell(start, steps@, n - 1)),
                hit_block == self.solid(block_pos.x as int, block_pos.y as int, block_pos.z as int),
                n > 0 ==> ray_clear(self, start, steps@, n - 1),
            decreases steps.len() - n,
        {
            last_pos = block_pos;
            let offset = dir_to_offset(steps[n]);
            block_pos = Cell {
                x: block_pos.x + offset.0,
                y: block_pos.y + offset.1,
                z: block_pos.z + offset.2,
            };
            n += 1;
            hit_block = self.get_block(block_pos.x, block_pos.y, block_pos.z);
        }
        if !hit_block {
            None
        } else {
            Some(RaycastHit { steps: n, position: block_pos, last_position: last_pos })
        }
    }

    /// Gathers the entities over the columns of the first `n` cells of a ray
    /// none of whose first `n` cells blocks.
    fn collect_ray_entities(
        &self,
        start: Cell,
        steps: &Vec<Direction>,
        n: usize,
        hit_entities: &mut HashSet<usize>,
    )
        requires
            self.wf(),
            n <= steps.len(),
            n > 0 ==> ray_clear(self, start, steps@, n - 1),
        ensures
            final(hit_entities)@ == ray_entities(self, start, steps@, n as int),
    {
        hit_entities.clear();
        let mut block_pos = start;
        let mut k: usize = 0;
        while k < n
            invariant
                self.wf(),
                k <= n <= steps.len(),
                n > 0 ==> ray_clear(self, start, steps@, n - 1),
                (block_pos.x as int, block_pos.y as int, block_pos.z as int) == ray_cell(
                    start,
                    steps@,
                    k as int,
                ),
                hit_entities@ == ray_entities(self, start, steps@, k as int),
            decreases n - k,
        {
            if let Some(entities_at_block) = self.entities_at_block(block_pos.x, block_pos.z) {
                collect_entities(hit_entities, entities_at_block);
            }
            proof {
                let c = ray_cell(start, steps@, k as int);
                assert(!self.solid(c.0, c.1, c.2));
                assert(hit_entities@ =~= ray_entities(self, start, steps@, k + 1));
            }
            let offset = dir_to_offset(steps[k]);
            block_pos = Cell {
                x: block_pos.x + offset.0,
                y: block_pos.y + offset.1,
                z: block_pos.z + offset.2,
            };
            k += 1;
        }
    }

    /// Casts a ray over the grid. The ray begins in cell `start` and `steps`
    /// lists the faces it leaves its cells through, one per step, as far as
    /// its range goes. It stops in the first blocking cell it meets, the
    /// start cell included; without one there is no hit. Where a set is
    /// given, it is emptied and then filled with the entities over the
    /// columns of the cells that the ray crossed before it stopped.
    pub fn raycast(
        &self,
        start: Cell,
        steps: &Vec<Direction>,
        hit_entities: Option<&mut HashSet<usize>>,
    ) -> (hit: Option<RaycastHit>)
        requires
            self.wf(),
        ensures
            match hit {
                Some(h) => {
                    &&& ray_first_hit(self, start, steps@, h.steps as int)
                    &&& h.position == cell_of(ray_cell(start, steps@, h.steps as int))
                    &&& h.last_position == cell_of(ray_cell(start, steps@, h.steps - 1))
                },
                None => ray_clear(self, start, steps@, steps@.len() as int),
            },
            hit_entities matches Some(set) ==> final(set)@ == ray_entities(
                self,
                start,
                steps@,
                match hit {
                    Some(h) => h.steps as int,
                    None => steps@.len() as int,
                },
            ),
    {
        let hit = self.walk_ray(start, steps);
        let crossed = match hit {
            Some(h) => h.steps,
            None => steps.len(),
        };
        match hit_entities {
            Some(set) => self.collect_ray_entities(start, steps, crossed, set),
            None => {},
        }
        hit
    }
}

} // verus!
