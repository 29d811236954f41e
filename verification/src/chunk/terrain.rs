//! Filling the chunk with blocks, and finding an empty cell to spawn in.

use crate::chunk::{cell_at, cell_of, Cell, Chunk, CHUNK_LEN, COLUMN_COUNT};
use crate::rng::{next_state, Rng};
use vstd::prelude::*;

verus! {

/// The grid place that lies `offset` places after `start`, going round.
pub open spec fn cyclic_place(start: int, offset: int) -> int {
    (start + offset) % 8192
}

/// The state of a generator after `n` draws from state `s`.
pub open spec fn state_after(s: u32, n: nat) -> u32
    decreases n,
{
    if n == 0 {
        s
    } else {
        next_state(state_after(s, (n - 1) as nat))
    }
}

/// Whether the cyclic scan from place `start` finds its first empty block
/// `offset` places on.
pub open spec fn spawn_first_empty(chunk: &Chunk, start: int, offset: int) -> bool {
    &&& 0 <= offset < 8192
    &&& !chunk.solid_at(cyclic_place(start, offset))
    &&& forall|k: int| 0 <= k < offset ==> chunk.solid_at(#[trigger] cyclic_place(start, k))
}

/// The place at which the scan for a spawn cell begins, for a generator in
/// state `s`: its next draw, reduced to the size of the grid.
pub open spec fn spawn_start(s: u32) -> int {
    (next_state(s) % 8192) as int
}

/// The column number of the block at place `i`.
pub open spec fn column_of_place(i: int) -> int {
    cell_at(i).0 + cell_at(i).2 * 32
}

/// The grid after the floor was laid over the first `floor_done` columns and
/// the second layer was scattered over the first `scatter_done` columns, from
/// the grid `before` and a generator in state `seed`. Columns are taken in
/// the order of their index. The floor is level 0; on level 1 a column gets
/// a block where its draw modulo 100 is at most 10.
pub open spec fn generated_blocks(
    before: Seq<bool>,
    seed: u32,
    floor_done: int,
    scatter_done: int,
) -> Seq<bool> {
    Seq::new(
        8192,
        |i: int|
            {
                let col = column_of_place(i);
                if cell_at(i).1 == 0 && col < floor_done {
                    true
                } else if cell_at(i).1 == 1 && col < scatter_done && state_after(
                    seed,
                    (col + 1) as nat,
                ) % 100 <= 10 {
                    true
                } else {
                    before[i]
                }
            },
    )
}

impl Chunk {
    /// Picks an empty cell: draws a place of the grid and scans forward from
    /// it, going round, to the first empty block. There is none only where
    /// the whole grid is solid.
    pub fn get_spawn_position(&self, rng: &mut Rng) -> (cell: Option<Cell>)
        requires
            self.wf(),
        ensures
            final(rng).state() == next_state(old(rng).state()),
            match cell {
                Some(c) => exists|offset: int|
                    spawn_first_empty(self, spawn_start(old(rng).state()), offset) && c == cell_of(
                        cell_at(cyclic_place(spawn_start(old(rng).state()), offset)),
                    ),
                None => forall|i: int| 0 <= i < 8192 ==> #[trigger] self.solid_at(i),
            },
    {
        let start_i = rng.range(8192) as usize;
        let mut offset_i: usize = 0;
        while offset_i < CHUNK_LEN
            invariant
                self.wf(),
                offset_i <= CHUNK_LEN,
                start_i == spawn_start(old(rng).state()),
                rng.state() == next_state(old(rng).state()),
                forall|k: int|
                    0 <= k < offset_i ==> self.solid_at(#[trigger] cyclic_place(start_i as int, k)),
            decreases CHUNK_LEN - offset_i,
        {
            let i = (start_i + offset_i) % CHUNK_LEN;
            let x = (i % 32) as i32;
            let y = ((i / 32) % 8) as i32;
            let z = (i / 256) as i32;
            if !self.get_block(x, y, z) {
                assert(spawn_first_empty(self, start_i as int, offset_i as int));
                return Some(Cell { x, y, z });
            }
            offset_i += 1;
        }
        proof {
            assert forall|i: int| 0 <= i < 8192 implies #[trigger] self.solid_at(i) by {
                let k = (i + 8192 - start_i) % 8192;
                assert(cyclic_place(start_i as int, k) == i);
            }
        }
        None
    }

    /// Fills the chunk: a solid floor on level 0, and on level 1 a block over
    /// each column for which the generator draws at most 10 out of 100. One
    /// number is drawn per column, in the order of the columns.
    pub fn generate_blocks(&mut self, rng: &mut Rng)
        requires
            old(self).wf(),
        ensures
            final(self).wf(),
            final(self).dirty(),
            final(self).columns() == old(self).columns(),
            final(self).blocks() == generated_blocks(
                old(self).blocks(),
                old(rng).state(),
                1024,
                1024,
            ),
            final(rng).state() == state_after(old(rng).state(), 1024),
    {
        let mut c: usize = 0;
        while c < COLUMN_COUNT
            invariant
                self.wf(),
                c <= COLUMN_COUNT,
                c > 0 ==> self.dirty(),
                self.columns() == old(self).columns(),
                self.blocks() == generated_blocks(old(self).blocks(), old(rng).state(), c as int, 0),
                rng.state() == old(rng).state(),
            decreases COLUMN_COUNT - c,
        {
            let x = (c % 32) as i32;
            let z = (c / 32) as i32;
            self.set_block(true, x, 0, z);
            proof {
                assert(self.blocks() =~= generated_blocks(
                    old(self).blocks(),
                    old(rng).state(),
                    c + 1,
                    0,
                ));
            }
            c += 1;
        }
        let mut c: usize = 0;
        while c < COLUMN_COUNT
            invariant
                self.wf(),
                c <= COLUMN_COUNT,
                self.dirty(),
                self.columns() == old(self).columns(),
                self.blocks() == generated_blocks(
                    old(self).blocks(),
                    old(rng).state(),
                    1024,
                    c as int,
                ),
                rng.state() == state_after(old(rng).state(), c as nat),
            decreases COLUMN_COUNT - c,
        {
            let x = (c % 32) as i32;
            let z = (c / 32) as i32;
            let draw = rng.range(100);
            if draw <= 10 {
                self.set_block(true, x, 1, z);
            }
            proof {
                assert(self.blocks() =~= generated_blocks(
                    old(self).blocks(),
                    old(rng).state(),
                    1024,
                    c + 1,
                ));
            }
            c += 1;
        }
    }
}

} // verus!
