//! The box-against-blocks test: a lattice of sample cells, scanned for the
//! first solid one.

use crate::chunk::{Cell, Chunk};
use vstd::prelude::*;

verus! {

/// No sample `(i, j, k')` with `k' < k` is solid.
pub open spec fn run_clear(
    chunk: &Chunk,
    xs: Seq<i32>,
    ys: Seq<i32>,
    zs: Seq<i32>,
    i: int,
    j: int,
    k: int,
) -> bool {
    forall|c: int| 0 <= c < k && c < zs.len() ==> !chunk.solid(xs[i] as int, ys[j] as int, #[trigger] zs[c] as int)
}

/// No sample `(i, j', k)` with `j' < j` is solid.
pub open spec fn row_clear(chunk: &Chunk, xs: Seq<i32>, ys: Seq<i32>, zs: Seq<i32>, i: int, j: int) -> bool {
    forall|b: int, c: int|
        0 <= b < j && b < ys.len() && 0 <= c < zs.len() ==> !chunk.solid(
            xs[i] as int,
            #[trigger] ys[b] as int,
            #[trigger] zs[c] as int,
        )
}

/// No sample `(i', j, k)` with `i' < i` is solid.
pub open spec fn lattice_clear(chunk: &Chunk, xs: Seq<i32>, ys: Seq<i32>, zs: Seq<i32>, i: int) -> bool {
    forall|a: int, b: int, c: int|
        0 <= a < i && a < xs.len() && 0 <= b < ys.len() && 0 <= c < zs.len() ==> !chunk.solid(
            #[trigger] xs[a] as int,
            #[trigger] ys[b] as int,
            #[trigger] zs[c] as int,
        )
}

/// Sample `(i, j, k)` is solid and no sample before it, in scan order, is.
pub open spec fn lattice_first_hit(
    chunk: &Chunk,
    xs: Seq<i32>,
    ys: Seq<i32>,
    zs: Seq<i32>,
    i: int,
    j: int,
    k: int,
) -> bool {
    &&& 0 <= i < xs.len() && 0 <= j < ys.len() && 0 <= k < zs.len()
    &&& chunk.solid(xs[i] as int, ys[j] as int, zs[k] as int)
    &&& lattice_clear(chunk, xs, ys, zs, i)
    &&& row_clear(chunk, xs, ys, zs, i, j)
    &&& run_clear(chunk, xs, ys, zs, i, j, k)
}

impl Chunk {
    /// Tests a lattice of sample cells for a solid block. The samples are all
    /// combinations of one entry of `xs`, one of `ys` and one of `zs`, taken
    /// with `x` slowest and `z` fastest; the first solid one is returned.
    pub fn get_block_collision(&self, xs: &Vec<i32>, ys: &Vec<i32>, zs: &Vec<i32>) -> (hit: Option<
        Cell,
    >)
        requires
            self.wf(),
        ensures
            match hit {
                Some(cell) => exists|i: int, j: int, k: int|
                    lattice_first_hit(self, xs@, ys@, zs@, i, j, k) && cell == (Cell {
                        x: xs@[i],
                        y: ys@[j],
                        z: zs@[k],
                    }),
                None => lattice_clear(self, xs@, ys@, zs@, xs@.len() as int),
            },
    {
        let mut i: usize = 0;
        while i < xs.len()
            invariant
                self.wf(),
                i <= xs.len(),
                lattice_clear(self, xs@, ys@, zs@, i as int),
            decreases xs.len() - i,
        {
            let mut j: usize = 0;
            while j < ys.len()
                invariant
                    self.wf(),
                    i < xs.len(),
                    j <= ys.len(),
                    lattice_clear(self, xs@, ys@, zs@, i as int),
                    row_clear(self, xs@, ys@, zs@, i as int, j as int),
                decreases ys.len() - j,
            {
                let mut k: usize = 0;
                while k < zs.len()
                    invariant
                        self.wf(),
                        i < xs.len(),
                        j < ys.len(),
                        k <= zs.len(),
                        lattice_clear(self, xs@, ys@, zs@, i as int),
                        row_clear(self, xs@, ys@, zs@, i as int, j as int),
                        run_clear(self, xs@, ys@, zs@, i as int, j as int, k as int),
                    decreases zs.len() - k,
                {
                    if self.get_block(xs[i], ys[j], zs[k]) {
                        assert(lattice_first_hit(self, xs@, ys@, zs@, i as int, j as int, k as int));
                        return Some(Cell { x: xs[i], y: ys[j], z: zs[k] });
                    }
                    k += 1;
                }
                j += 1;
            }
            i += 1;
        }
        None
    }
}

} // verus!
