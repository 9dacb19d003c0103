//! The two-buffer engine that advances the grid one synchronous generation
//! at a time.
//!
//! The engine owns the authoritative `cells` grid and a scratch `cell_cache`
//! grid. One [`Engine::generate`] call snapshots `cells` into the cache,
//! scans the frozen snapshot, and applies Conway's rule to the live grid
//! cell by cell. Because `spawn` and `kill_cell` adjust the neighbors'
//! cached counts as a side effect, the live grid leaves the scan with counts
//! already correct for the next generation; no recounting pass exists.

use vstd::prelude::*;

use crate::gol::types::cell_array::CellArray;
use crate::torus::{
    alive_at, counts_consistent, lemma_flat_index_bounds, lemma_flat_index_injective,
    life_rule, live_neighbors, stepped, CellState,
};

verus! {

/// A simulation: the visible grid, and the scratch snapshot used during one
/// generation step. Between steps the snapshot's contents are stale.
pub struct Engine<const H: usize, const W: usize> {
    cells: CellArray<H, W>,
    cell_cache: CellArray<H, W>,
}

impl<const H: usize, const W: usize> Engine<H, W> {
    /// The modelled contents of the visible grid.
    pub closed spec fn grid(&self) -> Seq<CellState> {
        self.cells.grid()
    }

    /// Both grids are full-sized and the visible grid's cached neighbor
    /// counts are correct.
    pub closed spec fn wf(&self) -> bool {
        &&& self.cells.wf()
        &&& self.cell_cache.wf()
        &&& counts_consistent(self.cells.grid(), W as int, H as int)
        &&& W <= isize::MAX
        &&& H <= isize::MAX
    }

    /// A fresh simulation: all cells dead, all counts zero.
    pub fn new() -> (r: Engine<H, W>)
        requires
            0 < H,
            0 < W,
            W * H <= isize::MAX,
        ensures
            r.wf(),
            r.grid().len() == W * H,
            forall|j: int|
                0 <= j < r.grid().len() ==> #[trigger] r.grid()[j] == (CellState {
                    alive: false,
                    count: 0,
                }),
    {
        proof {
            assert(W as int <= (W as int) * (H as int) && H as int <= (W as int) * (H as int))
                by (nonlinear_arith)
                requires
                    1 <= W,
                    1 <= H,
            ;
        }
        Engine::<H, W> { cells: CellArray::new(), cell_cache: CellArray::new() }
    }

    /// Spawns each dead cell with probability one half, keeping the cached
    /// neighbor counts consistent. Cells that were already alive stay alive;
    /// which dead cells come to life depends on the random draws.
    pub fn randomize(&mut self)
        requires
            old(self).wf(),
        ensures
            final(self).wf(),
            final(self).grid().len() == old(self).grid().len(),
            forall|j: int|
                0 <= j < old(self).grid().len() && old(self).grid()[j].alive ==> (#[trigger] final(self).grid()[j]).alive,
    {
        let ghost g0 = self.cells.grid();
        let mut y: usize = 0;
        while y < H
            invariant
                y <= H,
                W <= isize::MAX,
                H <= isize::MAX,
                self.cell_cache.wf(),
                self.cells.wf(),
                counts_consistent(self.cells.grid(), W as int, H as int),
                self.cells.grid().len() == g0.len(),
                forall|j: int|
                    0 <= j < g0.len() && g0[j].alive ==> (#[trigger] self.cells.grid()[j]).alive,
            decreases H - y,
        {
            let mut x: usize = 0;
            while x < W
                invariant
                    x <= W,
                    y < H,
                    W <= isize::MAX,
                    H <= isize::MAX,
                    self.cell_cache.wf(),
                    self.cells.wf(),
                    counts_consistent(self.cells.grid(), W as int, H as int),
                    self.cells.grid().len() == g0.len(),
                    forall|j: int|
                        0 <= j < g0.len() && g0[j].alive ==> (#[trigger] self.cells.grid()[
                            j
                        ]).alive,
                decreases W - x,
            {
                let target_alive = self.cells.cell(x as isize, y as isize).alive();
                if !target_alive && random_bool() {
                    let ghost gb = self.cells.grid();
                    self.cells.spawn(x as isize, y as isize);
                    proof {
                        assert forall|j: int| 0 <= j < g0.len() && g0[j].alive implies (
                        #[trigger] self.cells.grid()[j]).alive by {
                            assert(self.cells.grid()[j].alive == (gb[j].alive || j
                                == crate::torus::flat_index(
                                x as int,
                                y as int,
                                W as int,
                                H as int,
                            )));
                        }
                    }
                }
                x = x + 1;
            }
            y = y + 1;
        }
    }

    /// Advances the simulation one synchronous generation: every cell's new
    /// alive flag is Conway's rule applied to its old flag and its old
    /// live-neighbor count, and the cached counts leave the step consistent
    /// with the new pattern.
    #[verifier::rlimit(100)]
    #[verifier::spinoff_prover]
    pub fn generate(&mut self)
        requires
            old(self).wf(),
        ensures
            final(self).wf(),
            final(self).grid().len() == old(self).grid().len(),
            stepped(old(self).grid(), final(self).grid(), W as int, H as int),
    {
        let ghost wi = W as int;
        let ghost hi = H as int;
        let ghost gc = self.cells.grid();
        self.cells.clone_into(&mut self.cell_cache);
        let mut y: usize = 0;
        while y < H
            invariant
                y <= H,
                W <= isize::MAX,
                H <= isize::MAX,
                wi == W as int,
                hi == H as int,
                self.cell_cache.grid() == gc,
                self.cell_cache.wf(),
                counts_consistent(gc, wi, hi),
                self.cells.wf(),
                counts_consistent(self.cells.grid(), wi, hi),
                self.cells.grid().len() == gc.len(),
                forall|cx: int, cy: int|
                    0 <= cx < wi && 0 <= cy < hi && cy < y ==> #[trigger] alive_at(
                        self.cells.grid(),
                        wi,
                        hi,
                        cx,
                        cy,
                    ) == life_rule(alive_at(gc, wi, hi, cx, cy), live_neighbors(gc, wi, hi, cx, cy)),
                forall|cx: int, cy: int|
                    0 <= cx < wi && 0 <= cy < hi && cy >= y ==> #[trigger] alive_at(
                        self.cells.grid(),
                        wi,
                        hi,
                        cx,
                        cy,
                    ) == alive_at(gc, wi, hi, cx, cy),
            decreases H - y,
        {
            let mut x: usize = 0;
            while x < W
                invariant
                    x <= W,
                    y < H,
                    W <= isize::MAX,
                    H <= isize::MAX,
                    wi == W as int,
                    hi == H as int,
                    self.cell_cache.grid() == gc,
                    self.cell_cache.wf(),
                    counts_consistent(gc, wi, hi),
                    self.cells.wf(),
                    counts_consistent(self.cells.grid(), wi, hi),
                    self.cells.grid().len() == gc.len(),
                    forall|cx: int, cy: int|
                        0 <= cx < wi && 0 <= cy < hi && (cy < y || (cy == y && cx < x))
                            ==> #[trigger] alive_at(self.cells.grid(), wi, hi, cx, cy) == life_rule(
                            alive_at(gc, wi, hi, cx, cy),
                            live_neighbors(gc, wi, hi, cx, cy),
                        ),
                    forall|cx: int, cy: int|
                        0 <= cx < wi && 0 <= cy < hi && (cy > y || (cy == y && cx >= x))
                            ==> #[trigger] alive_at(self.cells.grid(), wi, hi, cx, cy) == alive_at(
                            gc,
                            wi,
                            hi,
                            cx,
                            cy,
                        ),
                decreases W - x,
            {
                let ghost xi = x as int;
                let ghost yi = y as int;
                let ghost gb = self.cells.grid();
                let cached = *self.cell_cache.cell(x as isize, y as isize);
                let cached_alive = cached.alive();
                let neighbour_count = cached.neighbours();
                proof {
                    assert((x as isize) as int == x as int);
                    assert((y as isize) as int == y as int);
                    assert(alive_at(gc, wi, hi, xi, yi) == cached_alive);
                    assert(cached@.count == live_neighbors(gc, wi, hi, xi, yi));
                    lemma_flat_index_bounds(xi, yi, wi, hi);
                }
                if cached_alive {
                    if neighbour_count < 2 || neighbour_count > 3 {
                        self.cells.kill_cell(x as isize, y as isize);
                    }
                } else {
                    if neighbour_count == 3 {
                        self.cells.spawn(x as isize, y as isize);
                    }
                }
                proof {
                    let gn = self.cells.grid();
                    assert forall|cx: int, cy: int|
                        0 <= cx < wi && 0 <= cy < hi && (cy < yi || (cy == yi && cx < xi
                            + 1)) implies #[trigger] alive_at(gn, wi, hi, cx, cy) == life_rule(
                        alive_at(gc, wi, hi, cx, cy),
                        live_neighbors(gc, wi, hi, cx, cy),
                    ) by {
                        lemma_flat_index_bounds(cx, cy, wi, hi);
                        lemma_flat_index_injective(cx, cy, xi, yi, wi, hi);
                        assert(alive_at(gb, wi, hi, cx, cy) == gb[crate::torus::flat_index(
                            cx,
                            cy,
                            wi,
                            hi,
                        )].alive);
                    }
                    assert forall|cx: int, cy: int|
                        0 <= cx < wi && 0 <= cy < hi && (cy > yi || (cy == yi && cx >= xi
                            + 1)) implies #[trigger] alive_at(gn, wi, hi, cx, cy) == alive_at(
                        gc,
                        wi,
                        hi,
                        cx,
                        cy,
                    ) by {
                        lemma_flat_index_bounds(cx, cy, wi, hi);
                        lemma_flat_index_injective(cx, cy, xi, yi, wi, hi);
                        assert(alive_at(gb, wi, hi, cx, cy) == gb[crate::torus::flat_index(
                            cx,
                            cy,
                            wi,
                            hi,
                        )].alive);
                    }
                }
                x = x + 1;
            }
            y = y + 1;
        }
    }

    /// Brings the dead cell at `(x, y)` to life on the visible grid,
    /// keeping the cached neighbor counts consistent; the seeding half of
    /// the mutation surface, next to [`Engine::randomize`].
    pub fn spawn_cell(&mut self, x: isize, y: isize)
        requires
            old(self).wf(),
            !alive_at(old(self).grid(), W as int, H as int, x as int, y as int),
        ensures
            final(self).wf(),
            final(self).grid().len() == old(self).grid().len(),
            forall|j: int|
                0 <= j < old(self).grid().len() ==> (#[trigger] final(self).grid()[j]).alive == (
                old(self).grid()[j].alive || j == crate::torus::flat_index(
                    x as int,
                    y as int,
                    W as int,
                    H as int,
                )),
    {
        self.cells.spawn(x, y);
    }

    /// The visible grid, for rendering collaborators.
    pub fn cells(&self) -> (r: &CellArray<H, W>)
        ensures
            r.grid() == self.grid(),
            self.wf() ==> r.wf() && counts_consistent(r.grid(), W as int, H as int),
    {
        &self.cells
    }
}

/// Relies on rand::random: draws a boolean from the thread-local generator.
/// Nothing is promised of the result; callers must be correct whichever way
/// the coin lands.
#[verifier::external_body]
fn random_bool() -> bool {
    rand::random()
}

} // verus!
