//! Seeding of well-known patterns through the counted grid interface.

use vstd::prelude::*;

use crate::gol::types::cell_array::CellArray;
use crate::torus::{
    alive_at, counts_consistent, flat_index, lemma_flat_index_bounds, lemma_flat_index_eq,
    lemma_mod_shift_distinct,
};

verus! {

/// Places the five-cell glider with its bounding box at `(x, y)` by spawning
/// each of its cells, so the cached neighbor counts stay consistent. The
/// grid must be at least three cells wide and tall (else the glider would
/// overlap itself around the torus) and the five target cells must be dead.
#[verifier::rlimit(100)]
#[verifier::spinoff_prover]
pub fn spawn_glider<const H: usize, const W: usize>(
    cell_array: &mut CellArray<H, W>,
    x: isize,
    y: isize,
)
    requires
        old(cell_array).wf(),
        counts_consistent(old(cell_array).grid(), W as int, H as int),
        3 <= W,
        3 <= H,
        x + 2 <= isize::MAX,
        y + 2 <= isize::MAX,
        !alive_at(old(cell_array).grid(), W as int, H as int, x + 2, y as int),
        !alive_at(old(cell_array).grid(), W as int, H as int, x + 2, y + 1),
        !alive_at(old(cell_array).grid(), W as int, H as int, x + 2, y + 2),
        !alive_at(old(cell_array).grid(), W as int, H as int, x + 1, y + 2),
        !alive_at(old(cell_array).grid(), W as int, H as int, x as int, y + 1),
    ensures
        final(cell_array).wf(),
        counts_consistent(final(cell_array).grid(), W as int, H as int),
        final(cell_array).grid().len() == old(cell_array).grid().len(),
        forall|j: int|
            0 <= j < old(cell_array).grid().len() ==> (#[trigger] final(cell_array).grid()[j]).alive == (old(cell_array).grid()[j].alive || j == flat_index(
                x + 2,
                y as int,
                W as int,
                H as int,
            ) || j == flat_index(x + 2, y + 1, W as int, H as int) || j == flat_index(
                x + 2,
                y + 2,
                W as int,
                H as int,
            ) || j == flat_index(x + 1, y + 2, W as int, H as int) || j == flat_index(
                x as int,
                y + 1,
                W as int,
                H as int,
            )),
{
    let ghost wi = W as int;
    let ghost hi = H as int;
    let ghost xi = x as int;
    let ghost yi = y as int;
    let ghost g0 = cell_array.grid();
    let ghost fa = flat_index(xi + 2, yi, wi, hi);
    let ghost fb = flat_index(xi + 2, yi + 1, wi, hi);
    let ghost fc = flat_index(xi + 2, yi + 2, wi, hi);
    let ghost fd = flat_index(xi + 1, yi + 2, wi, hi);
    let ghost fe = flat_index(xi, yi + 1, wi, hi);
    proof {
        lemma_flat_index_bounds(xi + 2, yi, wi, hi);
        lemma_flat_index_bounds(xi + 2, yi + 1, wi, hi);
        lemma_flat_index_bounds(xi + 2, yi + 2, wi, hi);
        lemma_flat_index_bounds(xi + 1, yi + 2, wi, hi);
        lemma_flat_index_bounds(xi, yi + 1, wi, hi);
        lemma_mod_shift_distinct(xi, 1, wi);
        lemma_mod_shift_distinct(xi, 2, wi);
        lemma_mod_shift_distinct(xi + 1, 1, wi);
        lemma_mod_shift_distinct(yi, 1, hi);
        lemma_mod_shift_distinct(yi, 2, hi);
        lemma_mod_shift_distinct(yi + 1, 1, hi);
        lemma_flat_index_eq(xi + 2, yi + 1, xi + 2, yi, wi, hi);
        lemma_flat_index_eq(xi + 2, yi + 2, xi + 2, yi, wi, hi);
        lemma_flat_index_eq(xi + 2, yi + 2, xi + 2, yi + 1, wi, hi);
        lemma_flat_index_eq(xi + 1, yi + 2, xi + 2, yi, wi, hi);
        lemma_flat_index_eq(xi + 1, yi + 2, xi + 2, yi + 1, wi, hi);
        lemma_flat_index_eq(xi + 1, yi + 2, xi + 2, yi + 2, wi, hi);
        lemma_flat_index_eq(xi, yi + 1, xi + 2, yi, wi, hi);
        lemma_flat_index_eq(xi, yi + 1, xi + 2, yi + 1, wi, hi);
        lemma_flat_index_eq(xi, yi + 1, xi + 2, yi + 2, wi, hi);
        lemma_flat_index_eq(xi, yi + 1, xi + 1, yi + 2, wi, hi);
    }
    cell_array.spawn(x + 2, y);
    let ghost g1 = cell_array.grid();
    cell_array.spawn(x + 2, y + 1);
    let ghost g2 = cell_array.grid();
    cell_array.spawn(x + 2, y + 2);
    let ghost g3 = cell_array.grid();
    cell_array.spawn(x + 1, y + 2);
    let ghost g4 = cell_array.grid();
    cell_array.spawn(x, y + 1);
    proof {
        let gf = cell_array.grid();
        assert forall|j: int| 0 <= j < g0.len() implies (#[trigger] gf[j]).alive == (g0[j].alive
            || j == fa || j == fb || j == fc || j == fd || j == fe) by {
            assert(g1[j].alive == (g0[j].alive || j == fa));
            assert(g2[j].alive == (g1[j].alive || j == fb));
            assert(g3[j].alive == (g2[j].alive || j == fc));
            assert(g4[j].alive == (g3[j].alive || j == fd));
            assert(gf[j].alive == (g4[j].alive || j == fe));
        }
    }
}

} // verus!
