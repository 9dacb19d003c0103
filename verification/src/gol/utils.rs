//! Pattern seeding that writes alive flags directly, without touching the
//! cached neighbor counts.

use vstd::prelude::*;

use crate::gol::cell_array::CellArray;
use crate::torus::flat_index;

verus! {

/// Places the five-cell glider with its bounding box at `(x, y)` by setting
/// each cell's alive flag through [`CellArray::mut_cell`]. The cached
/// neighbor counts are left as they were, so on a grid whose counts matter
/// this must be followed by recounting; [`crate::gol::patterns::spawn_glider`]
/// is the counted variant.
pub fn spawn_glider<const H: usize, const W: usize>(
    cell_array: &mut CellArray<H, W>,
    x: isize,
    y: isize,
)
    requires
        old(cell_array).wf(),
        x + 2 <= isize::MAX,
        y + 2 <= isize::MAX,
    ensures
        final(cell_array).wf(),
        final(cell_array).grid().len() == old(cell_array).grid().len(),
        forall|j: int|
            0 <= j < old(cell_array).grid().len() ==> (#[trigger] final(cell_array).grid()[j]).alive == (old(cell_array).grid()[j].alive || j == flat_index(
                x + 2,
                y as int,
                W as int,
                H as int,
            ) || j == flat_index(x + 2, y + 1, W as int, H as int) || j == flat_index(
                x + 2,
                y + 2,
                W as int,
                H as int,
            ) || j == flat_index(x + 1, y + 2, W as int, H as int) || j == flat_index(
                x as int,
                y + 1,
                W as int,
                H as int,
            )),
        forall|j: int|
            0 <= j < old(cell_array).grid().len() ==> (#[trigger] final(cell_array).grid()[j]).count == old(cell_array).grid()[j].count,
{
    let ghost wi = W as int;
    let ghost hi = H as int;
    let ghost xi = x as int;
    let ghost yi = y as int;
    let ghost g0 = cell_array.grid();
    let ghost fa = flat_index(xi + 2, yi, wi, hi);
    let ghost fb = flat_index(xi + 2, yi + 1, wi, hi);
    let ghost fc = flat_index(xi + 2, yi + 2, wi, hi);
    let ghost fd = flat_index(xi + 1, yi + 2, wi, hi);
    let ghost fe = flat_index(xi, yi + 1, wi, hi);
    let c = cell_array.mut_cell(x + 2, y);
    c.spawn();
    let ghost g1 = cell_array.grid();
    let c = cell_array.mut_cell(x + 2, y + 1);
    c.spawn();
    let ghost g2 = cell_array.grid();
    let c = cell_array.mut_cell(x + 2, y + 2);
    c.spawn();
    let ghost g3 = cell_array.grid();
    let c = cell_array.mut_cell(x + 1, y + 2);
    c.spawn();
    let ghost g4 = cell_array.grid();
    let c = cell_array.mut_cell(x, y + 1);
    c.spawn();
    proof {
        let gf = cell_array.grid();
        assert forall|j: int| 0 <= j < g0.len() implies (#[trigger] gf[j]).alive == (g0[j].alive
            || j == fa || j == fb || j == fc || j == fd || j == fe) && gf[j].count
            == g0[j].count by {
            assert(g1[j].alive == (g0[j].alive || j == fa) && g1[j].count == g0[j].count);
            assert(g2[j].alive == (g1[j].alive || j == fb) && g2[j].count == g1[j].count);
            assert(g3[j].alive == (g2[j].alive || j == fc) && g3[j].count == g2[j].count);
            assert(g4[j].alive == (g3[j].alive || j == fd) && g4[j].count == g3[j].count);
            assert(gf[j].alive == (g4[j].alive || j == fe) && gf[j].count == g4[j].count);
        }
    }
}

} // verus!
