//! A cell and a toroidal cell grid with incrementally maintained neighbor
//! counts.
//!
//! A [`Cell`] carries an alive flag and a cached count of live Moore
//! neighbors; its state fits one byte (alive bit plus four count bits) and
//! [`Cell::to_string`] and comparison against a `u8` expose that packed
//! value. A [`CellArray`] is an `H` by `W` torus of cells: coordinates wrap
//! modulo the dimensions, and [`CellArray::spawn_cell`] and
//! [`CellArray::kill_cell`] keep every cached count equal to the true
//! live-neighbor count by adjusting only the eight neighbors of the changed
//! cell.

use vstd::prelude::*;

use crate::bitstring::{byte_bit_string, byte_bits};
use crate::torus::{
    alive_at, bit, cell_at, counts_consistent, flat_index, grid_ok, hits_upto,
    lemma_blank_grid_consistent, lemma_flat_index_bounds, lemma_hits_upto_mono,
    lemma_kill_consistent_seq, lemma_kill_occupancy_seq, lemma_mod_dec, lemma_mod_inc,
    lemma_spawn_consistent_seq, lemma_spawn_room_seq, live_neighbors, neighbor_hits, pred_wrap,
    succ_wrap, wrap_index, CellState,
};

verus! {

/// The state of one cell: whether it is alive, and how many of its eight
/// Moore neighbors are alive, maintained incrementally by the owning grid.
/// Packed, the state is one byte: the alive flag in bit 0 and the count in
/// bits 1 to 4, the top three bits always zero.
#[derive(Debug, Copy, Clone)]
pub struct Cell {
    alive: bool,
    count: u8,
}

impl View for Cell {
    type V = CellState;

    closed spec fn view(&self) -> CellState {
        CellState { alive: self.alive, count: self.count as int }
    }
}

/// The packed byte value of a cell state: the alive flag in the lowest bit,
/// the neighbor count in the four bits above it.
pub open spec fn spec_byte(c: CellState) -> int {
    2 * c.count + bit(c.alive)
}

impl Cell {
    /// A dead cell with a zero neighbor count.
    fn new() -> (c: Cell)
        ensures
            c@ == (CellState { alive: false, count: 0 }),
    {
        Cell { alive: false, count: 0 }
    }

    /// Sets the alive flag. The neighbor count is untouched. Idempotent.
    pub fn spawn(&mut self)
        ensures
            final(self)@ == (CellState { alive: true, count: old(self)@.count }),
    {
        self.alive = true;
    }

    /// Clears the alive flag. The neighbor count is untouched. Idempotent.
    pub fn kill(&mut self)
        ensures
            final(self)@ == (CellState { alive: false, count: old(self)@.count }),
    {
        self.alive = false;
    }

    /// Overwrites the cached neighbor count. A cell has eight neighbors, so
    /// larger counts are rejected.
    pub fn set_neighbors(&mut self, count: u8)
        requires
            count <= 8,
        ensures
            final(self)@ == (CellState { alive: old(self)@.alive, count: count as int }),
    {
        self.count = count;
    }

    /// The cached neighbor count.
    pub fn neighbour_cnt(&self) -> (n: u8)
        ensures
            n as int == self@.count,
    {
        self.count
    }

    /// Whether the cell is alive.
    pub fn is_alive(&self) -> (a: bool)
        ensures
            a == self@.alive,
    {
        self.alive
    }

    /// Resets the cell to the all-zero state: dead, zero neighbors.
    pub fn clear(&mut self)
        ensures
            final(self)@ == (CellState { alive: false, count: 0 }),
    {
        self.alive = false;
        self.count = 0;
    }

    /// Raises the cached neighbor count by one. A count above 8 cannot
    /// describe a Moore neighborhood, so pushing past 8 is a contract
    /// violation and is excluded here rather than wrapped or saturated.
    pub fn increment_neighbour_count(&mut self)
        requires
            old(self)@.count < 8,
        ensures
            final(self)@ == (CellState { alive: old(self)@.alive, count: old(self)@.count + 1 }),
    {
        self.count = self.count + 1;
    }

    /// Lowers the cached neighbor count by one; a count of zero stays zero
    /// rather than underflowing.
    pub fn decrement_neighbour_count(&mut self)
        ensures
            final(self)@ == (CellState {
                alive: old(self)@.alive,
                count: if old(self)@.count == 0 {
                    0int
                } else {
                    old(self)@.count - 1
                },
            }),
    {
        if self.count > 0 {
            self.count = self.count - 1;
        }
    }

    /// The packed byte, rendered as eight binary digits.
    pub fn to_string(&self) -> (s: String)
        requires
            self@.count <= 8,
        ensures
            s@ == byte_bits(spec_byte(self@)),
    {
        let packed: u8 = 2 * self.count + if self.alive {
            1
        } else {
            0
        };
        byte_bit_string(packed)
    }
}

impl PartialEq<u8> for Cell {
    /// A cell equals a byte when its packed value is that byte.
    fn eq(&self, other: &u8) -> (r: bool) {
        let packed: u16 = 2 * (self.count as u16) + if self.alive {
            1
        } else {
            0
        };
        packed == *other as u16
    }
}

impl vstd::std_specs::cmp::PartialEqSpecImpl<u8> for Cell {
    open spec fn obeys_eq_spec() -> bool {
        true
    }

    open spec fn eq_spec(&self, other: &u8) -> bool {
        spec_byte(self@) == *other as int
    }
}

/// An `H` by `W` torus of cells in one row-major buffer. Coordinates are
/// signed and wrap modulo the dimensions, so every coordinate pair addresses
/// a cell. The grid owns the incremental count bookkeeping: spawning or
/// killing a cell adjusts the cached counts of its eight neighbors.
#[derive(Debug)]
pub struct CellArray<const H: usize, const W: usize> {
    cells: Vec<Cell>,
}

/// The mathematical contents of a cell buffer, cell by cell. Opaque: the
/// grid operations reason through their contracts, not through this
/// definition.
#[verifier::opaque]
pub open spec fn grid_of(cells: Seq<Cell>) -> Seq<CellState> {
    cells.map_values(|c: Cell| c@)
}

/// The modelled grid has one state per cell.
pub proof fn lemma_grid_of_len(cells: Seq<Cell>)
    ensures
        grid_of(cells).len() == cells.len(),
{
    reveal(grid_of);
}

/// One cell of the modelled grid.
pub proof fn lemma_grid_of_index(cells: Seq<Cell>, i: int)
    requires
        0 <= i < cells.len(),
    ensures
        grid_of(cells)[i] == cells[i]@,
{
    reveal(grid_of);
}

impl<const H: usize, const W: usize> CellArray<H, W> {
    /// The mathematical contents of the grid.
    pub closed spec fn grid(&self) -> Seq<CellState> {
        grid_of(self.cells@)
    }

    /// The grid holds exactly one cell per coordinate of the torus.
    pub open spec fn wf(&self) -> bool {
        grid_ok(self.grid(), W as int, H as int)
    }

    /// A fresh grid: every cell dead with a zero count.
    pub fn new() -> (r: CellArray<H, W>)
        requires
            0 < H,
            0 < W,
            W * H <= usize::MAX,
        ensures
            r.wf(),
            counts_consistent(r.grid(), W as int, H as int),
            forall|j: int|
                0 <= j < r.grid().len() ==> #[trigger] r.grid()[j] == (CellState {
                    alive: false,
                    count: 0,
                }),
    {
        let n = W * H;
        let mut cells: Vec<Cell> = Vec::new();
        let mut i: usize = 0;
        while i < n
            invariant
                i <= n,
                cells@.len() == i,
                forall|j: int|
                    0 <= j < i ==> (#[trigger] cells@[j])@ == (CellState {
                        alive: false,
                        count: 0,
                    }),
            decreases n - i,
        {
            cells.push(Cell::new());
            i = i + 1;
        }
        let r = CellArray::<H, W> { cells };
        proof {
            reveal(grid_of);
            assert(r.grid().len() == r.cells@.len());
            assert forall|j: int| 0 <= j < r.grid().len() implies #[trigger] r.grid()[j]
                == (CellState { alive: false, count: 0 }) by {
                assert(r.cells@[j]@ == (CellState { alive: false, count: 0 }));
            }
            lemma_blank_grid_consistent(r.grid(), W as int, H as int);
        }
        r
    }

    /// The cell at `(x, y)`, after wrapping. Always succeeds.
    pub fn cell(&self, x: isize, y: isize) -> (c: &Cell)
        requires
            self.wf(),
        ensures
            c@ == cell_at(self.grid(), W as int, H as int, x as int, y as int),
    {
        let _len = self.cells.len();
        let wx = wrap_index(x, W);
        let wy = wrap_index(y, H);
        proof {
            reveal(grid_of);
            lemma_flat_index_bounds(x as int, y as int, W as int, H as int);
            assert((wy as int) * (W as int) + (wx as int) == flat_index(
                x as int,
                y as int,
                W as int,
                H as int,
            ));
        }
        let idx = wy * W + wx;
        &self.cells[idx]
    }

    /// A mutable borrow of the cell at `(x, y)`, after wrapping. Always
    /// succeeds. Writing through the borrow changes that cell alone; it is
    /// the caller's affair that direct writes bypass the count bookkeeping.
    pub fn mut_cell(&mut self, x: isize, y: isize) -> (c: &mut Cell)
        requires
            old(self).wf(),
        ensures
            (*c)@ == cell_at(old(self).grid(), W as int, H as int, x as int, y as int),
            final(self).grid().len() == old(self).grid().len(),
            final(self).grid()[flat_index(x as int, y as int, W as int, H as int)] == (*final(c))@,
            forall|j: int|
                0 <= j < old(self).grid().len() && j != flat_index(
                    x as int,
                    y as int,
                    W as int,
                    H as int,
                ) ==> #[trigger] final(self).grid()[j] == old(self).grid()[j],
            final(self).wf(),
    {
        let _len = self.cells.len();
        let wx = wrap_index(x, W);
        let wy = wrap_index(y, H);
        proof {
            reveal(grid_of);
            lemma_flat_index_bounds(x as int, y as int, W as int, H as int);
            assert((wy as int) * (W as int) + (wx as int) == flat_index(
                x as int,
                y as int,
                W as int,
                H as int,
            ));
        }
        let idx = wy * W + wx;
        &mut self.cells[idx]
    }

    /// Clears every cell to the all-zero state: all dead, all counts zero.
    pub fn reset(&mut self)
        requires
            old(self).wf(),
        ensures
            final(self).wf(),
            counts_consistent(final(self).grid(), W as int, H as int),
            forall|j: int|
                0 <= j < final(self).grid().len() ==> #[trigger] final(self).grid()[j]
                    == (CellState { alive: false, count: 0 }),
    {
        let n = self.cells.len();
        let mut i: usize = 0;
        while i < n
            invariant
                i <= n,
                self.cells@.len() == n,
                forall|j: int|
                    0 <= j < i ==> (#[trigger] self.cells@[j])@ == (CellState {
                        alive: false,
                        count: 0,
                    }),
            decreases n - i,
        {
            let c = &mut self.cells[i];
            c.clear();
            i = i + 1;
        }
        proof {
            reveal(grid_of);
            assert forall|j: int| 0 <= j < self.grid().len() implies #[trigger] self.grid()[j]
                == (CellState { alive: false, count: 0 }) by {
                assert(self.cells@[j]@ == (CellState { alive: false, count: 0 }));
            }
            lemma_blank_grid_consistent(self.grid(), W as int, H as int);
        }
    }

    /// A row-major snapshot of the cells, in place of borrowed iteration.
    pub fn iter(&self) -> (r: Vec<Cell>)
        ensures
            r@.len() == self.grid().len(),
            forall|j: int| 0 <= j < r@.len() ==> (#[trigger] r@[j])@ == self.grid()[j],
    {
        let mut r: Vec<Cell> = Vec::new();
        let mut i: usize = 0;
        while i < self.cells.len()
            invariant
                i <= self.cells@.len(),
                r@.len() == i,
                forall|j: int| 0 <= j < i ==> (#[trigger] r@[j])@ == self.cells@[j]@,
            decreases self.cells@.len() - i,
        {
            r.push(self.cells[i]);
            i = i + 1;
        }
        proof {
            reveal(grid_of);
        }
        r
    }

    /// The number of columns.
    pub fn width(&self) -> (r: usize)
        ensures
            r == W,
    {
        W
    }

    /// The number of rows.
    pub fn height(&self) -> (r: usize)
        ensures
            r == H,
    {
        H
    }

    /// Sets the alive flag of the cell at flat index `i`; nothing else moves.
    fn spawn_at(&mut self, i: usize)
        requires
            i < old(self).grid().len(),
        ensures
            final(self).grid() == old(self).grid().update(
                i as int,
                (CellState { alive: true, count: old(self).grid()[i as int].count }),
            ),
    {
        proof {
            lemma_grid_of_len(old(self).cells@);
            lemma_grid_of_index(old(self).cells@, i as int);
        }
        let c = &mut self.cells[i];
        c.spawn();
        proof {
            reveal(grid_of);
            assert(self.grid() =~= old(self).grid().update(
                i as int,
                (CellState { alive: true, count: old(self).grid()[i as int].count }),
            ));
        }
    }

    /// Clears the alive flag of the cell at flat index `i`; nothing else
    /// moves.
    fn kill_at(&mut self, i: usize)
        requires
            i < old(self).grid().len(),
        ensures
            final(self).grid() == old(self).grid().update(
                i as int,
                (CellState { alive: false, count: old(self).grid()[i as int].count }),
            ),
    {
        proof {
            lemma_grid_of_len(old(self).cells@);
            lemma_grid_of_index(old(self).cells@, i as int);
        }
        let c = &mut self.cells[i];
        c.kill();
        proof {
            reveal(grid_of);
            assert(self.grid() =~= old(self).grid().update(
                i as int,
                (CellState { alive: false, count: old(self).grid()[i as int].count }),
            ));
        }
    }

    /// Raises the cached count of the cell at flat index `i` by one; nothing
    /// else moves.
    fn incr_at(&mut self, i: usize)
        requires
            i < old(self).grid().len(),
            old(self).grid()[i as int].count < 8,
        ensures
            final(self).grid() == old(self).grid().update(
                i as int,
                (CellState {
                    alive: old(self).grid()[i as int].alive,
                    count: old(self).grid()[i as int].count + 1,
                }),
            ),
    {
        proof {
            lemma_grid_of_len(old(self).cells@);
            lemma_grid_of_index(old(self).cells@, i as int);
        }
        let c = &mut self.cells[i];
        c.increment_neighbour_count();
        proof {
            reveal(grid_of);
            assert(self.grid() =~= old(self).grid().update(
                i as int,
                (CellState {
                    alive: old(self).grid()[i as int].alive,
                    count: old(self).grid()[i as int].count + 1,
                }),
            ));
        }
    }

    /// Lowers the cached count of the cell at flat index `i` by one, staying
    /// at zero; nothing else moves.
    fn decr_at(&mut self, i: usize)
        requires
            i < old(self).grid().len(),
        ensures
            final(self).grid() == old(self).grid().update(
                i as int,
                (CellState {
                    alive: old(self).grid()[i as int].alive,
                    count: if old(self).grid()[i as int].count == 0 {
                        0int
                    } else {
                        old(self).grid()[i as int].count - 1
                    },
                }),
            ),
    {
        proof {
            lemma_grid_of_len(old(self).cells@);
            lemma_grid_of_index(old(self).cells@, i as int);
        }
        let c = &mut self.cells[i];
        c.decrement_neighbour_count();
        proof {
            reveal(grid_of);
            assert(self.grid() =~= old(self).grid().update(
                i as int,
                (CellState {
                    alive: old(self).grid()[i as int].alive,
                    count: if old(self).grid()[i as int].count == 0 {
                        0int
                    } else {
                        old(self).grid()[i as int].count - 1
                    },
                }),
            ));
        }
    }

    /// Raises the cached counts at eight flat indices, one step each, in
    /// order. Indices may repeat; a cell is stepped once per occurrence. The
    /// room bound keeps every intermediate count below nine.
    fn incr_all(&mut self, idx: Vec<usize>)
        requires
            idx@.len() == 8,
            forall|l: int| 0 <= l < 8 ==> (#[trigger] idx@[l]) < old(self).grid().len(),
            forall|l: int|
                0 <= l < 8 ==> old(self).grid()[(#[trigger] idx@[l]) as int].count + hits_upto(
                    idx@,
                    8,
                    idx@[l] as int,
                ) <= 8,
        ensures
            final(self).grid().len() == old(self).grid().len(),
            forall|j: int|
                0 <= j < old(self).grid().len() ==> (#[trigger] final(self).grid()[j]).alive == old(
                    self,
                ).grid()[j].alive,
            forall|j: int|
                0 <= j < old(self).grid().len() ==> (#[trigger] final(self).grid()[j]).count == old(
                    self,
                ).grid()[j].count + hits_upto(idx@, 8, j),
    {
        let ghost g0 = self.grid();
        let mut k: usize = 0;
        while k < 8
            invariant
                k <= 8,
                idx@.len() == 8,
                self.grid().len() == g0.len(),
                forall|l: int| 0 <= l < 8 ==> (#[trigger] idx@[l]) < g0.len(),
                forall|l: int|
                    0 <= l < 8 ==> g0[(#[trigger] idx@[l]) as int].count + hits_upto(
                        idx@,
                        8,
                        idx@[l] as int,
                    ) <= 8,
                forall|j: int|
                    0 <= j < g0.len() ==> (#[trigger] self.grid()[j]).alive == g0[j].alive,
                forall|j: int|
                    0 <= j < g0.len() ==> (#[trigger] self.grid()[j]).count == g0[j].count
                        + hits_upto(idx@, k as int, j),
            decreases 8 - k,
        {
            let i = idx[k];
            proof {
                let ji = i as int;
                assert(i == idx@[k as int]);
                assert(g0[ji].count + hits_upto(idx@, 8, ji) <= 8);
                lemma_hits_upto_mono(idx@, 0, k as int, ji);
                assert(hits_upto(idx@, k as int + 1, ji) == hits_upto(idx@, k as int, ji) + 1);
                lemma_hits_upto_mono(idx@, k as int + 1, 8, ji);
                assert(self.grid()[ji].count < 8);
            }
            let ghost gk = self.grid();
            self.incr_at(i);
            proof {
                assert forall|j: int| 0 <= j < g0.len() implies (#[trigger] self.grid()[j]).count
                    == g0[j].count + hits_upto(idx@, k as int + 1, j) && self.grid()[j].alive
                    == g0[j].alive by {
                    assert(hits_upto(idx@, k as int + 1, j) == hits_upto(idx@, k as int, j) + bit(
                        idx@[k as int] as int == j,
                    ));
                    assert(gk[j].count == g0[j].count + hits_upto(idx@, k as int, j));
                    assert(gk[j].alive == g0[j].alive);
                }
            }
            k = k + 1;
        }
    }

    /// Lowers the cached counts at eight flat indices, one step each, in
    /// order. Indices may repeat; a cell is stepped once per occurrence. The
    /// occupancy bound keeps every intermediate count above zero, so the
    /// saturating decrement never clips.
    fn decr_all(&mut self, idx: Vec<usize>)
        requires
            idx@.len() == 8,
            forall|l: int| 0 <= l < 8 ==> (#[trigger] idx@[l]) < old(self).grid().len(),
            forall|l: int|
                0 <= l < 8 ==> old(self).grid()[(#[trigger] idx@[l]) as int].count >= hits_upto(
                    idx@,
                    8,
                    idx@[l] as int,
                ),
        ensures
            final(self).grid().len() == old(self).grid().len(),
            forall|j: int|
                0 <= j < old(self).grid().len() ==> (#[trigger] final(self).grid()[j]).alive == old(
                    self,
                ).grid()[j].alive,
            forall|j: int|
                0 <= j < old(self).grid().len() ==> (#[trigger] final(self).grid()[j]).count == old(
                    self,
                ).grid()[j].count - hits_upto(idx@, 8, j),
    {
        let ghost g0 = self.grid();
        let mut k: usize = 0;
        while k < 8
            invariant
                k <= 8,
                idx@.len() == 8,
                self.grid().len() == g0.len(),
                forall|l: int| 0 <= l < 8 ==> (#[trigger] idx@[l]) < g0.len(),
                forall|l: int|
                    0 <= l < 8 ==> g0[(#[trigger] idx@[l]) as int].count >= hits_upto(
                        idx@,
                        8,
                        idx@[l] as int,
                    ),
                forall|j: int|
                    0 <= j < g0.len() ==> (#[trigger] self.grid()[j]).alive == g0[j].alive,
                forall|j: int|
                    0 <= j < g0.len() ==> (#[trigger] self.grid()[j]).count == g0[j].count
                        - hits_upto(idx@, k as int, j),
            decreases 8 - k,
        {
            let i = idx[k];
            proof {
                let ji = i as int;
                assert(i == idx@[k as int]);
                assert(g0[ji].count >= hits_upto(idx@, 8, ji));
                lemma_hits_upto_mono(idx@, 0, k as int, ji);
                assert(hits_upto(idx@, k as int + 1, ji) == hits_upto(idx@, k as int, ji) + 1);
                lemma_hits_upto_mono(idx@, k as int + 1, 8, ji);
                assert(self.grid()[ji].count >= 1);
            }
            let ghost gk = self.grid();
            self.decr_at(i);
            proof {
                assert forall|j: int| 0 <= j < g0.len() implies (#[trigger] self.grid()[j]).count
                    == g0[j].count - hits_upto(idx@, k as int + 1, j) && self.grid()[j].alive
                    == g0[j].alive by {
                    assert(hits_upto(idx@, k as int + 1, j) == hits_upto(idx@, k as int, j) + bit(
                        idx@[k as int] as int == j,
                    ));
                    assert(gk[j].count == g0[j].count - hits_upto(idx@, k as int, j));
                    assert(gk[j].alive == g0[j].alive);
                }
            }
            k = k + 1;
        }
    }

    /// Brings the dead cell at `(x, y)` to life and raises the cached count
    /// of each of its eight (wrapped) neighbors. This is the only sanctioned
    /// way to bring a cell to life while the count invariant must hold, and
    /// it requires that invariant on entry; it leaves the counts consistent
    /// again.
    #[verifier::rlimit(100)]
    #[verifier::spinoff_prover]
    pub fn spawn_cell(&mut self, x: isize, y: isize)
        requires
            old(self).wf(),
            counts_consistent(old(self).grid(), W as int, H as int),
            !alive_at(old(self).grid(), W as int, H as int, x as int, y as int),
        ensures
            final(self).wf(),
            counts_consistent(final(self).grid(), W as int, H as int),
            final(self).grid().len() == old(self).grid().len(),
            forall|j: int|
                0 <= j < old(self).grid().len() ==> (#[trigger] final(self).grid()[j]).alive == (
                old(self).grid()[j].alive || j == flat_index(
                    x as int,
                    y as int,
                    W as int,
                    H as int,
                )),
            forall|j: int|
                0 <= j < old(self).grid().len() ==> (#[trigger] final(self).grid()[j]).count == old(
                    self,
                ).grid()[j].count + neighbor_hits(x as int, y as int, W as int, H as int, j),
    {
        let ghost g0 = self.grid();
        let ghost wi = W as int;
        let ghost hi = H as int;
        let ghost xi = x as int;
        let ghost yi = y as int;
        let ghost t = flat_index(xi, yi, wi, hi);
        let ghost f1 = flat_index(xi - 1, yi - 1, wi, hi);
        let ghost f2 = flat_index(xi, yi - 1, wi, hi);
        let ghost f3 = flat_index(xi + 1, yi - 1, wi, hi);
        let ghost f4 = flat_index(xi - 1, yi, wi, hi);
        let ghost f5 = flat_index(xi + 1, yi, wi, hi);
        let ghost f6 = flat_index(xi - 1, yi + 1, wi, hi);
        let ghost f7 = flat_index(xi, yi + 1, wi, hi);
        let ghost f8 = flat_index(xi + 1, yi + 1, wi, hi);

        let _len = self.cells.len();
        let wx = wrap_index(x, W);
        let wy = wrap_index(y, H);
        let xl = if wx == 0 {
            W - 1
        } else {
            wx - 1
        };
        let xr = if wx == W - 1 {
            0
        } else {
            wx + 1
        };
        let yu = if wy == 0 {
            H - 1
        } else {
            wy - 1
        };
        let yd = if wy == H - 1 {
            0
        } else {
            wy + 1
        };
        proof {
            lemma_grid_of_len(self.cells@);
            lemma_mod_dec(xi, wi);
            lemma_mod_inc(xi, wi);
            lemma_mod_dec(yi, hi);
            lemma_mod_inc(yi, hi);
            lemma_flat_index_bounds(xi, yi, wi, hi);
            lemma_flat_index_bounds(xi - 1, yi - 1, wi, hi);
            lemma_flat_index_bounds(xi, yi - 1, wi, hi);
            lemma_flat_index_bounds(xi + 1, yi - 1, wi, hi);
            lemma_flat_index_bounds(xi - 1, yi, wi, hi);
            lemma_flat_index_bounds(xi + 1, yi, wi, hi);
            lemma_flat_index_bounds(xi - 1, yi + 1, wi, hi);
            lemma_flat_index_bounds(xi, yi + 1, wi, hi);
            lemma_flat_index_bounds(xi + 1, yi + 1, wi, hi);
            assert((wy as int) * (W as int) + (wx as int) == t);
            assert((yu as int) * (W as int) + (xl as int) == f1);
            assert((yu as int) * (W as int) + (wx as int) == f2);
            assert((yu as int) * (W as int) + (xr as int) == f3);
            assert((wy as int) * (W as int) + (xl as int) == f4);
            assert((wy as int) * (W as int) + (xr as int) == f5);
            assert((yd as int) * (W as int) + (xl as int) == f6);
            assert((yd as int) * (W as int) + (wx as int) == f7);
            assert((yd as int) * (W as int) + (xr as int) == f8);
        }
        let ti = wy * W + wx;
        let n1 = yu * W + xl;
        let n2 = yu * W + wx;
        let n3 = yu * W + xr;
        let n4 = wy * W + xl;
        let n5 = wy * W + xr;
        let n6 = yd * W + xl;
        let n7 = yd * W + wx;
        let n8 = yd * W + xr;
        proof {
            assert(ti as int == t);
            assert(n1 as int == f1);
            assert(n2 as int == f2);
            assert(n3 as int == f3);
            assert(n4 as int == f4);
            assert(n5 as int == f5);
            assert(n6 as int == f6);
            assert(n7 as int == f7);
            assert(n8 as int == f8);
        }
        self.spawn_at(ti);
        let ghost ga = self.grid();
        let mut ns: Vec<usize> = Vec::new();
        ns.push(n1);
        ns.push(n2);
        ns.push(n3);
        ns.push(n4);
        ns.push(n5);
        ns.push(n6);
        ns.push(n7);
        ns.push(n8);
        let ghost sv = ns@;
        proof {
            assert(sv =~= seq![n1, n2, n3, n4, n5, n6, n7, n8]);
            lemma_spawn_room_seq(g0, wi, hi, xi, yi, sv);
            assert forall|l: int| 0 <= l < 8 implies ga[(#[trigger] sv[l]) as int].count
                + hits_upto(sv, 8, sv[l] as int) <= 8 by {
                assert(ga[sv[l] as int].count == g0[sv[l] as int].count);
            }
        }
        self.incr_all(ns);
        proof {
            let gf = self.grid();
            assert forall|j: int| 0 <= j < g0.len() implies (#[trigger] gf[j]).alive == (g0[j].alive
                || j == t) && gf[j].count == g0[j].count + hits_upto(sv, 8, j) by {
                assert(gf[j].alive == ga[j].alive && gf[j].count == ga[j].count + hits_upto(
                    sv,
                    8,
                    j,
                ));
            }
            lemma_spawn_consistent_seq(g0, gf, wi, hi, xi, yi, sv);
        }
    }

    /// Kills the live cell at `(x, y)` and lowers the cached count of each
    /// of its eight (wrapped) neighbors. The counterpart of
    /// [`CellArray::spawn_cell`]; it too keeps the counts consistent.
    #[verifier::rlimit(100)]
    #[verifier::spinoff_prover]
    pub fn kill_cell(&mut self, x: isize, y: isize)
        requires
            old(self).wf(),
            counts_consistent(old(self).grid(), W as int, H as int),
            alive_at(old(self).grid(), W as int, H as int, x as int, y as int),
        ensures
            final(self).wf(),
            counts_consistent(final(self).grid(), W as int, H as int),
            final(self).grid().len() == old(self).grid().len(),
            forall|j: int|
                0 <= j < old(self).grid().len() ==> (#[trigger] final(self).grid()[j]).alive == (
                old(self).grid()[j].alive && j != flat_index(
                    x as int,
                    y as int,
                    W as int,
                    H as int,
                )),
            forall|j: int|
                0 <= j < old(self).grid().len() ==> (#[trigger] final(self).grid()[j]).count == old(
                    self,
                ).grid()[j].count - neighbor_hits(x as int, y as int, W as int, H as int, j),
    {
        let ghost g0 = self.grid();
        let ghost wi = W as int;
        let ghost hi = H as int;
        let ghost xi = x as int;
        let ghost yi = y as int;
        let ghost t = flat_index(xi, yi, wi, hi);
        let ghost f1 = flat_index(xi - 1, yi - 1, wi, hi);
        let ghost f2 = flat_index(xi, yi - 1, wi, hi);
        let ghost f3 = flat_index(xi + 1, yi - 1, wi, hi);
        let ghost f4 = flat_index(xi - 1, yi, wi, hi);
        let ghost f5 = flat_index(xi + 1, yi, wi, hi);
        let ghost f6 = flat_index(xi - 1, yi + 1, wi, hi);
        let ghost f7 = flat_index(xi, yi + 1, wi, hi);
        let ghost f8 = flat_index(xi + 1, yi + 1, wi, hi);

        let _len = self.cells.len();
        let wx = wrap_index(x, W);
        let wy = wrap_index(y, H);
        let xl = if wx == 0 {
            W - 1
        } else {
            wx - 1
        };
        let xr = if wx == W - 1 {
            0
        } else {
            wx + 1
        };
        let yu = if wy == 0 {
            H - 1
        } else {
            wy - 1
        };
        let yd = if wy == H - 1 {
            0
        } else {
            wy + 1
        };
        proof {
            lemma_grid_of_len(self.cells@);
            lemma_mod_dec(xi, wi);
            lemma_mod_inc(xi, wi);
            lemma_mod_dec(yi, hi);
            lemma_mod_inc(yi, hi);
            lemma_flat_index_bounds(xi, yi, wi, hi);
            lemma_flat_index_bounds(xi - 1, yi - 1, wi, hi);
            lemma_flat_index_bounds(xi, yi - 1, wi, hi);
            lemma_flat_index_bounds(xi + 1, yi - 1, wi, hi);
            lemma_flat_index_bounds(xi - 1, yi, wi, hi);
            lemma_flat_index_bounds(xi + 1, yi, wi, hi);
            lemma_flat_index_bounds(xi - 1, yi + 1, wi, hi);
            lemma_flat_index_bounds(xi, yi + 1, wi, hi);
            lemma_flat_index_bounds(xi + 1, yi + 1, wi, hi);
            assert((wy as int) * (W as int) + (wx as int) == t);
            assert((yu as int) * (W as int) + (xl as int) == f1);
            assert((yu as int) * (W as int) + (wx as int) == f2);
            assert((yu as int) * (W as int) + (xr as int) == f3);
            assert((wy as int) * (W as int) + (xl as int) == f4);
            assert((wy as int) * (W as int) + (xr as int) == f5);
            assert((yd as int) * (W as int) + (xl as int) == f6);
            assert((yd as int) * (W as int) + (wx as int) == f7);
            assert((yd as int) * (W as int) + (xr as int) == f8);
        }
        let ti = wy * W + wx;
        let n1 = yu * W + xl;
        let n2 = yu * W + wx;
        let n3 = yu * W + xr;
        let n4 = wy * W + xl;
        let n5 = wy * W + xr;
        let n6 = yd * W + xl;
        let n7 = yd * W + wx;
        let n8 = yd * W + xr;
        proof {
            assert(ti as int == t);
            assert(n1 as int == f1);
            assert(n2 as int == f2);
            assert(n3 as int == f3);
            assert(n4 as int == f4);
            assert(n5 as int == f5);
            assert(n6 as int == f6);
            assert(n7 as int == f7);
            assert(n8 as int == f8);
        }
        self.kill_at(ti);
        let ghost ga = self.grid();
        let mut ns: Vec<usize> = Vec::new();
        ns.push(n1);
        ns.push(n2);
        ns.push(n3);
        ns.push(n4);
        ns.push(n5);
        ns.push(n6);
        ns.push(n7);
        ns.push(n8);
        let ghost sv = ns@;
        proof {
            assert(sv =~= seq![n1, n2, n3, n4, n5, n6, n7, n8]);
            lemma_kill_occupancy_seq(g0, wi, hi, xi, yi, sv);
            assert forall|l: int| 0 <= l < 8 implies ga[(#[trigger] sv[l]) as int].count
                >= hits_upto(sv, 8, sv[l] as int) by {
                assert(ga[sv[l] as int].count == g0[sv[l] as int].count);
            }
        }
        self.decr_all(ns);
        proof {
            let gf = self.grid();
            assert forall|j: int| 0 <= j < g0.len() implies (#[trigger] gf[j]).alive == (g0[j].alive
                && j != t) && gf[j].count == g0[j].count - hits_upto(sv, 8, j) by {
                assert(gf[j].alive == ga[j].alive && gf[j].count == ga[j].count - hits_upto(
                    sv,
                    8,
                    j,
                ));
            }
            lemma_kill_consistent_seq(g0, gf, wi, hi, xi, yi, sv);
        }
    }

    /// The eight Moore-neighborhood coordinate pairs around `(x, y)`, raw
    /// offsets that are not yet wrapped onto the grid; wrapping happens when
    /// a coordinate is handed to [`CellArray::cell`] or
    /// [`CellArray::mut_cell`].
    pub fn neighbour_coordinates(&self, x: isize, y: isize) -> (r: [(isize, isize); 8])
        ensures
            r@ == seq![
                (pred_wrap(x), pred_wrap(y)),
                (x, pred_wrap(y)),
                (succ_wrap(x), pred_wrap(y)),
                (pred_wrap(x), y),
                (succ_wrap(x), y),
                (pred_wrap(x), succ_wrap(y)),
                (x, succ_wrap(y)),
                (succ_wrap(x), succ_wrap(y)),
            ],
    {
        let xm = if x == isize::MIN {
            isize::MAX
        } else {
            x - 1
        };
        let xp = if x == isize::MAX {
            isize::MIN
        } else {
            x + 1
        };
        let ym = if y == isize::MIN {
            isize::MAX
        } else {
            y - 1
        };
        let yp = if y == isize::MAX {
            isize::MIN
        } else {
            y + 1
        };
        let r = [(xm, ym), (x, ym), (xp, ym), (xm, y), (xp, y), (xm, yp), (x, yp), (xp, yp)];
        proof {
            assert(r@ =~= seq![
                (pred_wrap(x), pred_wrap(y)),
                (x, pred_wrap(y)),
                (succ_wrap(x), pred_wrap(y)),
                (pred_wrap(x), y),
                (succ_wrap(x), y),
                (pred_wrap(x), succ_wrap(y)),
                (x, succ_wrap(y)),
                (succ_wrap(x), succ_wrap(y)),
            ]);
        }
        r
    }

    /// Recomputes the live-neighbor count of `(x, y)` by inspecting its
    /// eight wrapped neighbors directly: the brute-force check of the value
    /// the grid keeps cached, for validation rather than the hot path.
    #[verifier::rlimit(80)]
    #[verifier::spinoff_prover]
    pub fn calc_neighbours(&self, x: isize, y: isize) -> (r: u8)
        requires
            self.wf(),
        ensures
            r as int == live_neighbors(self.grid(), W as int, H as int, x as int, y as int),
    {
        let ghost wi = W as int;
        let ghost hi = H as int;
        let ghost xi = x as int;
        let ghost yi = y as int;
        let _len = self.cells.len();
        let wx = wrap_index(x, W);
        let wy = wrap_index(y, H);
        let xl = if wx == 0 {
            W - 1
        } else {
            wx - 1
        };
        let xr = if wx == W - 1 {
            0
        } else {
            wx + 1
        };
        let yu = if wy == 0 {
            H - 1
        } else {
            wy - 1
        };
        let yd = if wy == H - 1 {
            0
        } else {
            wy + 1
        };
        proof {
            reveal(grid_of);
            lemma_grid_of_len(self.cells@);
            lemma_mod_dec(xi, wi);
            lemma_mod_inc(xi, wi);
            lemma_mod_dec(yi, hi);
            lemma_mod_inc(yi, hi);
            lemma_flat_index_bounds(xi - 1, yi - 1, wi, hi);
            lemma_flat_index_bounds(xi, yi - 1, wi, hi);
            lemma_flat_index_bounds(xi + 1, yi - 1, wi, hi);
            lemma_flat_index_bounds(xi - 1, yi, wi, hi);
            lemma_flat_index_bounds(xi + 1, yi, wi, hi);
            lemma_flat_index_bounds(xi - 1, yi + 1, wi, hi);
            lemma_flat_index_bounds(xi, yi + 1, wi, hi);
            lemma_flat_index_bounds(xi + 1, yi + 1, wi, hi);
            assert((yu as int) * (W as int) + (xl as int) == flat_index(xi - 1, yi - 1, wi, hi));
            assert((yu as int) * (W as int) + (wx as int) == flat_index(xi, yi - 1, wi, hi));
            assert((yu as int) * (W as int) + (xr as int) == flat_index(xi + 1, yi - 1, wi, hi));
            assert((wy as int) * (W as int) + (xl as int) == flat_index(xi - 1, yi, wi, hi));
            assert((wy as int) * (W as int) + (xr as int) == flat_index(xi + 1, yi, wi, hi));
            assert((yd as int) * (W as int) + (xl as int) == flat_index(xi - 1, yi + 1, wi, hi));
            assert((yd as int) * (W as int) + (wx as int) == flat_index(xi, yi + 1, wi, hi));
            assert((yd as int) * (W as int) + (xr as int) == flat_index(xi + 1, yi + 1, wi, hi));
        }
        let mut r: u8 = 0;
        if self.cells[yu * W + xl].is_alive() {
            r = r + 1;
        }
        if self.cells[yu * W + wx].is_alive() {
            r = r + 1;
        }
        if self.cells[yu * W + xr].is_alive() {
            r = r + 1;
        }
        if self.cells[wy * W + xl].is_alive() {
            r = r + 1;
        }
        if self.cells[wy * W + xr].is_alive() {
            r = r + 1;
        }
        if self.cells[yd * W + xl].is_alive() {
            r = r + 1;
        }
        if self.cells[yd * W + wx].is_alive() {
            r = r + 1;
        }
        if self.cells[yd * W + xr].is_alive() {
            r = r + 1;
        }
        r
    }
}

} // verus!
