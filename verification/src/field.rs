//! A cell and a fixed-size field of cells addressed by in-range coordinates.
//!
//! This is the plain variant of the grid: no toroidal wrapping and no
//! incremental bookkeeping, just bounds-checked access to cells that carry an
//! alive flag and a stored neighbor count.

use vstd::prelude::*;

use crate::bitstring::{byte_bit_string, byte_bits};
use crate::torus::{bit, CellState};

verus! {

/// The state of one cell: whether it is alive, and a stored count of live
/// neighbors. Packed, the state is one byte: the alive flag in bit 0 and the
/// count in bits 1 to 4, the top three bits always zero.
#[derive(Debug, Copy, Clone)]
pub struct Cell {
    alive: bool,
    count: u8,
}

impl View for Cell {
    type V = CellState;

    closed spec fn view(&self) -> CellState {
        CellState { alive: self.alive, count: self.count as int }
    }
}

/// The packed byte value of a cell state: the alive flag in the lowest bit,
/// the neighbor count in the four bits above it.
pub open spec fn spec_byte(c: CellState) -> int {
    2 * c.count + bit(c.alive)
}

impl Cell {
    /// A dead cell with a zero neighbor count.
    fn new() -> (c: Cell)
        ensures
            c@ == (CellState { alive: false, count: 0 }),
    {
        Cell { alive: false, count: 0 }
    }

    /// Sets the alive flag. The neighbor count is untouched. Idempotent.
    pub fn spawn(&mut self)
        ensures
            final(self)@ == (CellState { alive: true, count: old(self)@.count }),
    {
        self.alive = true;
    }

    /// Clears the alive flag. The neighbor count is untouched. Idempotent.
    pub fn kill(&mut self)
        ensures
            final(self)@ == (CellState { alive: false, count: old(self)@.count }),
    {
        self.alive = false;
    }

    /// Overwrites the stored neighbor count. A cell has eight neighbors, so
    /// larger counts are rejected.
    pub fn set_neighbors(&mut self, count: u8)
        requires
            count <= 8,
        ensures
            final(self)@ == (CellState { alive: old(self)@.alive, count: count as int }),
    {
        self.count = count;
    }

    /// The stored neighbor count.
    pub fn neighbour_cnt(&self) -> (n: u8)
        ensures
            n as int == self@.count,
    {
        self.count
    }

    /// Whether the cell is alive.
    pub fn is_alive(&self) -> (a: bool)
        ensures
            a == self@.alive,
    {
        self.alive
    }

    /// Resets the cell to the all-zero state: dead, zero neighbors.
    pub fn clear(&mut self)
        ensures
            final(self)@ == (CellState { alive: false, count: 0 }),
    {
        self.alive = false;
        self.count = 0;
    }

    /// The packed byte, rendered as eight binary digits.
    pub fn to_string(&self) -> (s: String)
        requires
            self@.count <= 8,
        ensures
            s@ == byte_bits(spec_byte(self@)),
    {
        let packed: u8 = 2 * self.count + if self.alive {
            1
        } else {
            0
        };
        byte_bit_string(packed)
    }
}

impl PartialEq<u8> for Cell {
    /// A cell equals a byte when its packed value is that byte.
    fn eq(&self, other: &u8) -> (r: bool) {
        let packed: u16 = 2 * (self.count as u16) + if self.alive {
            1
        } else {
            0
        };
        packed == *other as u16
    }
}

impl vstd::std_specs::cmp::PartialEqSpecImpl<u8> for Cell {
    open spec fn obeys_eq_spec() -> bool {
        true
    }

    open spec fn eq_spec(&self, other: &u8) -> bool {
        spec_byte(self@) == *other as int
    }
}

/// An `H` by `W` field of cells in one row-major buffer. Coordinates must be
/// in range: `x` names the column and `y` the row.
#[derive(Debug)]
pub struct Field<const H: usize, const W: usize> {
    cells: Vec<Cell>,
}

impl<const H: usize, const W: usize> Field<H, W> {
    /// The mathematical contents of the field, row-major.
    pub closed spec fn grid(&self) -> Seq<CellState> {
        self.cells@.map_values(|c: Cell| c@)
    }

    /// The field holds exactly one cell per coordinate.
    pub open spec fn wf(&self) -> bool {
        self.grid().len() == W * H
    }

    /// A fresh field: every cell dead with a zero count.
    pub fn new() -> (r: Field<H, W>)
        requires
            W * H <= usize::MAX,
        ensures
            r.wf(),
            forall|j: int|
                0 <= j < r.grid().len() ==> #[trigger] r.grid()[j] == (CellState {
                    alive: false,
                    count: 0,
                }),
    {
        let n = W * H;
        let mut cells: Vec<Cell> = Vec::new();
        let mut i: usize = 0;
        while i < n
            invariant
                i <= n,
                cells@.len() == i,
                forall|j: int|
                    0 <= j < i ==> (#[trigger] cells@[j])@ == (CellState {
                        alive: false,
                        count: 0,
                    }),
            decreases n - i,
        {
            cells.push(Cell::new());
            i = i + 1;
        }
        Field::<H, W> { cells }
    }

    /// The cell at column `x` of row `y`.
    pub fn cell(&self, x: usize, y: usize) -> (c: &Cell)
        requires
            self.wf(),
            x < W,
            y < H,
        ensures
            c@ == self.grid()[y * W + x],
    {
        let _len = self.cells.len();
        proof {
            assert((y as int) * (W as int) + (x as int) < (W as int) * (H as int))
                by (nonlinear_arith)
                requires
                    x < W,
                    y < H,
            ;
        }
        let idx = y * W + x;
        &self.cells[idx]
    }

    /// A mutable borrow of the cell at column `x` of row `y`.
    pub fn mut_cell(&mut self, x: usize, y: usize) -> (c: &mut Cell)
        requires
            old(self).wf(),
            x < W,
            y < H,
        ensures
            (*c)@ == old(self).grid()[y * W + x],
            final(self).grid().len() == old(self).grid().len(),
            final(self).grid()[y * W + x] == (*final(c))@,
            forall|j: int|
                0 <= j < old(self).grid().len() && j != y * W + x
                    ==> #[trigger] final(self).grid()[j] == old(self).grid()[j],
            final(self).wf(),
    {
        let _len = self.cells.len();
        proof {
            assert((y as int) * (W as int) + (x as int) < (W as int) * (H as int))
                by (nonlinear_arith)
                requires
                    x < W,
                    y < H,
            ;
        }
        let idx = y * W + x;
        &mut self.cells[idx]
    }

    /// Clears every cell to the all-zero state: all dead, all counts zero.
    pub fn reset(&mut self)
        requires
            old(self).wf(),
        ensures
            final(self).wf(),
            forall|j: int|
                0 <= j < final(self).grid().len() ==> #[trigger] final(self).grid()[j]
                    == (CellState { alive: false, count: 0 }),
    {
        let n = self.cells.len();
        let mut i: usize = 0;
        while i < n
            invariant
                i <= n,
                self.cells@.len() == n,
                forall|j: int|
                    0 <= j < i ==> (#[trigger] self.cells@[j])@ == (CellState {
                        alive: false,
                        count: 0,
                    }),
            decreases n - i,
        {
            let c = &mut self.cells[i];
            c.clear();
            i = i + 1;
        }
    }
}

} // verus!
