//! The cell type of the grid variant under [`crate::gol::types`]: an alive
//! flag and a cached count of live Moore neighbors, maintained incrementally
//! by the owning [`crate::gol::types::cell_array::CellArray`].

use vstd::prelude::*;

use crate::bitstring::{byte_bit_string, byte_bits};
use crate::torus::{bit, CellState};

verus! {

/// The state of one cell: whether it is alive, and how many of its eight
/// Moore neighbors are alive, maintained incrementally by the owning grid.
/// Packed, the state is one byte: the alive flag in bit 0 and the count in
/// bits 1 to 4, the top three bits always zero.
#[derive(Debug, Copy, Clone)]
pub struct Cell {
    alive: bool,
    count: u8,
}

impl View for Cell {
    type V = CellState;

    closed spec fn view(&self) -> CellState {
        CellState { alive: self.alive, count: self.count as int }
    }
}

/// The packed byte value of a cell state: the alive flag in the lowest bit,
/// the neighbor count in the four bits above it.
pub open spec fn spec_byte(c: CellState) -> int {
    2 * c.count + bit(c.alive)
}

impl Cell {
    /// A dead cell with a zero neighbor count.
    pub fn new() -> (c: Cell)
        ensures
            c@ == (CellState { alive: false, count: 0 }),
    {
        Cell { alive: false, count: 0 }
    }

    /// Sets the alive flag. The neighbor count is untouched. Idempotent.
    pub fn spawn(&mut self)
        ensures
            final(self)@ == (CellState { alive: true, count: old(self)@.count }),
    {
        self.alive = true;
    }

    /// Clears the alive flag. The neighbor count is untouched. Idempotent.
    pub fn kill(&mut self)
        ensures
            final(self)@ == (CellState { alive: false, count: old(self)@.count }),
    {
        self.alive = false;
    }

    /// The cached neighbor count.
    pub fn neighbours(&self) -> (n: u8)
        ensures
            n as int == self@.count,
    {
        self.count
    }

    /// Whether the cell is alive.
    pub fn alive(&self) -> (a: bool)
        ensures
            a == self@.alive,
    {
        self.alive
    }

    /// Raises the cached neighbor count by one. A count above 8 cannot
    /// describe a Moore neighborhood, so pushing past 8 is a contract
    /// violation and is excluded here rather than wrapped or saturated.
    pub fn add_neighbour(&mut self)
        requires
            old(self)@.count < 8,
        ensures
            final(self)@ == (CellState { alive: old(self)@.alive, count: old(self)@.count + 1 }),
    {
        self.count = self.count + 1;
    }

    /// Lowers the cached neighbor count by one; a count of zero stays zero
    /// rather than underflowing.
    pub fn remove_neighbour(&mut self)
        ensures
            final(self)@ == (CellState {
                alive: old(self)@.alive,
                count: if old(self)@.count == 0 {
                    0int
                } else {
                    old(self)@.count - 1
                },
            }),
    {
        if self.count > 0 {
            self.count = self.count - 1;
        }
    }

    /// The packed byte, rendered as eight binary digits.
    pub fn to_string(&self) -> (s: String)
        requires
            self@.count <= 8,
        ensures
            s@ == byte_bits(spec_byte(self@)),
    {
        let packed: u8 = 2 * self.count + if self.alive {
            1
        } else {
            0
        };
        byte_bit_string(packed)
    }
}

impl PartialEq<u8> for Cell {
    /// A cell equals a byte when its packed value is that byte.
    fn eq(&self, other: &u8) -> (r: bool) {
        let packed: u16 = 2 * (self.count as u16) + if self.alive {
            1
        } else {
            0
        };
        packed == *other as u16
    }
}

impl vstd::std_specs::cmp::PartialEqSpecImpl<u8> for Cell {
    open spec fn obeys_eq_spec() -> bool {
        true
    }

    open spec fn eq_spec(&self, other: &u8) -> bool {
        spec_byte(self@) == *other as int
    }
}

} // verus!
