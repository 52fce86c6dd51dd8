//! The cell state and grid coordinates.

use vstd::prelude::*;

verus! {

/// The binary state of one grid cell.
#[derive(Clone, Copy, PartialEq, Eq, Structural, Debug)]
pub enum Cell {
    Alive,
    Dead,
}

impl Cell {
    /// True exactly when the cell is alive.
    pub open spec fn is_alive(self) -> bool {
        self is Alive
    }

    /// A live cell.
    pub fn alive() -> (c: Cell)
        ensures
            c == Cell::Alive,
    {
        Cell::Alive
    }

    /// A dead cell.
    pub fn dead() -> (c: Cell)
        ensures
            c == Cell::Dead,
    {
        Cell::Dead
    }

    /// The opposite state: alive becomes dead and dead becomes alive.
    pub fn not(&self) -> (c: Cell)
        ensures
            c.is_alive() == !self.is_alive(),
    {
        match self {
            Cell::Alive => Cell::dead(),
            Cell::Dead => Cell::alive(),
        }
    }
}

/// A `(row, col)` position; it is interpreted modulo the dimensions of the
/// grid it is applied to, so any pair of values is meaningful.
#[derive(Clone, Copy, PartialEq, Eq, Structural, Debug)]
pub struct Coordinates {
    pub row: usize,
    pub col: usize,
}

impl Coordinates {
    pub fn new(row: usize, col: usize) -> (c: Coordinates)
        ensures
            c.row == row,
            c.col == col,
    {
        Coordinates { row, col }
    }
}

} // verus!
