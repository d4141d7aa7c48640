//! The playing field's dimensions and its cell coordinates.

use vstd::prelude::*;

verus! {

/// Number of columns of the playing field.
pub const COL_NUM: usize = 12;

/// Number of rows of the playing field.
pub const ROW_NUM: usize = 20;

/// Lowest row of the danger zone: a locked cell in this row or above ends the
/// game.
pub const DANGER_ROW: usize = 18;

/// A position on the integer lattice: `col` grows to the right, `row` grows
/// upwards, and row 0 is the floor row.
#[derive(Clone, Copy, Debug, PartialEq, Eq, Structural)]
pub struct Cell {
    pub col: i32,
    pub row: i32,
}

impl Cell {
    /// Whether the cell lies on the playing field.
    pub open spec fn in_bounds(self) -> bool {
        0 <= self.col < COL_NUM && 0 <= self.row < ROW_NUM
    }

    /// Tells whether the cell lies on the playing field.
    pub fn is_in_bounds(&self) -> (b: bool)
        ensures
            b == self.in_bounds(),
    {
        0 <= self.col && self.col < 12 && 0 <= self.row && self.row < 20
    }
}

} // verus!
