//! The collision and movement resolver: whether a proposed position of a
//! piece is legal on a board.
//!
//! A position is legal when each of its cells lies between the walls, on or
//! above the floor and below the ceiling, and on no locked cell. Cells are
//! compared exactly, by their coordinates.

use crate::board::{placeable, Board};
use crate::grid::Cell;
use crate::piece::ActivePiece;
use vstd::prelude::*;

verus! {

/// Tells whether all four cells lie on the playing field and are free.
pub fn cells_fit(board: &Board, cells: &[Cell; 4]) -> (ok: bool)
    requires
        board.wf(),
    ensures
        ok == placeable(board@, cells@),
{
    let mut i: usize = 0;
    while i < 4
        invariant
            i <= 4,
            board.wf(),
            forall|j: int|
                0 <= j < i ==> (#[trigger] cells@[j]).in_bounds() && !board.occupied(cells@[j]),
        decreases 4 - i,
    {
        let cell = cells[i];
        if !cell.is_in_bounds() || board.is_occupied(cell) {
            assert(cell == cells@[i as int]);
            return false;
        }
        i += 1;
    }
    true
}

/// Tells whether the piece, where it stands, is legal on the board.
pub fn is_legal(board: &Board, piece: &ActivePiece) -> (ok: bool)
    requires
        board.wf(),
        piece.wf(),
    ensures
        ok == placeable(board@, piece@.cells()),
{
    let cells = piece.cells();
    cells_fit(board, &cells)
}

} // verus!
