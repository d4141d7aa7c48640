//! The piece in play: a shape and the pivot it hangs on.
//!
//! The pivot is a corner of the lattice, measured in half cells from the
//! lower left corner of the cell at column 0, row 0, whose centre is the
//! origin: cell centres have even coordinates and corners odd ones. A move is
//! proposed first, as a new piece, and put in place only where the resolver
//! accepts it.

use crate::grid::Cell;
use crate::shape::{lemma_four_turns, lemma_turned_valid, turned, valid_offsets, Offset, PieceShape};
use vstd::prelude::*;

verus! {

/// Pivot of a piece that has just entered the field, across.
pub const SPAWN_X: i32 = 11;

/// Pivot of a piece that has just entered the field, upwards.
pub const SPAWN_Y: i32 = 35;

/// Smallest pivot coordinate of a piece.
pub const PIVOT_MIN: i32 = -2_000_000_001;

/// Largest pivot coordinate of a piece.
pub const PIVOT_MAX: i32 = 2_000_000_001;

/// A point of the lattice in half cells.
#[derive(Clone, Copy, Debug, PartialEq, Eq, Structural)]
pub struct Pivot {
    pub x: i32,
    pub y: i32,
}

/// The model of a piece: its shape's offsets and its pivot.
pub struct PieceView {
    pub offsets: Seq<Offset>,
    pub pivot: Pivot,
}

/// A pivot coordinate is odd and within the limits.
pub open spec fn valid_coordinate(v: i32) -> bool {
    PIVOT_MIN <= v <= PIVOT_MAX && v % 2 == 1
}

/// The cell whose centre lies `o` away from the pivot `p`.
pub open spec fn cell_at(p: Pivot, o: Offset) -> Cell {
    Cell { col: ((p.x + o.dx) / 2) as i32, row: ((p.y + o.dy) / 2) as i32 }
}

impl PieceView {
    /// Validity of a piece: a valid shape on a valid pivot.
    pub open spec fn valid(self) -> bool {
        &&& valid_offsets(self.offsets)
        &&& valid_coordinate(self.pivot.x)
        &&& valid_coordinate(self.pivot.y)
    }

    /// The four cells that the piece covers.
    pub open spec fn cells(self) -> Seq<Cell> {
        Seq::new(4, |i: int| cell_at(self.pivot, self.offsets[i]))
    }

    /// The piece moved by `dx` columns and `dy` rows.
    pub open spec fn translated(self, dx: int, dy: int) -> PieceView {
        PieceView {
            offsets: self.offsets,
            pivot: Pivot {
                x: (self.pivot.x + 2 * dx) as i32,
                y: (self.pivot.y + 2 * dy) as i32,
            },
        }
    }

    /// Whether the piece moved by `dx` columns and `dy` rows keeps its pivot
    /// within the limits.
    pub open spec fn can_translate(self, dx: int, dy: int) -> bool {
        &&& PIVOT_MIN <= self.pivot.x + 2 * dx <= PIVOT_MAX
        &&& PIVOT_MIN <= self.pivot.y + 2 * dy <= PIVOT_MAX
    }

    /// The piece after a quarter turn about its pivot.
    pub open spec fn rotated(self) -> PieceView {
        PieceView { offsets: turned(self.offsets), pivot: self.pivot }
    }
}

/// The model of a piece of the given shape where pieces enter the field.
pub open spec fn spawned(offsets: Seq<Offset>) -> PieceView {
    PieceView { offsets, pivot: Pivot { x: SPAWN_X, y: SPAWN_Y } }
}

/// A quarter turn keeps a piece valid and its pivot in place.
pub proof fn lemma_rotated_valid(p: PieceView)
    requires
        p.valid(),
    ensures
        p.rotated().valid(),
        p.rotated().pivot == p.pivot,
{
    lemma_turned_valid(p.offsets);
}

/// A move within the limits keeps a piece valid, and each of its cells moves
/// by as many columns and rows.
pub proof fn lemma_translated_cells(p: PieceView, dx: int, dy: int)
    requires
        p.valid(),
        p.can_translate(dx, dy),
    ensures
        p.translated(dx, dy).valid(),
        forall|i: int|
            0 <= i < 4 ==> (#[trigger] p.translated(dx, dy).cells()[i]).col == p.cells()[i].col
                + dx && p.translated(dx, dy).cells()[i].row == p.cells()[i].row + dy,
{
    let q = p.translated(dx, dy);
    assert forall|i: int| 0 <= i < 4 implies (#[trigger] q.cells()[i]).col == p.cells()[i].col
        + dx && q.cells()[i].row == p.cells()[i].row + dy by {
        assert(crate::shape::valid_offset(p.offsets[i]));
    }
}

/// Four quarter turns bring a piece back to where it was: the same pivot, the
/// same offsets, and so the same four cells.
pub proof fn lemma_four_rotations_restore(p: PieceView)
    requires
        p.valid(),
    ensures
        p.rotated().rotated().rotated().rotated() == p,
        p.rotated().rotated().rotated().rotated().cells() == p.cells(),
{
    lemma_four_turns(p.offsets);
}

/// The piece that the player steers.
#[derive(Clone, Copy, Debug, PartialEq, Eq)]
pub struct ActivePiece {
    shape: PieceShape,
    pivot: Pivot,
}

impl View for ActivePiece {
    type V = PieceView;

    closed spec fn view(&self) -> PieceView {
        PieceView { offsets: self.shape@, pivot: self.pivot }
    }
}

impl ActivePiece {
    /// Validity of a piece.
    pub open spec fn wf(&self) -> bool {
        self@.valid()
    }

    /// A piece of the given shape where pieces enter the field.
    pub fn spawn(shape: PieceShape) -> (piece: ActivePiece)
        requires
            shape.wf(),
        ensures
            piece.wf(),
            piece@ == spawned(shape@),
    {
        ActivePiece { shape, pivot: Pivot { x: SPAWN_X, y: SPAWN_Y } }
    }

    /// The piece's shape as it is turned now.
    pub fn shape(&self) -> (shape: PieceShape)
        ensures
            shape@ == self@.offsets,
    {
        self.shape
    }

    /// The piece's pivot.
    pub fn pivot(&self) -> (pivot: Pivot)
        ensures
            pivot == self@.pivot,
    {
        self.pivot
    }

    /// The four cells that the piece covers.
    pub fn cells(&self) -> (cells: [Cell; 4])
        requires
            self.wf(),
        ensures
            cells@ == self@.cells(),
    {
        let offsets = self.shape.offsets();
        let cells = [
            self.cell(offsets[0]),
            self.cell(offsets[1]),
            self.cell(offsets[2]),
            self.cell(offsets[3]),
        ];
        assert(cells@ =~= self@.cells());
        cells
    }

    fn cell(&self, o: Offset) -> (cell: Cell)
        requires
            valid_coordinate(self@.pivot.x),
            valid_coordinate(self@.pivot.y),
            crate::shape::valid_offset(o),
        ensures
            cell == cell_at(self@.pivot, o),
    {
        Cell { col: (self.pivot.x + o.dx) / 2, row: (self.pivot.y + o.dy) / 2 }
    }

    /// Proposes the piece moved by `dx` columns and `dy` rows, where the
    /// moved pivot stays within the limits. The piece itself stays.
    pub fn translate(&self, dx: i32, dy: i32) -> (piece: ActivePiece)
        requires
            self.wf(),
            self@.can_translate(dx as int, dy as int),
        ensures
            piece.wf(),
            piece@ == self@.translated(dx as int, dy as int),
    {
        let x = (self.pivot.x as i64 + 2 * (dx as i64)) as i32;
        let y = (self.pivot.y as i64 + 2 * (dy as i64)) as i32;
        ActivePiece { shape: self.shape, pivot: Pivot { x, y } }
    }

    /// Tells whether `translate` may be called with `dx` and `dy`.
    pub fn can_translate(&self, dx: i32, dy: i32) -> (ok: bool)
        ensures
            ok == self@.can_translate(dx as int, dy as int),
    {
        let x = self.pivot.x as i64 + 2 * (dx as i64);
        let y = self.pivot.y as i64 + 2 * (dy as i64);
        PIVOT_MIN as i64 <= x && x <= PIVOT_MAX as i64 && PIVOT_MIN as i64 <= y && y
            <= PIVOT_MAX as i64
    }

    /// Proposes the piece after a quarter turn about its pivot. The piece
    /// itself stays.
    pub fn rotate(&self) -> (piece: ActivePiece)
        requires
            self.wf(),
        ensures
            piece.wf(),
            piece@ == self@.rotated(),
    {
        ActivePiece { shape: self.shape.rotated(), pivot: self.pivot }
    }
}

} // verus!
