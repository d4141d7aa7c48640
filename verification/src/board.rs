//! The settled stack: which cells of the playing field are locked.
//!
//! The model of a board is its grid, a sequence of `ROW_NUM` rows from the
//! floor upwards, each a sequence of `COL_NUM` occupancy flags from left to
//! right.

use crate::grid::{Cell, COL_NUM, DANGER_ROW, ROW_NUM};
use vstd::prelude::*;

verus! {

/// A row without any locked cell.
pub open spec fn empty_row() -> Seq<bool> {
    Seq::new(COL_NUM as nat, |c: int| false)
}

/// The grid without any locked cell.
pub open spec fn empty_grid() -> Seq<Seq<bool>> {
    Seq::new(ROW_NUM as nat, |r: int| empty_row())
}

/// A grid has `ROW_NUM` rows of `COL_NUM` cells each.
pub open spec fn is_grid(g: Seq<Seq<bool>>) -> bool {
    &&& g.len() == ROW_NUM
    &&& forall|r: int| 0 <= r < ROW_NUM ==> (#[trigger] g[r]).len() == COL_NUM
}

/// Number of locked cells in a row.
pub open spec fn occupancy(row: Seq<bool>) -> nat
    decreases row.len(),
{
    if row.len() == 0 {
        0
    } else {
        occupancy(row.drop_last()) + if row.last() {
            1nat
        } else {
            0nat
        }
    }
}

/// Number of locked cells in a stack of rows.
pub open spec fn total_occupancy(g: Seq<Seq<bool>>) -> nat
    decreases g.len(),
{
    if g.len() == 0 {
        0
    } else {
        total_occupancy(g.drop_last()) + occupancy(g.last())
    }
}

/// A row is full when every one of its `COL_NUM` cells is locked.
pub open spec fn is_full_row(row: Seq<bool>) -> bool {
    occupancy(row) == COL_NUM
}

/// Whether `cell` is a locked cell of the grid. Cells off the playing field
/// are never locked.
pub open spec fn grid_occupied(g: Seq<Seq<bool>>, cell: Cell) -> bool {
    cell.in_bounds() && g[cell.row as int][cell.col as int]
}

/// The grid `g` with the cells `cells` locked in addition.
pub open spec fn grid_with(g: Seq<Seq<bool>>, cells: Seq<Cell>) -> Seq<Seq<bool>> {
    Seq::new(
        ROW_NUM as nat,
        |r: int|
            Seq::new(
                COL_NUM as nat,
                |c: int| g[r][c] || cells.contains(Cell { col: c as i32, row: r as i32 }),
            ),
    )
}

/// The grid `g` after row `row` has been taken out: the rows above it move
/// down by one and an empty row enters at the top. A row index off the grid
/// changes nothing.
pub open spec fn grid_without_row(g: Seq<Seq<bool>>, row: int) -> Seq<Seq<bool>> {
    if 0 <= row < g.len() {
        g.remove(row).push(empty_row())
    } else {
        g
    }
}

/// Whether every one of `cells` lies on the playing field and is not locked:
/// the wall rule and the floor and stack rule together.
pub open spec fn placeable(g: Seq<Seq<bool>>, cells: Seq<Cell>) -> bool {
    forall|i: int|
        0 <= i < cells.len() ==> (#[trigger] cells[i]).in_bounds() && !grid_occupied(g, cells[i])
}

/// The order in which the cells of a board are listed: by rows from the
/// floor upwards, and from left to right within a row.
pub open spec fn comes_before(a: Cell, b: Cell) -> bool {
    a.row < b.row || (a.row == b.row && a.col < b.col)
}

/// Whether a locked cell lies in the danger zone at the top of the grid.
pub open spec fn reaches_danger_zone(g: Seq<Seq<bool>>) -> bool {
    exists|cell: Cell| #[trigger] grid_occupied(g, cell) && cell.row >= DANGER_ROW
}

/// Appending a cell to a row adds it to the row's count.
pub proof fn lemma_occupancy_push(row: Seq<bool>, b: bool)
    ensures
        occupancy(row.push(b)) == occupancy(row) + if b {
            1nat
        } else {
            0nat
        },
{
    assert(row.push(b).drop_last() =~= row);
}

/// A row cannot have more locked cells than cells.
pub proof fn lemma_occupancy_bound(row: Seq<bool>)
    ensures
        occupancy(row) <= row.len(),
    decreases row.len(),
{
    if row.len() > 0 {
        lemma_occupancy_bound(row.drop_last());
    }
}

/// A row counts zero exactly when none of its cells is locked.
pub proof fn lemma_occupancy_zero(row: Seq<bool>)
    ensures
        occupancy(row) == 0 <==> forall|c: int| 0 <= c < row.len() ==> !row[c],
    decreases row.len(),
{
    if row.len() > 0 {
        lemma_occupancy_zero(row.drop_last());
        if occupancy(row) == 0 {
            assert forall|c: int| 0 <= c < row.len() implies !row[c] by {
                if c < row.len() - 1 {
                    assert(row.drop_last()[c] == row[c]);
                }
            }
        } else if row.last() {
        } else {
            let c = choose|c: int| 0 <= c < row.len() - 1 && row.drop_last()[c];
            assert(row[c]);
        }
    }
}

/// A row counts its length exactly when all of its cells are locked.
pub proof fn lemma_occupancy_all(row: Seq<bool>)
    ensures
        occupancy(row) == row.len() <==> forall|c: int| 0 <= c < row.len() ==> row[c],
    decreases row.len(),
{
    if row.len() > 0 {
        lemma_occupancy_all(row.drop_last());
        lemma_occupancy_bound(row.drop_last());
        if occupancy(row) == row.len() {
            assert forall|c: int| 0 <= c < row.len() implies row[c] by {
                if c < row.len() - 1 {
                    assert(row.drop_last()[c] == row[c]);
                }
            }
        } else if !row.last() {
        } else {
            let c = choose|c: int| 0 <= c < row.len() - 1 && !row.drop_last()[c];
            assert(!row[c]);
        }
    }
}

/// The empty row counts zero.
pub proof fn lemma_empty_row_occupancy()
    ensures
        occupancy(empty_row()) == 0,
{
    lemma_occupancy_zero(empty_row());
}

/// Appending a row to a stack adds the row's count to the stack's.
pub proof fn lemma_total_push(g: Seq<Seq<bool>>, row: Seq<bool>)
    ensures
        total_occupancy(g.push(row)) == total_occupancy(g) + occupancy(row),
{
    assert(g.push(row).drop_last() =~= g);
}

/// Taking a row out of a stack takes the row's count off the stack's.
pub proof fn lemma_total_remove(g: Seq<Seq<bool>>, row: int)
    requires
        0 <= row < g.len(),
    ensures
        total_occupancy(g.remove(row)) + occupancy(g[row]) == total_occupancy(g),
    decreases g.len(),
{
    if row == g.len() - 1 {
        assert(g.remove(row) =~= g.drop_last());
    } else {
        lemma_total_remove(g.drop_last(), row);
        assert(g.remove(row).drop_last() =~= g.drop_last().remove(row));
        assert(g.remove(row).last() == g.last());
    }
}

/// Taking a row out of a grid lowers the number of locked cells by exactly
/// the number that the row held, leaves the rows below it alone, and moves
/// each row above it down by one, so that they keep their order.
pub proof fn lemma_row_removal(g: Seq<Seq<bool>>, row: int)
    requires
        is_grid(g),
        0 <= row < ROW_NUM,
    ensures
        is_grid(grid_without_row(g, row)),
        total_occupancy(grid_without_row(g, row)) + occupancy(g[row]) == total_occupancy(g),
        occupancy(g[row]) > 0 ==> total_occupancy(grid_without_row(g, row)) < total_occupancy(g),
        forall|r: int| 0 <= r < row ==> grid_without_row(g, row)[r] == g[r],
        forall|r: int| row <= r < ROW_NUM - 1 ==> grid_without_row(g, row)[r] == g[r + 1],
        grid_without_row(g, row)[ROW_NUM - 1] == empty_row(),
{
    lemma_total_remove(g, row);
    lemma_total_push(g.remove(row), empty_row());
    lemma_empty_row_occupancy();
}

/// Membership in a sequence that grew by one element.
proof fn lemma_push_contains<A>(s: Seq<A>, x: A, y: A)
    ensures
        s.push(x).contains(y) <==> s.contains(y) || y == x,
{
    if s.push(x).contains(y) {
        let i = choose|i: int| 0 <= i < s.push(x).len() && s.push(x)[i] == y;
        if i < s.len() {
            assert(s[i] == y);
        }
    }
    if s.contains(y) {
        let i = choose|i: int| 0 <= i < s.len() && s[i] == y;
        assert(s.push(x)[i] == y);
    }
    if y == x {
        assert(s.push(x)[s.len() as int] == y);
    }
}

/// The locked cells of the playing field.
#[derive(Debug)]
pub struct Board {
    rows: Vec<Vec<bool>>,
}

impl View for Board {
    type V = Seq<Seq<bool>>;

    closed spec fn view(&self) -> Seq<Seq<bool>> {
        Seq::new(self.rows@.len(), |r: int| self.rows@[r]@)
    }
}

fn new_row() -> (row: Vec<bool>)
    ensures
        row@ == empty_row(),
{
    let mut row: Vec<bool> = Vec::new();
    let mut c: usize = 0;
    while c < COL_NUM
        invariant
            c <= COL_NUM,
            row@.len() == c,
            forall|i: int| 0 <= i < c ==> !row@[i],
        decreases COL_NUM - c,
    {
        row.push(false);
        c += 1;
    }
    assert(row@ =~= empty_row());
    row
}

impl Board {
    /// Validity of a board: its model is a grid.
    pub open spec fn wf(&self) -> bool {
        is_grid(self@)
    }

    /// Whether `cell` is locked on this board.
    pub open spec fn occupied(&self, cell: Cell) -> bool {
        grid_occupied(self@, cell)
    }

    /// A board without any locked cell.
    pub fn new() -> (board: Board)
        ensures
            board.wf(),
            board@ == empty_grid(),
    {
        let mut rows: Vec<Vec<bool>> = Vec::new();
        let mut r: usize = 0;
        while r < ROW_NUM
            invariant
                r <= ROW_NUM,
                rows@.len() == r,
                forall|i: int| 0 <= i < r ==> (#[trigger] rows@[i])@ == empty_row(),
            decreases ROW_NUM - r,
        {
            rows.push(new_row());
            r += 1;
        }
        let board = Board { rows };
        assert(board@ =~= empty_grid());
        board
    }

    /// Tells whether `cell` is locked. A cell off the playing field is not.
    pub fn is_occupied(&self, cell: Cell) -> (b: bool)
        requires
            self.wf(),
        ensures
            b == self.occupied(cell),
    {
        if cell.is_in_bounds() {
            assert(self@[cell.row as int] == self.rows@[cell.row as int]@);
            self.rows[cell.row as usize][cell.col as usize]
        } else {
            false
        }
    }

    /// Number of locked cells in row `row`; zero for a row off the board.
    pub fn row_count(&self, row: usize) -> (n: usize)
        requires
            self.wf(),
        ensures
            row < ROW_NUM ==> n == occupancy(self@[row as int]),
            row >= ROW_NUM ==> n == 0,
            n <= COL_NUM,
    {
        if row >= ROW_NUM {
            return 0;
        }
        let cells = &self.rows[row];
        assert(cells@ == self@[row as int]);
        let mut n: usize = 0;
        let mut c: usize = 0;
        while c < COL_NUM
            invariant
                c <= COL_NUM,
                cells@.len() == COL_NUM,
                n == occupancy(cells@.take(c as int)),
                n <= c,
            decreases COL_NUM - c,
        {
            proof {
                lemma_occupancy_push(cells@.take(c as int), cells@[c as int]);
                assert(cells@.take(c as int).push(cells@[c as int]) =~= cells@.take(c + 1));
            }
            if cells[c] {
                n += 1;
            }
            c += 1;
        }
        assert(cells@.take(COL_NUM as int) =~= cells@);
        n
    }

    /// Takes row `row` out of the board: every row above it moves down by
    /// one, the rows below it stay, and the top row becomes empty. The number
    /// of locked cells drops by exactly the number that the row held.
    pub fn remove_row(&mut self, row: usize)
        requires
            old(self).wf(),
        ensures
            final(self).wf(),
            final(self)@ == grid_without_row(old(self)@, row as int),
            row < ROW_NUM ==> total_occupancy(final(self)@) + occupancy(old(self)@[row as int])
                == total_occupancy(old(self)@),
            row < ROW_NUM ==> forall|r: int| 0 <= r < row ==> final(self)@[r] == old(self)@[r],
            row < ROW_NUM ==> forall|r: int|
                row <= r < ROW_NUM - 1 ==> final(self)@[r] == old(self)@[r + 1],
            row < ROW_NUM ==> final(self)@[ROW_NUM - 1] == empty_row(),
    {
        if row < ROW_NUM {
            let _ = self.rows.remove(row);
            self.rows.push(new_row());
            proof {
                assert(self@ =~= grid_without_row(old(self)@, row as int));
                lemma_row_removal(old(self)@, row as int);
            }
        }
    }
    /// Locks the four cells of a piece. The caller has made sure that each
    /// lies on the playing field and is free.
    pub fn lock(&mut self, cells: [Cell; 4])
        requires
            old(self).wf(),
            placeable(old(self)@, cells@),
        ensures
            final(self).wf(),
            final(self)@ == grid_with(old(self)@, cells@),
    {
        let mut i: usize = 0;
        assert(self@ =~~= grid_with(self@, cells@.take(0)));
        while i < 4
            invariant
                i <= 4,
                self.wf(),
                placeable(old(self)@, cells@),
                self@ == grid_with(old(self)@, cells@.take(i as int)),
            decreases 4 - i,
        {
            let cell = cells[i];
            assert(cell == cells@[i as int]);
            assert(self@[cell.row as int] == self.rows@[cell.row as int]@);
            let ghost prior = self@;
            self.rows[cell.row as usize][cell.col as usize] = true;
            proof {
                assert(self@ =~~= prior.update(
                    cell.row as int,
                    prior[cell.row as int].update(cell.col as int, true),
                ));
                let before = grid_with(old(self)@, cells@.take(i as int));
                let after = grid_with(old(self)@, cells@.take(i + 1));
                assert(cells@.take(i + 1) =~= cells@.take(i as int).push(cell));
                assert forall|r: int, c: int| 0 <= r < ROW_NUM && 0 <= c < COL_NUM implies (
                #[trigger] self@[r][c]) == after[r][c] by {
                    lemma_push_contains(
                        cells@.take(i as int),
                        cell,
                        Cell { col: c as i32, row: r as i32 },
                    );
                    assert(before[r][c] == (old(self)@[r][c] || cells@.take(i as int).contains(
                        Cell { col: c as i32, row: r as i32 },
                    )));
                }
                assert(self@ =~~= after);
            }
            i += 1;
        }
        assert(cells@.take(4) =~= cells@);
    }

    /// Empties the board.
    pub fn clear(&mut self)
        ensures
            final(self).wf(),
            final(self)@ == empty_grid(),
    {
        *self = Board::new();
    }

    /// Number of locked cells on the whole board.
    pub fn occupied_count(&self) -> (n: usize)
        requires
            self.wf(),
        ensures
            n == total_occupancy(self@),
    {
        let mut n: usize = 0;
        let mut r: usize = 0;
        while r < ROW_NUM
            invariant
                r <= ROW_NUM,
                self.wf(),
                n == total_occupancy(self@.take(r as int)),
                n <= COL_NUM * r,
            decreases ROW_NUM - r,
        {
            proof {
                lemma_total_push(self@.take(r as int), self@[r as int]);
                assert(self@.take(r as int).push(self@[r as int]) =~= self@.take(r + 1));
            }
            n += self.row_count(r);
            r += 1;
        }
        assert(self@.take(ROW_NUM as int) =~= self@);
        n
    }

    /// Tells whether a locked cell lies in the danger zone, the rows from
    /// `DANGER_ROW` upwards.
    pub fn touches_danger_zone(&self) -> (b: bool)
        requires
            self.wf(),
        ensures
            b == reaches_danger_zone(self@),
    {
        let mut r: usize = DANGER_ROW;
        while r < ROW_NUM
            invariant
                DANGER_ROW <= r <= ROW_NUM,
                self.wf(),
                forall|cell: Cell| #[trigger]
                    grid_occupied(self@, cell) ==> !(DANGER_ROW <= cell.row < r),
            decreases ROW_NUM - r,
        {
            proof {
                lemma_occupancy_zero(self@[r as int]);
            }
            if self.row_count(r) > 0 {
                proof {
                    let c = choose|c: int| 0 <= c < COL_NUM && self@[r as int][c];
                    assert(grid_occupied(self@, Cell { col: c as i32, row: r as i32 }));
                }
                return true;
            }
            r += 1;
        }
        false
    }

    /// The locked cells, each once, row by row from the floor upwards and
    /// from left to right within a row.
    pub fn occupied_cells(&self) -> (cells: Vec<Cell>)
        requires
            self.wf(),
        ensures
            forall|cell: Cell| #[trigger] cells@.contains(cell) <==> self.occupied(cell),
            forall|i: int, j: int|
                0 <= i < j < cells@.len() ==> comes_before(#[trigger] cells@[i], #[trigger] cells@[j]),
            cells@.no_duplicates(),
    {
        let mut cells: Vec<Cell> = Vec::new();
        let mut r: usize = 0;
        while r < ROW_NUM
            invariant
                r <= ROW_NUM,
                self.wf(),
                forall|cell: Cell| #[trigger]
                    cells@.contains(cell) <==> self.occupied(cell) && cell.row < r,
                forall|i: int, j: int|
                    0 <= i < j < cells@.len() ==> comes_before(
                        #[trigger] cells@[i],
                        #[trigger] cells@[j],
                    ),
            decreases ROW_NUM - r,
        {
            let mut c: usize = 0;
            while c < COL_NUM
                invariant
                    r < ROW_NUM,
                    c <= COL_NUM,
                    self.wf(),
                    forall|cell: Cell| #[trigger]
                        cells@.contains(cell) <==> self.occupied(cell) && (cell.row < r || (cell.row
                            == r && cell.col < c)),
                    forall|i: int, j: int|
                        0 <= i < j < cells@.len() ==> comes_before(
                            #[trigger] cells@[i],
                            #[trigger] cells@[j],
                        ),
                decreases COL_NUM - c,
            {
                let cell = Cell { col: c as i32, row: r as i32 };
                let ghost before = cells@;
                if self.is_occupied(cell) {
                    cells.push(cell);
                    proof {
                        assert forall|i: int, j: int| 0 <= i < j < cells@.len() implies comes_before(
                            #[trigger] cells@[i],
                            #[trigger] cells@[j],
                        ) by {
                            if j == before.len() {
                                assert(before.contains(before[i]));
                            }
                        }
                    }
                }
                proof {
                    assert forall|other: Cell| #[trigger]
                        cells@.contains(other) <==> self.occupied(other) && (other.row < r || (
                        other.row == r && other.col < c + 1)) by {
                        assert(before.contains(other) <==> self.occupied(other) && (other.row < r
                            || (other.row == r && other.col < c)));
                        if other.row == r && other.col == c {
                            assert(other == cell);
                        }
                        if self.occupied(cell) {
                            lemma_push_contains(before, cell, other);
                        }
                    }
                }
                c += 1;
            }
            proof {
                assert forall|other: Cell| #[trigger]
                    cells@.contains(other) <==> self.occupied(other) && other.row < r + 1 by {
                    assert(cells@.contains(other) <==> self.occupied(other) && (other.row < r || (
                    other.row == r && other.col < c)));
                }
            }
            r += 1;
        }
        cells
    }
}

} // verus!
