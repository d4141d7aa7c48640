//! Line clearing and scoring: full rows leave the board, the rows above them
//! fall, and the number of rows cleared at once is rewarded by its square.

use crate::board::{
    empty_row, is_full_row, is_grid, lemma_empty_row_occupancy, occupancy, total_occupancy, Board,
};
use crate::grid::{COL_NUM, ROW_NUM};
use vstd::prelude::*;

verus! {

/// The rows of a stack that are not full, in their order.
pub open spec fn surviving_rows(g: Seq<Seq<bool>>) -> Seq<Seq<bool>> {
    g.filter(|row: Seq<bool>| !is_full_row(row))
}

/// Number of full rows in a stack.
pub open spec fn full_row_count(g: Seq<Seq<bool>>) -> nat {
    (g.len() - surviving_rows(g).len()) as nat
}

/// The grid after all of its full rows have left: the other rows keep their
/// order and rest on one another from the floor upwards, and as many empty
/// rows as left have entered at the top.
pub open spec fn collapsed(g: Seq<Seq<bool>>) -> Seq<Seq<bool>> {
    surviving_rows(g) + Seq::new(full_row_count(g), |i: int| empty_row())
}

/// The reward for `rows` rows cleared at once.
pub open spec fn score_delta(rows: nat) -> nat {
    rows * rows
}

/// A score as far as 32 bits hold it.
pub open spec fn capped(score: nat) -> u32 {
    if score <= u32::MAX {
        score as u32
    } else {
        u32::MAX
    }
}

/// The rows that survive of a stack that grew by one row on top.
pub proof fn lemma_surviving_push(g: Seq<Seq<bool>>, row: Seq<bool>)
    ensures
        surviving_rows(g.push(row)) == if is_full_row(row) {
            surviving_rows(g)
        } else {
            surviving_rows(g).push(row)
        },
{
    reveal(Seq::filter);
    assert(g.push(row).drop_last() =~= g);
}

/// No more rows survive than there are.
pub proof fn lemma_surviving_len(g: Seq<Seq<bool>>)
    ensures
        surviving_rows(g).len() <= g.len(),
{
    g.lemma_filter_len(|row: Seq<bool>| !is_full_row(row));
}

/// Clearing a grid gives a grid again, and none of its rows is full.
pub proof fn lemma_collapsed_is_grid(g: Seq<Seq<bool>>)
    requires
        is_grid(g),
    ensures
        is_grid(collapsed(g)),
        forall|r: int| 0 <= r < ROW_NUM ==> !is_full_row(#[trigger] collapsed(g)[r]),
{
    let keep = |row: Seq<bool>| !is_full_row(row);
    let kept = surviving_rows(g);
    lemma_surviving_len(g);
    lemma_empty_row_occupancy();
    assert forall|r: int| 0 <= r < ROW_NUM implies (#[trigger] collapsed(g)[r]).len() == COL_NUM
        && !is_full_row(collapsed(g)[r]) by {
        if r < kept.len() {
            g.lemma_filter_pred(keep, r);
            assert(kept.contains(kept[r]));
            g.lemma_filter_contains_rev(keep, kept[r]);
            let at = choose|at: int| 0 <= at < g.len() && g[at] == kept[r];
            assert(g[at].len() == COL_NUM);
        }
    }
}

/// The square of the number of rows is what the count of cleared cells gives
/// when its square is divided by the square of the board's width.
pub proof fn lemma_score_delta_by_cells(rows: nat)
    ensures
        score_delta(rows) == ((rows * COL_NUM) * (rows * COL_NUM)) / ((COL_NUM * COL_NUM) as int),
{
    let n = rows as int;
    let square = n * n;
    assert((n * 12) * (n * 12) == square * 144) by (nonlinear_arith)
        requires
            square == n * n,
    ;
    assert((square * 144) / 144 == square);
}

/// The reward for `rows` rows cleared at once, as far as 32 bits hold it.
pub fn score_for_rows(rows: usize) -> (delta: u32)
    ensures
        delta == capped(score_delta(rows as nat)),
{
    if rows <= 65535 {
        assert(rows * rows <= 65535 * 65535) by (nonlinear_arith)
            requires
                rows <= 65535,
        ;
        (rows * rows) as u32
    } else {
        assert(rows * rows >= 65536 * 65536) by (nonlinear_arith)
            requires
                rows >= 65536,
        ;
        u32::MAX
    }
}

/// Clears every full row of the board, from the floor upwards, and returns
/// how many there were. The rows that stay keep their order, no full row is
/// left, and each cleared row takes `COL_NUM` locked cells with it.
pub fn clear_full_rows(board: &mut Board) -> (rows: usize)
    requires
        old(board).wf(),
    ensures
        final(board).wf(),
        final(board)@ == collapsed(old(board)@),
        rows == full_row_count(old(board)@),
        rows <= ROW_NUM,
        forall|r: int| 0 <= r < ROW_NUM ==> !is_full_row(#[trigger] final(board)@[r]),
        total_occupancy(final(board)@) + COL_NUM * rows == total_occupancy(old(board)@),
{
    let ghost start = board@;
    let mut kept: usize = 0;
    let mut rows: usize = 0;
    proof {
        reveal(Seq::filter);
        assert(start.take(0) =~= Seq::<Seq<bool>>::empty());
        assert(board@.take(0) =~= surviving_rows(start.take(0)));
    }
    while kept + rows < ROW_NUM
        invariant
            kept + rows <= ROW_NUM,
            board.wf(),
            is_grid(start),
            board@.take(kept as int) == surviving_rows(start.take(kept + rows)),
            forall|i: int| kept <= i < ROW_NUM - rows ==> #[trigger] board@[i] == start[i + rows],
            forall|i: int| ROW_NUM - rows <= i < ROW_NUM ==> #[trigger] board@[i] == empty_row(),
            forall|i: int| 0 <= i < kept ==> !is_full_row(#[trigger] board@[i]),
            total_occupancy(board@) + COL_NUM * rows == total_occupancy(start),
        decreases ROW_NUM - kept - rows,
    {
        let ghost before = board@;
        proof {
            lemma_surviving_push(start.take(kept + rows), start[kept + rows]);
            assert(start.take(kept + rows).push(start[kept + rows]) =~= start.take(
                kept + rows + 1,
            ));
            assert(before[kept as int] == start[kept + rows]);
        }
        if board.row_count(kept) == COL_NUM {
            board.remove_row(kept);
            rows += 1;
            proof {
                assert(board@.take(kept as int) =~= before.take(kept as int));
            }
        } else {
            proof {
                assert(before.take(kept as int).push(before[kept as int]) =~= before.take(
                    kept + 1,
                ));
            }
            kept += 1;
        }
    }
    proof {
        assert(start.take(ROW_NUM as int) =~= start);
        lemma_empty_row_occupancy();
        assert(board@ =~= collapsed(start));
    }
    rows
}

} // verus!
