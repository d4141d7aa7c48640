use rblock::board::Board;
use rblock::game::{Game, Input, RunState};
use rblock::grid::{Cell, COL_NUM, DANGER_ROW, ROW_NUM};
use rblock::piece::ActivePiece;
use rblock::resolver::is_legal;
use rblock::shape::{PieceShape, ShapeKind};

const KINDS: [ShapeKind; 7] = [
    ShapeKind::N,
    ShapeKind::NMirrored,
    ShapeKind::T,
    ShapeKind::O,
    ShapeKind::L,
    ShapeKind::LMirrored,
    ShapeKind::I,
];

fn shape(kind: ShapeKind) -> PieceShape {
    PieceShape::canonical(kind)
}

fn cell(col: i32, row: i32) -> Cell {
    Cell { col, row }
}

fn sorted(cells: &[Cell]) -> Vec<Cell> {
    let mut v = cells.to_vec();
    v.sort_by_key(|c| (c.row, c.col));
    v
}

fn active_cells(game: &Game) -> [Cell; 4] {
    game.active().unwrap().cells()
}

/// Steps down until the piece that was in play has been locked; returns the
/// number of steps taken.
fn drop_to_rest(game: &mut Game, fresh: PieceShape) -> usize {
    let mut steps = 0;
    loop {
        let lands = game.lands_next();
        game.gravity_tick_with(fresh);
        steps += 1;
        if lands {
            return steps;
        }
        assert!(steps < 100);
    }
}

/// What must hold of every game that runs.
fn check_invariants(game: &Game) {
    let board = game.board();
    if let Some(piece) = game.active() {
        assert_eq!(game.state(), RunState::Running);
        for c in piece.cells() {
            assert!(0 <= c.col && (c.col as usize) < COL_NUM);
            assert!(0 <= c.row && (c.row as usize) < ROW_NUM);
            assert!(!board.is_occupied(c));
        }
        assert!(is_legal(board, &piece));
        assert!(!board.touches_danger_zone());
    } else {
        assert_eq!(game.state(), RunState::GameOver);
    }
    for row in 0..ROW_NUM {
        assert!(board.row_count(row) < COL_NUM);
    }
}

/// A board whose floor row is full but for the last column, with one more
/// cell above its first column.
fn board_short_of_one() -> Board {
    let mut board = Board::new();
    board.lock([cell(0, 0), cell(1, 0), cell(2, 0), cell(3, 0)]);
    board.lock([cell(4, 0), cell(5, 0), cell(6, 0), cell(7, 0)]);
    board.lock([cell(8, 0), cell(9, 0), cell(10, 0), cell(0, 1)]);
    board
}

#[test]
fn new_game_has_the_first_piece_at_the_top() {
    let game = Game::new(shape(ShapeKind::O), shape(ShapeKind::I));
    assert_eq!(game.state(), RunState::Running);
    assert!(!game.is_paused());
    assert_eq!(game.score(), 0);
    assert_eq!(game.board().occupied_count(), 0);
    assert_eq!(game.active(), Some(ActivePiece::spawn(shape(ShapeKind::O))));
    assert_eq!(game.next(), shape(ShapeKind::I));
    check_invariants(&game);
}

#[test]
fn square_dropped_on_an_empty_board_locks_on_the_floor() {
    let mut game = Game::new(shape(ShapeKind::O), shape(ShapeKind::I));
    let steps = drop_to_rest(&mut game, shape(ShapeKind::T));
    // 17 rows down, and the step that finds the floor
    assert_eq!(steps, 18);
    let board = game.board();
    assert_eq!(
        sorted(&board.occupied_cells()),
        vec![cell(5, 0), cell(6, 0), cell(5, 1), cell(6, 1)]
    );
    assert_eq!(board.row_count(0), 2);
    assert_eq!(board.row_count(1), 2);
    assert_eq!(game.score(), 0);
    assert_eq!(game.state(), RunState::Running);
    // the waiting shape has entered and the fresh one waits
    assert_eq!(game.active(), Some(ActivePiece::spawn(shape(ShapeKind::I))));
    assert_eq!(game.next(), shape(ShapeKind::T));
    check_invariants(&game);
}

#[test]
fn bar_that_fills_the_last_cell_clears_the_row() {
    let board = board_short_of_one();
    assert_eq!(board.row_count(0), 11);
    let bar = ActivePiece::spawn(shape(ShapeKind::I)).translate(5, 0);
    assert_eq!(bar.cells(), [cell(11, 18), cell(11, 19), cell(11, 17), cell(11, 16)]);
    let mut game = Game::resume(board, bar, shape(ShapeKind::O), 0).unwrap();
    let steps = drop_to_rest(&mut game, shape(ShapeKind::T));
    assert_eq!(steps, 17);
    assert_eq!(game.score(), 1);
    let board = game.board();
    // the floor row went, and what stood above came down by one
    assert_eq!(
        sorted(&board.occupied_cells()),
        vec![cell(0, 0), cell(11, 0), cell(11, 1), cell(11, 2)]
    );
    assert_eq!(board.occupied_count(), 4);
    assert_eq!(game.active(), Some(ActivePiece::spawn(shape(ShapeKind::O))));
    assert_eq!(game.next(), shape(ShapeKind::T));
    check_invariants(&game);
}

#[test]
fn step_down_moves_one_row_at_a_time() {
    let mut game = Game::new(shape(ShapeKind::T), shape(ShapeKind::O));
    let before = active_cells(&game);
    assert!(!game.lands_next());
    game.gravity_tick_with(shape(ShapeKind::I));
    let after = active_cells(&game);
    for k in 0..4 {
        assert_eq!(after[k], cell(before[k].col, before[k].row - 1));
    }
    assert_eq!(game.next(), shape(ShapeKind::O));
    assert_eq!(game.board().occupied_count(), 0);
}

#[test]
fn soft_drop_is_a_step_down() {
    let mut a = Game::new(shape(ShapeKind::L), shape(ShapeKind::O));
    let mut b = Game::new(shape(ShapeKind::L), shape(ShapeKind::O));
    for _ in 0..40 {
        a.apply(Input::SoftDrop, shape(ShapeKind::N), shape(ShapeKind::T));
        b.gravity_tick_with(shape(ShapeKind::N));
        assert_eq!(a.active(), b.active());
        assert_eq!(a.next(), b.next());
        assert_eq!(sorted(&a.board().occupied_cells()), sorted(&b.board().occupied_cells()));
    }
    assert!(a.board().occupied_count() > 0);
}

#[test]
fn left_wall_stops_the_piece() {
    let mut game = Game::new(shape(ShapeKind::O), shape(ShapeKind::I));
    for k in 1..=5 {
        game.move_left();
        assert_eq!(active_cells(&game)[0], cell(5 - k, 18));
    }
    let at_wall = game.active();
    game.move_left();
    assert_eq!(game.active(), at_wall);
    game.apply(Input::MoveLeft, shape(ShapeKind::I), shape(ShapeKind::I));
    assert_eq!(game.active(), at_wall);
    // the way down stays open
    game.gravity_tick_with(shape(ShapeKind::T));
    assert_eq!(active_cells(&game), [cell(0, 17), cell(0, 16), cell(1, 16), cell(1, 17)]);
    check_invariants(&game);
}

#[test]
fn right_wall_stops_the_piece() {
    let mut game = Game::new(shape(ShapeKind::O), shape(ShapeKind::I));
    for k in 1..=5 {
        game.move_right();
        assert_eq!(active_cells(&game)[3], cell(6 + k, 18));
    }
    let at_wall = game.active();
    game.move_right();
    assert_eq!(game.active(), at_wall);
    game.apply(Input::MoveRight, shape(ShapeKind::I), shape(ShapeKind::I));
    assert_eq!(game.active(), at_wall);
    check_invariants(&game);
}

#[test]
fn rotation_into_a_wall_is_dropped() {
    let mut game = Game::new(shape(ShapeKind::I), shape(ShapeKind::O));
    for _ in 0..5 {
        game.move_right();
    }
    assert_eq!(active_cells(&game), [cell(11, 18), cell(11, 19), cell(11, 17), cell(11, 16)]);
    let upright = game.active();
    game.rotate();
    assert_eq!(game.active(), upright);
    game.apply(Input::Rotate, shape(ShapeKind::O), shape(ShapeKind::O));
    assert_eq!(game.active(), upright);
    // one column further in there is room
    game.move_left();
    game.rotate();
    assert_eq!(active_cells(&game), [cell(9, 18), cell(8, 18), cell(10, 18), cell(11, 18)]);
    check_invariants(&game);
}

#[test]
fn rotation_into_the_stack_is_dropped() {
    let mut board = Board::new();
    board.lock([cell(4, 12), cell(4, 11), cell(4, 10), cell(4, 9)]);
    // the T points right; turned, it would reach into column 4
    let piece = ActivePiece::spawn(shape(ShapeKind::T)).translate(0, -5);
    let mut game = Game::resume(board, piece, shape(ShapeKind::O), 3).unwrap();
    game.rotate();
    assert_eq!(game.active(), Some(piece));
    assert_eq!(game.score(), 3);
    // a row higher the turn is free
    let mut board = Board::new();
    board.lock([cell(4, 12), cell(4, 11), cell(4, 10), cell(4, 9)]);
    let higher = piece.translate(0, 1);
    let mut game = Game::resume(board, higher, shape(ShapeKind::O), 3).unwrap();
    game.rotate();
    assert_eq!(game.active(), Some(higher.rotate()));
}

#[test]
fn sideways_move_into_the_stack_is_dropped() {
    let mut board = Board::new();
    board.lock([cell(4, 17), cell(4, 16), cell(4, 15), cell(4, 14)]);
    let piece = ActivePiece::spawn(shape(ShapeKind::O));
    let mut game = Game::resume(board, piece, shape(ShapeKind::I), 0).unwrap();
    game.move_left();
    assert_eq!(game.active(), Some(piece));
    game.move_right();
    assert_eq!(game.active(), Some(piece.translate(1, 0)));
}

#[test]
fn piece_rests_on_the_stack() {
    let mut game = Game::new(shape(ShapeKind::O), shape(ShapeKind::O));
    drop_to_rest(&mut game, shape(ShapeKind::O));
    let steps = drop_to_rest(&mut game, shape(ShapeKind::O));
    assert_eq!(steps, 16);
    assert_eq!(game.board().occupied_count(), 8);
    for row in 0..4 {
        assert_eq!(game.board().row_count(row), 2);
        assert!(game.board().is_occupied(cell(5, row as i32)));
        assert!(game.board().is_occupied(cell(6, row as i32)));
    }
}

#[test]
fn pause_suppresses_moves_and_steps() {
    let mut game = Game::new(shape(ShapeKind::T), shape(ShapeKind::O));
    game.toggle_pause();
    assert!(game.is_paused());
    assert_eq!(game.state(), RunState::Running);
    let held = game.active();
    game.move_left();
    game.move_right();
    game.rotate();
    game.gravity_tick_with(shape(ShapeKind::I));
    game.apply(Input::SoftDrop, shape(ShapeKind::I), shape(ShapeKind::I));
    game.apply(Input::MoveLeft, shape(ShapeKind::I), shape(ShapeKind::I));
    game.apply(Input::Rotate, shape(ShapeKind::I), shape(ShapeKind::I));
    assert!(!game.lands_next());
    assert_eq!(game.active(), held);
    assert_eq!(game.next(), shape(ShapeKind::O));
    game.apply(Input::PauseToggle, shape(ShapeKind::I), shape(ShapeKind::I));
    assert!(!game.is_paused());
    game.move_left();
    assert_eq!(game.active(), Some(held.unwrap().translate(-1, 0)));
}

#[test]
fn locked_cell_in_the_danger_zone_ends_the_game() {
    let mut game = Game::new(shape(ShapeKind::I), shape(ShapeKind::I));
    for _ in 0..4 {
        drop_to_rest(&mut game, shape(ShapeKind::I));
        assert_eq!(game.state(), RunState::Running);
    }
    // the fifth bar cannot go down at all
    assert!(game.lands_next());
    game.gravity_tick_with(shape(ShapeKind::O));
    assert_eq!(game.state(), RunState::GameOver);
    assert_eq!(game.active(), None);
    assert_eq!(game.board().occupied_count(), 20);
    assert!(game.board().touches_danger_zone());
    assert!(game.board().is_occupied(cell(6, DANGER_ROW as i32)));
    assert_eq!(game.next(), shape(ShapeKind::I));
    assert_eq!(game.score(), 0);
    check_invariants(&game);
}

#[test]
fn entering_piece_that_finds_its_place_taken_ends_the_game() {
    let mut game = Game::new(shape(ShapeKind::O), shape(ShapeKind::O));
    for _ in 0..9 {
        assert_eq!(game.state(), RunState::Running);
        drop_to_rest(&mut game, shape(ShapeKind::O));
    }
    assert_eq!(game.state(), RunState::GameOver);
    assert_eq!(game.board().occupied_count(), 36);
    assert!(!game.board().touches_danger_zone());
    assert!(game.board().is_occupied(cell(5, 17)));
    check_invariants(&game);
}

#[test]
fn game_over_ignores_everything_but_restart() {
    let mut game = Game::new(shape(ShapeKind::I), shape(ShapeKind::I));
    while game.state() == RunState::Running {
        game.gravity_tick_with(shape(ShapeKind::I));
    }
    let cells = sorted(&game.board().occupied_cells());
    game.move_left();
    game.move_right();
    game.rotate();
    game.gravity_tick_with(shape(ShapeKind::O));
    game.apply(Input::SoftDrop, shape(ShapeKind::O), shape(ShapeKind::O));
    assert!(!game.lands_next());
    assert_eq!(game.state(), RunState::GameOver);
    assert_eq!(sorted(&game.board().occupied_cells()), cells);
    game.toggle_pause();
    assert!(game.is_paused());
    assert_eq!(game.state(), RunState::GameOver);

    game.apply(Input::Restart, shape(ShapeKind::T), shape(ShapeKind::L));
    assert_eq!(game.state(), RunState::Running);
    assert!(!game.is_paused());
    assert_eq!(game.score(), 0);
    assert_eq!(game.board().occupied_count(), 0);
    assert_eq!(game.active(), Some(ActivePiece::spawn(shape(ShapeKind::T))));
    assert_eq!(game.next(), shape(ShapeKind::L));
}

#[test]
fn restart_in_mid_game_discards_everything() {
    let board = board_short_of_one();
    let bar = ActivePiece::spawn(shape(ShapeKind::I)).translate(5, 0);
    let mut game = Game::resume(board, bar, shape(ShapeKind::O), 41).unwrap();
    drop_to_rest(&mut game, shape(ShapeKind::T));
    assert_eq!(game.score(), 42);
    game.toggle_pause();
    game.restart_with(shape(ShapeKind::N), shape(ShapeKind::NMirrored));
    assert_eq!(game.score(), 0);
    assert!(!game.is_paused());
    assert_eq!(game.board().occupied_count(), 0);
    assert_eq!(game.active(), Some(ActivePiece::spawn(shape(ShapeKind::N))));
    assert_eq!(game.next(), shape(ShapeKind::NMirrored));
}

#[test]
fn two_rows_cleared_at_once_score_four() {
    let mut board = Board::new();
    for row in 0..2 {
        board.lock([cell(0, row), cell(1, row), cell(2, row), cell(3, row)]);
        board.lock([cell(4, row), cell(5, row), cell(6, row), cell(7, row)]);
    }
    board.lock([cell(8, 0), cell(9, 0), cell(8, 1), cell(9, 1)]);
    let square = ActivePiece::spawn(shape(ShapeKind::O)).translate(5, 0);
    let mut game = Game::resume(board, square, shape(ShapeKind::I), 10).unwrap();
    drop_to_rest(&mut game, shape(ShapeKind::T));
    assert_eq!(game.score(), 14);
    assert_eq!(game.board().occupied_count(), 0);
}

#[test]
fn score_stops_at_the_largest_value() {
    let bar = ActivePiece::spawn(shape(ShapeKind::I)).translate(5, 0);
    let mut game = Game::resume(board_short_of_one(), bar, shape(ShapeKind::O), u32::MAX).unwrap();
    drop_to_rest(&mut game, shape(ShapeKind::T));
    assert_eq!(game.score(), u32::MAX);
    let mut game =
        Game::resume(board_short_of_one(), bar, shape(ShapeKind::O), u32::MAX - 1).unwrap();
    drop_to_rest(&mut game, shape(ShapeKind::T));
    assert_eq!(game.score(), u32::MAX);
}

#[test]
fn resume_refuses_an_illegal_position() {
    let mut board = Board::new();
    board.lock([cell(5, 17), cell(5, 16), cell(5, 15), cell(5, 14)]);
    let square = ActivePiece::spawn(shape(ShapeKind::O));
    assert!(Game::resume(board, square, shape(ShapeKind::I), 0).is_none());
    // off the field
    let outside = square.translate(-6, 0);
    assert!(Game::resume(Board::new(), outside, shape(ShapeKind::I), 0).is_none());
    // a locked cell in the danger zone
    let mut board = Board::new();
    board.lock([cell(0, 18), cell(0, 17), cell(0, 16), cell(0, 15)]);
    assert!(Game::resume(board, square, shape(ShapeKind::I), 0).is_none());
    let game = Game::resume(Board::new(), square, shape(ShapeKind::I), 9).unwrap();
    assert_eq!(game.score(), 9);
    assert_eq!(game.active(), Some(square));
    assert!(!game.is_paused());
}

#[test]
fn piece_stays_legal_through_a_long_game() {
    let mut seed: u32 = 2024;
    let mut game = Game::new(shape(ShapeKind::T), shape(ShapeKind::L));
    let mut locks = 0;
    let mut overs = 0;
    for _ in 0..20000 {
        seed = seed.wrapping_mul(1664525).wrapping_add(1013904223);
        let fresh = shape(KINDS[((seed >> 24) % 7) as usize]);
        let other = shape(KINDS[((seed >> 20) % 7) as usize]);
        let score = game.score();
        let count = game.board().occupied_count();
        let lands = game.lands_next();
        let input = match (seed >> 16) % 8 {
            0 | 1 => Input::MoveLeft,
            2 | 3 => Input::MoveRight,
            4 => Input::Rotate,
            _ => Input::SoftDrop,
        };
        if game.state() == RunState::GameOver {
            overs += 1;
            game.apply(Input::Restart, fresh, other);
            assert_eq!(game.score(), 0);
        } else {
            game.apply(input, fresh, other);
            assert!(game.score() >= score);
            if input == Input::SoftDrop && lands {
                locks += 1;
                let rows = (count + 4 - game.board().occupied_count()) / COL_NUM;
                assert_eq!(game.board().occupied_count() + rows * COL_NUM, count + 4);
                assert_eq!(game.score(), score + (rows * rows) as u32);
            } else {
                assert_eq!(game.board().occupied_count(), count);
                assert_eq!(game.score(), score);
            }
        }
        check_invariants(&game);
    }
    assert!(locks > 100);
    assert!(overs > 0);
}

#[test]
fn random_draws_keep_the_game_valid() {
    let catalog: Vec<PieceShape> = KINDS.iter().map(|k| shape(*k)).collect();
    let mut game = Game::start();
    assert!(catalog.contains(&game.next()));
    assert!(catalog.contains(&game.active().unwrap().shape()));
    assert_eq!(game.active().unwrap(), ActivePiece::spawn(game.active().unwrap().shape()));
    assert_eq!(game.score(), 0);
    let mut seed: u32 = 7;
    let mut restarts = 0;
    for _ in 0..20000 {
        seed = seed.wrapping_mul(1664525).wrapping_add(1013904223);
        if game.state() == RunState::GameOver {
            if restarts % 2 == 0 {
                game.restart();
            } else {
                game.handle_input(Input::Restart);
            }
            restarts += 1;
            assert_eq!(game.state(), RunState::Running);
            assert_eq!(game.score(), 0);
            assert_eq!(game.board().occupied_count(), 0);
        } else {
            match (seed >> 16) % 8 {
                0 => game.handle_input(Input::MoveLeft),
                1 => game.handle_input(Input::MoveRight),
                2 => game.handle_input(Input::Rotate),
                3 => game.handle_input(Input::SoftDrop),
                _ => game.gravity_tick(),
            }
        }
        assert!(catalog.contains(&game.next()));
        check_invariants(&game);
    }
    assert!(restarts > 0);
    game.handle_input(Input::PauseToggle);
    assert!(game.is_paused());
}
