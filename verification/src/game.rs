//! The game itself: one piece in play, the next one waiting, the board, the
//! score, and the rules that take the game from one state to the next.
//!
//! Every step is atomic. A piece that cannot go down any further is locked,
//! the full rows are cleared and scored, and the waiting piece enters, all
//! within the step that found the way down barred. The game is over once a
//! locked cell lies in the danger zone, or once the entering piece finds its
//! place taken; from then on there is no piece in play until a restart.

use crate::board::{empty_grid, grid_with, is_grid, placeable, reaches_danger_zone, Board};
use crate::clearing::{
    capped, clear_full_rows, collapsed, full_row_count, lemma_collapsed_is_grid, score_delta,
    score_for_rows,
};
use crate::piece::{
    lemma_rotated_valid, lemma_translated_cells, spawned, ActivePiece, PieceView,
};
use crate::resolver::is_legal;
use crate::shape::{
    canonical_offsets, generate, in_catalog, kind_at, valid_offset, valid_offsets, Offset,
    PieceShape,
};
use vstd::prelude::*;

verus! {

/// Whether a game goes on.
#[derive(Clone, Copy, Debug, PartialEq, Eq, Structural)]
pub enum RunState {
    Running,
    GameOver,
}

/// What the player can ask for.
#[derive(Clone, Copy, Debug, PartialEq, Eq, Structural)]
pub enum Input {
    MoveLeft,
    MoveRight,
    SoftDrop,
    Rotate,
    PauseToggle,
    Restart,
}

/// The model of a game.
pub struct GameView {
    /// The grid of locked cells.
    pub board: Seq<Seq<bool>>,
    /// The piece in play; none once the game is over.
    pub active: Option<PieceView>,
    /// The shape that enters next.
    pub next: Seq<Offset>,
    /// The score.
    pub score: u32,
    /// Whether the game is paused.
    pub paused: bool,
}

impl GameView {
    /// Validity of a game: the board is a grid, the waiting shape is valid,
    /// and while the game runs, the piece in play is valid, every cell of it
    /// lies on the playing field and on no locked cell, and no locked cell
    /// lies in the danger zone.
    pub open spec fn valid(self) -> bool {
        &&& is_grid(self.board)
        &&& valid_offsets(self.next)
        &&& self.active matches Some(piece) ==> {
            &&& piece.valid()
            &&& placeable(self.board, piece.cells())
            &&& !reaches_danger_zone(self.board)
        }
    }

    /// Running while a piece is in play, over otherwise.
    pub open spec fn state(self) -> RunState {
        if self.active is Some {
            RunState::Running
        } else {
            RunState::GameOver
        }
    }

    /// Whether moves and ticks are ignored: the game is paused or over.
    pub open spec fn halted(self) -> bool {
        self.paused || self.active is None
    }

    /// The game with `candidate` in play where that position is legal, and
    /// the game as it is where it is not.
    pub open spec fn proposed(self, candidate: PieceView) -> GameView {
        if placeable(self.board, candidate.cells()) {
            GameView { active: Some(candidate), ..self }
        } else {
            self
        }
    }

    /// The game after a move by `dx` columns was asked for.
    pub open spec fn shifted(self, dx: int) -> GameView {
        if self.halted() {
            self
        } else {
            self.proposed(self.active->0.translated(dx, 0))
        }
    }

    /// The game after a quarter turn was asked for.
    pub open spec fn turned(self) -> GameView {
        if self.halted() {
            self
        } else {
            self.proposed(self.active->0.rotated())
        }
    }

    /// Whether the piece in play cannot go down by a row.
    pub open spec fn landed(self) -> bool {
        self.active is Some && !placeable(self.board, self.active->0.translated(0, -1).cells())
    }

    /// The game after the piece in play has been locked where it stands: the
    /// full rows are cleared and rewarded, and the waiting shape enters with
    /// `fresh` waiting behind it, unless the game is over.
    pub open spec fn settled(self, fresh: Seq<Offset>) -> GameView {
        let locked = grid_with(self.board, self.active->0.cells());
        let board = collapsed(locked);
        let score = capped(self.score as nat + score_delta(full_row_count(locked)));
        let entering = spawned(self.next);
        if !reaches_danger_zone(board) && placeable(board, entering.cells()) {
            GameView { board, active: Some(entering), next: fresh, score, paused: self.paused }
        } else {
            GameView { board, active: None, next: self.next, score, paused: self.paused }
        }
    }

    /// The game after a step down, by gravity or by a soft drop: the piece
    /// goes down by a row where it can, and is locked where it cannot.
    pub open spec fn descended(self, fresh: Seq<Offset>) -> GameView {
        if self.halted() {
            self
        } else if self.landed() {
            self.settled(fresh)
        } else {
            GameView { active: Some(self.active->0.translated(0, -1)), ..self }
        }
    }

    /// The game with its pause flag turned over.
    pub open spec fn pause_toggled(self) -> GameView {
        GameView { paused: !self.paused, ..self }
    }

    /// The game after `input`, with `first` and `second` as the shapes that
    /// a soft drop (`first`) or a restart (both) may bring in.
    pub open spec fn after(self, input: Input, first: Seq<Offset>, second: Seq<Offset>) -> GameView {
        match input {
            Input::MoveLeft => self.shifted(-1),
            Input::MoveRight => self.shifted(1),
            Input::SoftDrop => self.descended(first),
            Input::Rotate => self.turned(),
            Input::PauseToggle => self.pause_toggled(),
            Input::Restart => initial(first, second),
        }
    }
}

/// A game at its start: an empty board, the `first` shape in play where
/// pieces enter, `next` waiting, no score, not paused.
pub open spec fn initial(first: Seq<Offset>, next: Seq<Offset>) -> GameView {
    GameView { board: empty_grid(), active: Some(spawned(first)), next, score: 0, paused: false }
}

/// A piece that enters an empty board finds its place free.
pub proof fn lemma_initial_valid(first: Seq<Offset>, next: Seq<Offset>)
    requires
        valid_offsets(first),
        valid_offsets(next),
    ensures
        initial(first, next).valid(),
{
    let piece = spawned(first);
    assert forall|i: int| 0 <= i < 4 implies (#[trigger] piece.cells()[i]).in_bounds()
        && !crate::board::grid_occupied(empty_grid(), piece.cells()[i]) by {
        assert(valid_offset(first[i]));
    }
}

/// A valid game stays valid whatever is asked of it, so long as the shapes
/// brought in are valid.
pub proof fn lemma_after_valid(g: GameView, input: Input, first: Seq<Offset>, second: Seq<Offset>)
    requires
        g.valid(),
        valid_offsets(first),
        valid_offsets(second),
    ensures
        g.after(input, first, second).valid(),
{
    match input {
        Input::MoveLeft => lemma_shifted_valid(g, -1),
        Input::MoveRight => lemma_shifted_valid(g, 1),
        Input::SoftDrop => lemma_descended_valid(g, first),
        Input::Rotate => {
            if !g.halted() {
                lemma_rotated_valid(g.active->0);
            }
        },
        Input::PauseToggle => {},
        Input::Restart => lemma_initial_valid(first, second),
    }
}

/// A piece on the playing field can move by a cell in any direction without
/// its pivot leaving the limits.
pub proof fn lemma_on_field_can_translate(p: PieceView, dx: int, dy: int)
    requires
        p.valid(),
        p.cells()[0].in_bounds(),
        -1 <= dx <= 1,
        -1 <= dy <= 1,
    ensures
        p.can_translate(dx, dy),
        p.translated(dx, dy).valid(),
{
    assert(valid_offset(p.offsets[0]));
    lemma_translated_cells(p, dx, dy);
}

/// A valid game stays valid when a move to the side is asked for.
pub proof fn lemma_shifted_valid(g: GameView, dx: int)
    requires
        g.valid(),
        -1 <= dx <= 1,
    ensures
        g.shifted(dx).valid(),
{
    if !g.halted() {
        assert(g.active->0.cells()[0].in_bounds());
        lemma_on_field_can_translate(g.active->0, dx, 0);
    }
}

/// A valid game stays valid through a step down.
pub proof fn lemma_descended_valid(g: GameView, fresh: Seq<Offset>)
    requires
        g.valid(),
        valid_offsets(fresh),
    ensures
        g.descended(fresh).valid(),
{
    if !g.halted() {
        assert(g.active->0.cells()[0].in_bounds());
        lemma_on_field_can_translate(g.active->0, 0, -1);
        if g.landed() {
            lemma_collapsed_is_grid(grid_with(g.board, g.active->0.cells()));
        }
    }
}

/// The score never goes down but by a restart.
pub proof fn lemma_score_never_drops(
    g: GameView,
    input: Input,
    first: Seq<Offset>,
    second: Seq<Offset>,
)
    requires
        input != Input::Restart,
    ensures
        g.after(input, first, second).score >= g.score,
{
}

/// While a valid game runs, each cell of the piece in play lies between the
/// walls, within the board's height, and on no locked cell.
pub proof fn lemma_piece_in_play_is_legal(g: GameView, i: int)
    requires
        g.valid(),
        g.active is Some,
        0 <= i < 4,
    ensures
        0 <= g.active->0.cells()[i].col < crate::grid::COL_NUM,
        0 <= g.active->0.cells()[i].row < crate::grid::ROW_NUM,
        !g.board[g.active->0.cells()[i].row as int][g.active->0.cells()[i].col as int],
{
    assert(g.active->0.cells()[i].in_bounds());
}

/// A game of falling blocks.
#[derive(Debug)]
pub struct Game {
    board: Board,
    active: Option<ActivePiece>,
    next: PieceShape,
    score: u32,
    paused: bool,
}

impl View for Game {
    type V = GameView;

    closed spec fn view(&self) -> GameView {
        GameView {
            board: self.board@,
            active: match self.active {
                Some(piece) => Some(piece@),
                None => None,
            },
            next: self.next@,
            score: self.score,
            paused: self.paused,
        }
    }
}

impl Game {
    /// Validity of a game.
    pub open spec fn wf(&self) -> bool {
        self@.valid()
    }

    /// A game at its start, with `first` in play and `next` waiting.
    pub fn new(first: PieceShape, next: PieceShape) -> (game: Game)
        requires
            first.wf(),
            next.wf(),
        ensures
            game.wf(),
            game@ == initial(first@, next@),
    {
        proof {
            lemma_initial_valid(first@, next@);
        }
        Game {
            board: Board::new(),
            active: Some(ActivePiece::spawn(first)),
            next,
            score: 0,
            paused: false,
        }
    }

    /// A running game put together from its parts, not paused. There is
    /// such a game only if the piece's position is legal on the board and no
    /// locked cell lies in the danger zone.
    pub fn resume(board: Board, piece: ActivePiece, next: PieceShape, score: u32) -> (game: Option<
        Game,
    >)
        requires
            board.wf(),
            piece.wf(),
            next.wf(),
        ensures
            game is Some <==> placeable(board@, piece@.cells()) && !reaches_danger_zone(board@),
            game is Some ==> game->0.wf() && game->0@ == (GameView {
                board: board@,
                active: Some(piece@),
                next: next@,
                score,
                paused: false,
            }),
    {
        if is_legal(&board, &piece) && !board.touches_danger_zone() {
            Some(Game { board, active: Some(piece), next, score, paused: false })
        } else {
            None
        }
    }

    /// The board of locked cells.
    pub fn board(&self) -> (board: &Board)
        ensures
            board@ == self@.board,
            self.wf() ==> board.wf(),
    {
        &self.board
    }

    /// The piece in play, if the game runs.
    pub fn active(&self) -> (piece: Option<ActivePiece>)
        ensures
            piece is Some == self@.active is Some,
            piece is Some ==> piece->0@ == self@.active->0,
            self.wf() && piece is Some ==> piece->0.wf(),
    {
        self.active
    }

    /// The shape that enters next.
    pub fn next(&self) -> (shape: PieceShape)
        ensures
            shape@ == self@.next,
    {
        self.next
    }

    /// The score.
    pub fn score(&self) -> (score: u32)
        ensures
            score == self@.score,
    {
        self.score
    }

    /// Whether the game is paused.
    pub fn is_paused(&self) -> (paused: bool)
        ensures
            paused == self@.paused,
    {
        self.paused
    }

    /// Whether the game goes on.
    pub fn state(&self) -> (state: RunState)
        ensures
            state == self@.state(),
    {
        if self.active.is_some() {
            RunState::Running
        } else {
            RunState::GameOver
        }
    }

    /// Turns the pause flag over.
    pub fn toggle_pause(&mut self)
        ensures
            final(self)@ == old(self)@.pause_toggled(),
            old(self).wf() ==> final(self).wf(),
    {
        self.paused = !self.paused;
    }

    /// Puts `candidate` in play if its position is legal.
    fn propose(&mut self, candidate: ActivePiece)
        requires
            old(self).wf(),
            candidate.wf(),
            old(self)@.active is Some,
        ensures
            final(self)@ == old(self)@.proposed(candidate@),
            final(self).wf(),
    {
        if is_legal(&self.board, &candidate) {
            self.active = Some(candidate);
        }
    }

    /// Asks for a move by one column, to the left for a negative `dx` and to
    /// the right otherwise.
    fn shift(&mut self, dx: i32)
        requires
            old(self).wf(),
            dx == -1 || dx == 1,
        ensures
            final(self)@ == old(self)@.shifted(dx as int),
            final(self).wf(),
    {
        if self.paused {
            return ;
        }
        match self.active {
            Some(piece) => {
                proof {
                    assert(piece@.cells()[0].in_bounds());
                    lemma_on_field_can_translate(piece@, dx as int, 0);
                }
                let candidate = piece.translate(dx, 0);
                self.propose(candidate);
            },
            None => {},
        }
    }

    /// Asks for a move by one column to the left. The move is made where the
    /// new position is legal and dropped where it is not.
    pub fn move_left(&mut self)
        requires
            old(self).wf(),
        ensures
            final(self)@ == old(self)@.shifted(-1),
            final(self).wf(),
    {
        self.shift(-1);
    }

    /// Asks for a move by one column to the right. The move is made where
    /// the new position is legal and dropped where it is not.
    pub fn move_right(&mut self)
        requires
            old(self).wf(),
        ensures
            final(self)@ == old(self)@.shifted(1),
            final(self).wf(),
    {
        self.shift(1);
    }

    /// Asks for a quarter turn. The turn is made where the new position is
    /// legal and dropped where it is not; the piece is never nudged aside.
    pub fn rotate(&mut self)
        requires
            old(self).wf(),
        ensures
            final(self)@ == old(self)@.turned(),
            final(self).wf(),
    {
        if self.paused {
            return ;
        }
        match self.active {
            Some(piece) => {
                let candidate = piece.rotate();
                self.propose(candidate);
            },
            None => {},
        }
    }

    /// Tells whether the next step down locks the piece in play.
    pub fn lands_next(&self) -> (landed: bool)
        requires
            self.wf(),
        ensures
            landed == (!self@.halted() && self@.landed()),
    {
        if self.paused {
            return false;
        }
        match self.active {
            Some(piece) => {
                proof {
                    assert(piece@.cells()[0].in_bounds());
                    lemma_on_field_can_translate(piece@, 0, -1);
                }
                let candidate = piece.translate(0, -1);
                !is_legal(&self.board, &candidate)
            },
            None => false,
        }
    }

    /// Locks `piece`, clears and rewards the full rows, and lets the waiting
    /// shape enter.
    fn settle(&mut self, piece: ActivePiece, fresh: PieceShape)
        requires
            old(self).wf(),
            old(self).active == Some(piece),
            fresh.wf(),
        ensures
            final(self)@ == old(self)@.settled(fresh@),
            final(self).wf(),
    {
        proof {
            lemma_collapsed_is_grid(grid_with(self@.board, piece@.cells()));
        }
        let cells = piece.cells();
        self.board.lock(cells);
        let rows = clear_full_rows(&mut self.board);
        let delta = score_for_rows(rows);
        assert(rows * rows <= 400) by (nonlinear_arith)
            requires
                rows <= 20,
        ;
        self.score = if delta > u32::MAX - self.score {
            u32::MAX
        } else {
            self.score + delta
        };
        let entering = ActivePiece::spawn(self.next);
        if !self.board.touches_danger_zone() && is_legal(&self.board, &entering) {
            self.active = Some(entering);
            self.next = fresh;
        } else {
            self.active = None;
        }
    }

    /// One step down, by gravity or by a soft drop, with `fresh` as the
    /// shape to wait next if the waiting one enters. The piece in play goes
    /// down by a row where that position is legal. Where it is not, the
    /// piece is locked, the full rows are cleared and rewarded, and the
    /// waiting shape enters, or the game is over.
    pub fn gravity_tick_with(&mut self, fresh: PieceShape)
        requires
            old(self).wf(),
            fresh.wf(),
        ensures
            final(self)@ == old(self)@.descended(fresh@),
            final(self).wf(),
    {
        if self.paused {
            return ;
        }
        match self.active {
            Some(piece) => {
                proof {
                    assert(piece@.cells()[0].in_bounds());
                    lemma_on_field_can_translate(piece@, 0, -1);
                }
                let candidate = piece.translate(0, -1);
                if is_legal(&self.board, &candidate) {
                    self.active = Some(candidate);
                } else {
                    self.settle(piece, fresh);
                }
            },
            None => {},
        }
    }

    /// Starts over: the board is emptied, the score and the pause flag are
    /// reset, `first` enters and `next` waits.
    pub fn restart_with(&mut self, first: PieceShape, next: PieceShape)
        requires
            first.wf(),
            next.wf(),
        ensures
            final(self)@ == initial(first@, next@),
            final(self).wf(),
    {
        *self = Game::new(first, next);
    }

    /// Obeys one input. `first` and `second` are the shapes that a soft drop
    /// (`first`) or a restart (both) may bring in.
    pub fn apply(&mut self, input: Input, first: PieceShape, second: PieceShape)
        requires
            old(self).wf(),
            first.wf(),
            second.wf(),
        ensures
            final(self)@ == old(self)@.after(input, first@, second@),
            final(self).wf(),
    {
        match input {
            Input::MoveLeft => self.move_left(),
            Input::MoveRight => self.move_right(),
            Input::SoftDrop => self.gravity_tick_with(first),
            Input::Rotate => self.rotate(),
            Input::PauseToggle => self.toggle_pause(),
            Input::Restart => self.restart_with(first, second),
        }
    }
    /// A game at its start, with both shapes drawn at random.
    pub fn start() -> (game: Game)
        ensures
            game.wf(),
            exists|first: Seq<Offset>, next: Seq<Offset>|
                #![trigger initial(first, next)]
                in_catalog(first) && in_catalog(next) && game@ == initial(first, next),
    {
        let next = generate();
        let first = generate();
        let game = Game::new(first, next);
        assert(in_catalog(first@) && in_catalog(next@) && game@ == initial(first@, next@));
        game
    }

    /// One step down, by gravity or by a soft drop. Where the waiting shape
    /// enters, the shape to wait next is drawn at random.
    pub fn gravity_tick(&mut self)
        requires
            old(self).wf(),
        ensures
            final(self).wf(),
            exists|fresh: Seq<Offset>|
                #![trigger old(self)@.descended(fresh)]
                in_catalog(fresh) && final(self)@ == old(self)@.descended(fresh),
    {
        if self.lands_next() {
            let fresh = generate();
            self.gravity_tick_with(fresh);
            assert(in_catalog(fresh@) && self@ == old(self)@.descended(fresh@));
        } else {
            // Nothing enters on this step, so nothing is drawn.
            let waiting = self.next;
            self.gravity_tick_with(waiting);
            proof {
                let any = canonical_offsets(kind_at(0));
                assert(in_catalog(any) && self@ == old(self)@.descended(any));
            }
        }
    }

    /// Starts over with both shapes drawn at random.
    pub fn restart(&mut self)
        ensures
            final(self).wf(),
            exists|first: Seq<Offset>, next: Seq<Offset>|
                #![trigger initial(first, next)]
                in_catalog(first) && in_catalog(next) && final(self)@ == initial(first, next),
    {
        *self = Game::start();
    }

    /// Obeys one input, drawing at random the shapes that it brings in.
    pub fn handle_input(&mut self, input: Input)
        requires
            old(self).wf(),
        ensures
            final(self).wf(),
            exists|first: Seq<Offset>, second: Seq<Offset>|
                #![trigger old(self)@.after(input, first, second)]
                in_catalog(first) && in_catalog(second) && final(self)@ == old(self)@.after(
                    input,
                    first,
                    second,
                ),
    {
        let ghost any = canonical_offsets(kind_at(0));
        assert(in_catalog(any));
        match input {
            Input::MoveLeft => {
                self.move_left();
                assert(self@ == old(self)@.after(input, any, any));
            },
            Input::MoveRight => {
                self.move_right();
                assert(self@ == old(self)@.after(input, any, any));
            },
            Input::SoftDrop => {
                self.gravity_tick();
                proof {
                    let fresh = choose|fresh: Seq<Offset>|
                        #![trigger old(self)@.descended(fresh)]
                        in_catalog(fresh) && self@ == old(self)@.descended(fresh);
                    assert(self@ == old(self)@.after(input, fresh, any));
                }
            },
            Input::Rotate => {
                self.rotate();
                assert(self@ == old(self)@.after(input, any, any));
            },
            Input::PauseToggle => {
                self.toggle_pause();
                assert(self@ == old(self)@.after(input, any, any));
            },
            Input::Restart => {
                self.restart();
                proof {
                    let (first, next) = choose|first: Seq<Offset>, next: Seq<Offset>|
                        #![trigger initial(first, next)]
                        in_catalog(first) && in_catalog(next) && self@ == initial(first, next);
                    assert(self@ == old(self)@.after(input, first, next));
                }
            },
        }
    }
}

} // verus!
