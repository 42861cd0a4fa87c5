//! A game from the first selection to its end.
//!
//! A [`GameState`] takes the cells that the players select, one at a time, and keeps the
//! board together with the outcome. Contracts speak of it through its view, a [`GameView`].

use vstd::prelude::*;
use crate::board::{
    count_of, has_line, lemma_count_update, lemma_count_zero, other_player, owns_line, Board,
    BoardView, Marker, LINES,
};

verus! {

/// The mathematical content of a [`GameState`].
pub struct GameView {
    /// The board as it stands.
    pub board: BoardView,
    /// Whether the game has ended, in a win or in a draw.
    pub is_finished: bool,
    /// Once the game has ended: the player who won, or `Marker::Empty` for a draw.
    pub winner: Marker,
}

impl GameView {
    /// The game before the first selection.
    pub open spec fn initial() -> GameView {
        GameView { board: BoardView::empty(), is_finished: false, winner: Marker::Empty }
    }

    /// Whether selecting `index` places a marker: the game is still open and `index` names
    /// an empty cell.
    pub open spec fn accepts(self, index: int) -> bool {
        &&& !self.is_finished
        &&& self.board.can_place(index)
    }

    /// The game after `index` has been selected.
    ///
    /// A selection that is not accepted changes nothing. An accepted one marks the cell for
    /// the player to move and passes the move on; the game then ends with that board's
    /// winner if it has one, else in a draw if the board is full, and else stays open.
    pub open spec fn select(self, index: int) -> GameView {
        if !self.accepts(index) {
            self
        } else {
            let board = self.board.place(index);
            match board.winner() {
                Some(m) => GameView { board, is_finished: true, winner: m },
                None => if board.is_full() {
                    GameView { board, is_finished: true, winner: Marker::Empty }
                } else {
                    GameView { board, is_finished: false, winner: self.winner }
                },
            }
        }
    }

    /// What holds of every game that began with [`GameView::initial`]:
    /// the board has nine cells and a player to move; the game has ended exactly when the
    /// board shows a winner or is full; `winner` is the board's winner, or `Marker::Empty`
    /// where it has none; at most one player holds a line; and `X` has placed as many
    /// markers as `O` when `X` is to move, one more when `O` is to move.
    pub open spec fn wf(self) -> bool {
        &&& self.board.wf()
        &&& self.is_finished <==> (self.board.winner() is Some || self.board.is_full())
        &&& self.winner == match self.board.winner() {
            Some(m) => m,
            None => Marker::Empty,
        }
        &&& !(has_line(self.board.cells, Marker::X) && has_line(self.board.cells, Marker::O))
        &&& count_of(self.board.cells, Marker::X) == count_of(self.board.cells, Marker::O)
            + if self.board.current_player == Marker::O {
                1int
            } else {
                0int
            }
    }
}

/// A player who holds a line after a cell was marked for another player held one before.
pub proof fn lemma_no_line_for_the_other(cells: Seq<Marker>, index: int, p: Marker, m: Marker)
    requires
        cells.len() == 9,
        0 <= index < 9,
        m != p,
        has_line(cells.update(index, p), m),
    ensures
        has_line(cells, m),
{
    let k = choose|k: int| 0 <= k < 8 && owns_line(cells.update(index, p), m, k);
    assert(owns_line(cells, m, k));
}

/// The start of a game is well formed.
pub proof fn lemma_initial_wf()
    ensures
        GameView::initial().wf(),
{
    let cells = BoardView::empty().cells;
    assert forall|m: Marker| m != Marker::Empty implies !has_line(cells, m) by {
        if has_line(cells, m) {
            let k = choose|k: int| 0 <= k < 8 && owns_line(cells, m, k);
            assert(cells[LINES[k][0] as int] == Marker::Empty);
        }
    }
    assert(cells[0] == Marker::Empty);
    lemma_count_zero(cells, Marker::X);
    lemma_count_zero(cells, Marker::O);
}

/// A selection leaves a well-formed game well formed.
pub proof fn lemma_select_wf(g: GameView, index: int)
    requires
        g.wf(),
    ensures
        g.select(index).wf(),
{
    if g.accepts(index) {
        let cells = g.board.cells;
        let p = g.board.current_player;
        let q = other_player(p);
        let after = g.board.place(index).cells;
        if has_line(after, q) {
            lemma_no_line_for_the_other(cells, index, p, q);
        }
        lemma_count_update(cells, index, p, Marker::X);
        lemma_count_update(cells, index, p, Marker::O);
    }
}

/// The selection that fills a line for a player wins the game for that player: if `m`
/// holds no line before a selection and holds one after it, then the selection placed the
/// marker of `m`, the board shows `m` as its winner, and the game, open until then, has ended
/// with `m` as winner.
pub proof fn lemma_filled_line_wins(g: GameView, index: int, m: Marker)
    requires
        g.wf(),
        m != Marker::Empty,
        !has_line(g.board.cells, m),
        has_line(g.select(index).board.cells, m),
    ensures
        g.accepts(index),
        g.board.current_player == m,
        g.select(index).board.cells == g.board.cells.update(index, m),
        g.select(index).board.winner() == Some(m),
        g.select(index).is_finished,
        g.select(index).winner == m,
{
    lemma_select_wf(g, index);
    let p = g.board.current_player;
    if m != p {
        lemma_no_line_for_the_other(g.board.cells, index, p, m);
    }
}

/// A game of tic-tac-toe: the board, whether the game has ended, and who won it.
#[derive(Clone, Copy, Debug, PartialEq, Eq)]
pub struct GameState {
    board: Board,
    is_finished: bool,
    winner: Marker,
}

impl View for GameState {
    type V = GameView;

    closed spec fn view(&self) -> GameView {
        GameView { board: self.board@, is_finished: self.is_finished, winner: self.winner }
    }
}

impl GameState {
    /// Returns a game with an empty board, `X` to move.
    pub fn new() -> (game: GameState)
        ensures
            game@ == GameView::initial(),
            game@.wf(),
    {
        proof {
            lemma_initial_wf();
        }
        GameState { board: Board::new(), is_finished: false, winner: Marker::Empty }
    }

    /// The board as it stands.
    pub fn board(&self) -> (board: &Board)
        ensures
            board@ == self@.board,
    {
        &self.board
    }

    /// Whether the game has ended.
    pub fn is_finished(&self) -> (finished: bool)
        ensures
            finished == self@.is_finished,
    {
        self.is_finished
    }

    /// The player who won, or `Marker::Empty` while the game is open and after a draw.
    pub fn winner(&self) -> (winner: Marker)
        ensures
            winner == self@.winner,
    {
        self.winner
    }

    /// Takes the selection of cell `index` by the player to move.
    ///
    /// Nothing changes when the game has ended, when `index` names no cell, or when the
    /// cell already holds a marker. Otherwise the cell is marked, the move passes to the
    /// opponent, and the game ends if the board now shows a winner or is full.
    pub fn select_cell(&mut self, index: usize)
        ensures
            final(self)@ == old(self)@.select(index as int),
            !old(self)@.accepts(index as int) ==> final(self)@ == old(self)@,
            old(self)@.wf() ==> final(self)@.wf(),
    {
        proof {
            if self@.wf() {
                lemma_select_wf(self@, index as int);
            }
        }
        if self.is_finished {
            return ;
        }
        match self.board.place(index) {
            Err(_) => {},
            Ok(()) => {
                match self.board.winner() {
                    Some(m) => {
                        self.winner = m;
                        self.is_finished = true;
                    },
                    None => {
                        if self.board.is_full() {
                            self.winner = Marker::Empty;
                            self.is_finished = true;
                        }
                    },
                }
            },
        }
    }
}

} // verus!
