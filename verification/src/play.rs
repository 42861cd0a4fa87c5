//! Whole games: what holds of every sequence of selections made from the empty board.

use vstd::prelude::*;
use crate::board::{
    all_marked, count_of, has_line, lemma_cells_counted, lemma_count_update, lemma_count_zero,
    BoardView, Marker,
};
use crate::game::{lemma_filled_line_wins, lemma_initial_wf, lemma_select_wf, GameView};

verus! {

/// The game after the cells of `moves` have been selected in turn, from the empty board.
pub open spec fn play(moves: Seq<int>) -> GameView
    decreases moves.len(),
{
    if moves.len() == 0 {
        GameView::initial()
    } else {
        play(moves.drop_last()).select(moves.last())
    }
}

/// How many of the selections of `moves` placed a marker.
pub open spec fn placements(moves: Seq<int>) -> nat
    decreases moves.len(),
{
    if moves.len() == 0 {
        0
    } else {
        placements(moves.drop_last()) + if play(moves.drop_last()).accepts(moves.last()) {
            1nat
        } else {
            0nat
        }
    }
}

/// One more selection is one more step of the game.
pub proof fn lemma_play_step(moves: Seq<int>, k: int)
    requires
        0 <= k < moves.len(),
    ensures
        play(moves.take(k + 1)) == play(moves.take(k)).select(moves[k]),
        placements(moves.take(k + 1)) == placements(moves.take(k)) + if play(
            moves.take(k),
        ).accepts(moves[k]) {
            1nat
        } else {
            0nat
        },
{
    assert(moves.take(k + 1).drop_last() =~= moves.take(k));
}

/// Every game that is played from the empty board is well formed.
pub proof fn lemma_play_wf(moves: Seq<int>)
    ensures
        play(moves).wf(),
    decreases moves.len(),
{
    if moves.len() == 0 {
        lemma_initial_wf();
    } else {
        lemma_play_wf(moves.drop_last());
        lemma_select_wf(play(moves.drop_last()), moves.last());
    }
}

/// The players take turns, `X` first, and only a selection that places a marker uses up a
/// turn: after `n` placements it is `X` who moves if `n` is even and `O` if `n` is odd,
/// `n` cells are marked, and of these `X` holds every other one, beginning with the first.
pub proof fn lemma_turns_alternate(moves: Seq<int>)
    ensures
        play(moves).board.current_player == if placements(moves) % 2 == 0 {
            Marker::X
        } else {
            Marker::O
        },
        placements(moves) <= 9,
        count_of(play(moves).board.cells, Marker::Empty) == 9 - placements(moves),
        count_of(play(moves).board.cells, Marker::X) == (placements(moves) + 1) / 2,
        count_of(play(moves).board.cells, Marker::O) == placements(moves) / 2,
    decreases moves.len(),
{
    if moves.len() == 0 {
        let cells = BoardView::empty().cells;
        vstd::seq_lib::to_multiset_len(cells);
        lemma_count_zero(cells, Marker::X);
        lemma_count_zero(cells, Marker::O);
        lemma_cells_counted(cells);
    } else {
        let before = play(moves.drop_last());
        lemma_turns_alternate(moves.drop_last());
        lemma_play_wf(moves.drop_last());
        if before.accepts(moves.last()) {
            let p = before.board.current_player;
            lemma_count_update(before.board.cells, moves.last(), p, Marker::Empty);
            lemma_count_update(before.board.cells, moves.last(), p, Marker::X);
            lemma_count_update(before.board.cells, moves.last(), p, Marker::O);
        }
    }
}

/// Once a game has ended, no selection changes it.
pub proof fn lemma_finished_is_final(moves: Seq<int>, j: int, k: int)
    requires
        0 <= j <= k <= moves.len(),
        play(moves.take(j)).is_finished,
    ensures
        play(moves.take(k)) == play(moves.take(j)),
    decreases k - j,
{
    if j < k {
        lemma_finished_is_final(moves, j, k - 1);
        lemma_play_step(moves, k - 1);
    }
}

/// A game in which nine different cells are selected, and in which no line is ever
/// filled, is open after each of the first eight selections and ends with the ninth, in
/// a draw.
pub proof fn lemma_draw_with_the_ninth_cell(moves: Seq<int>)
    requires
        moves.len() == 9,
        forall|i: int| 0 <= i < 9 ==> 0 <= #[trigger] moves[i] < 9,
        forall|i: int, j: int| 0 <= i < j < 9 ==> moves[i] != moves[j],
        forall|k: int| 0 <= k <= 9 ==> (#[trigger] play(moves.take(k))).board.winner() is None,
    ensures
        forall|k: int| 0 <= k < 9 ==> !(#[trigger] play(moves.take(k))).is_finished,
        play(moves).is_finished,
        play(moves).winner == Marker::Empty,
{
    assert(moves.take(9) =~= moves);
    assert forall|k: int| 0 <= k <= 9 implies {
        &&& placements(moves.take(k)) == k
        &&& (k < 9 ==> !(#[trigger] play(moves.take(k))).is_finished)
        &&& forall|j: int| k <= j < 9 ==> play(moves.take(k)).board.cells[moves[j]] == Marker::Empty
    } by {
        lemma_all_placed(moves, k);
    }
    lemma_play_wf(moves);
    lemma_turns_alternate(moves);
    lemma_count_zero(play(moves).board.cells, Marker::Empty);
}

/// While the cells selected are new and no line is filled, every selection places a
/// marker and the cells still to come stay empty.
proof fn lemma_all_placed(moves: Seq<int>, k: int)
    requires
        moves.len() == 9,
        forall|i: int| 0 <= i < 9 ==> 0 <= #[trigger] moves[i] < 9,
        forall|i: int, j: int| 0 <= i < j < 9 ==> moves[i] != moves[j],
        forall|k: int| 0 <= k <= 9 ==> (#[trigger] play(moves.take(k))).board.winner() is None,
        0 <= k <= 9,
    ensures
        placements(moves.take(k)) == k,
        k < 9 ==> !play(moves.take(k)).is_finished,
        forall|j: int| k <= j < 9 ==> play(moves.take(k)).board.cells[moves[j]] == Marker::Empty,
    decreases k,
{
    lemma_play_wf(moves.take(k));
    if k == 0 {
        assert(moves.take(0) =~= Seq::<int>::empty());
    } else {
        lemma_all_placed(moves, k - 1);
        lemma_play_step(moves, k - 1);
        lemma_play_wf(moves.take(k - 1));
        let before = play(moves.take(k - 1));
        let after = play(moves.take(k));
        assert(before.board.cells[moves[k - 1]] == Marker::Empty);
        assert(before.accepts(moves[k - 1]));
        assert(after.board == before.board.place(moves[k - 1]));
        assert forall|j: int| k <= j < 9 implies after.board.cells[moves[j]] == Marker::Empty by {
            assert(moves[k - 1] != moves[j]);
            assert(before.board.cells[moves[j]] == Marker::Empty);
        }
        if k < 9 {
            assert(after.board.cells[moves[k]] == Marker::Empty);
            assert(!all_marked(after.board.cells));
        }
    }
}

/// The move that fills a line for a player wins the game for that player, then and not
/// before: if `m` holds no line before selection `k` and holds one after it, then `m` made
/// that move, the board shows `m` as its winner, the game ends with `m` as winner, and
/// the game had not ended at any earlier point.
pub proof fn lemma_filling_a_line_wins(moves: Seq<int>, k: int, m: Marker)
    requires
        0 <= k < moves.len(),
        m != Marker::Empty,
        !has_line(play(moves.take(k)).board.cells, m),
        has_line(play(moves.take(k + 1)).board.cells, m),
    ensures
        play(moves.take(k)).accepts(moves[k]),
        play(moves.take(k)).board.current_player == m,
        play(moves.take(k + 1)).board.winner() == Some(m),
        play(moves.take(k + 1)).is_finished,
        play(moves.take(k + 1)).winner == m,
        forall|j: int| 0 <= j <= k ==> !(#[trigger] play(moves.take(j))).is_finished,
{
    lemma_play_step(moves, k);
    lemma_play_wf(moves.take(k));
    lemma_filled_line_wins(play(moves.take(k)), moves[k], m);
    assert forall|j: int| 0 <= j <= k implies !(#[trigger] play(moves.take(j))).is_finished by {
        if play(moves.take(j)).is_finished {
            lemma_finished_is_final(moves, j, k);
        }
    }
}

} // verus!
