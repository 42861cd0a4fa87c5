use tictactoe::board::{
    cell_index, count_cells_of_type, get_other_player, is_full, new_board, who_won, Board, Marker,
    PlaceError, LINES,
};

const X: Marker = Marker::X;
const O: Marker = Marker::O;
const E: Marker = Marker::Empty;

fn board_of(spaces: [Marker; 9], current_player: Marker) -> Board {
    Board { spaces, current_player }
}

#[test]
fn new_board_is_empty_with_x_to_move() {
    let board = new_board();
    assert_eq!(board.spaces, [E; 9]);
    assert_eq!(board.current_player, X);
    assert_eq!(Board::new(), board);
}

#[test]
fn other_player_of_each_marker() {
    assert_eq!(get_other_player(X), O);
    assert_eq!(get_other_player(O), X);
    assert_eq!(get_other_player(E), X);
}

#[test]
fn lines_are_rows_columns_and_diagonals() {
    assert_eq!(
        LINES,
        [[0, 1, 2], [3, 4, 5], [6, 7, 8], [0, 3, 6], [1, 4, 7], [2, 5, 8], [0, 4, 8], [2, 4, 6]]
    );
}

#[test]
fn place_writes_the_marker_and_passes_the_turn() {
    let mut board = Board::new();
    assert_eq!(board.place(4), Ok(()));
    assert_eq!(board.spaces, [E, E, E, E, X, E, E, E, E]);
    assert_eq!(board.current_player, O);
    assert_eq!(board.place(8), Ok(()));
    assert_eq!(board.spaces, [E, E, E, E, X, E, E, E, O]);
    assert_eq!(board.current_player, X);
}

#[test]
fn place_accepts_the_first_and_the_last_cell() {
    let mut board = Board::new();
    assert_eq!(board.place(0), Ok(()));
    assert_eq!(board.place(8), Ok(()));
    assert_eq!(board.spaces, [X, E, E, E, E, E, E, E, O]);
}

#[test]
fn place_out_of_range_fails_and_leaves_the_board() {
    let mut board = Board::new();
    assert_eq!(board.place(9), Err(PlaceError::OutOfRange));
    assert_eq!(board, new_board());
    assert_eq!(board.place(usize::MAX), Err(PlaceError::OutOfRange));
    assert_eq!(board, new_board());
}

#[test]
fn place_on_occupied_cell_fails_and_keeps_the_turn() {
    let mut board = Board::new();
    assert_eq!(board.place(0), Ok(()));
    assert_eq!(board.place(0), Err(PlaceError::CellOccupied));
    assert_eq!(board.current_player, O);
    assert_eq!(board.spaces[0], X);
    assert_eq!(board.spaces, [X, E, E, E, E, E, E, E, E]);
}

#[test]
fn place_out_of_range_wins_over_occupied() {
    let mut board = board_of([X; 9], O);
    assert_eq!(board.place(9), Err(PlaceError::OutOfRange));
    assert_eq!(board.place(3), Err(PlaceError::CellOccupied));
    assert_eq!(board, board_of([X; 9], O));
}

#[test]
fn players_alternate_over_successful_placements_only() {
    let mut board = Board::new();
    let attempts = [4, 4, 0, 9, 0, 8, 4, 2];
    let mover_before = [X, O, O, X, X, X, O, O];
    let succeeds = [true, false, true, false, false, true, false, true];
    for n in 0..attempts.len() {
        assert_eq!(board.current_player, mover_before[n]);
        assert_eq!(board.place(attempts[n]).is_ok(), succeeds[n]);
    }
    assert_eq!(board.current_player, X);
    assert_eq!(board.spaces, [O, E, O, E, X, E, E, E, X]);
}

#[test]
fn who_won_finds_each_line_for_each_player() {
    for line in LINES {
        for player in [X, O] {
            let mut board = new_board();
            for cell in line {
                board.spaces[cell] = player;
            }
            assert_eq!(who_won(&board), Some(player));
            assert_eq!(board.winner(), Some(player));
        }
    }
}

#[test]
fn who_won_is_none_without_a_full_line() {
    assert_eq!(who_won(&new_board()), None);
    assert_eq!(who_won(&board_of([X, X, E, O, O, E, E, E, E], X)), None);
    assert_eq!(who_won(&board_of([X, O, X, O, X, X, O, X, O], O)), None);
    assert_eq!(who_won(&board_of([X, X, O, E, E, E, E, E, E], X)), None);
}

#[test]
fn who_won_ignores_lines_of_empty_cells() {
    assert_eq!(who_won(&board_of([E, E, E, X, X, X, E, E, E], O)), Some(X));
    assert_eq!(who_won(&board_of([E, E, E, E, E, E, O, O, O], X)), Some(O));
}

#[test]
fn who_won_names_x_when_both_players_hold_a_line() {
    assert_eq!(who_won(&board_of([O, O, O, X, X, X, E, E, E], X)), Some(X));
    assert_eq!(who_won(&board_of([X, X, X, O, O, O, E, E, E], X)), Some(X));
    assert_eq!(who_won(&board_of([X, O, E, X, O, E, X, O, E], X)), Some(X));
    assert_eq!(who_won(&board_of([O, X, E, O, X, E, O, X, E], X)), Some(X));
}

#[test]
fn count_cells_of_type_counts_each_marker() {
    let board = board_of([X, O, X, E, X, E, O, E, E], O);
    assert_eq!(count_cells_of_type(&board, X), 3);
    assert_eq!(count_cells_of_type(&board, O), 2);
    assert_eq!(count_cells_of_type(&board, E), 4);
    assert_eq!(count_cells_of_type(&new_board(), E), 9);
    assert_eq!(count_cells_of_type(&new_board(), X), 0);
}

#[test]
fn is_full_only_without_empty_cells() {
    assert!(!is_full(&new_board()));
    assert!(!is_full(&board_of([X, O, X, O, X, X, O, X, E], O)));
    assert!(!is_full(&board_of([E, O, X, O, X, X, O, X, O], O)));
    assert!(is_full(&board_of([X, O, X, O, X, X, O, X, O], O)));
    assert!(board_of([X; 9], O).is_full());
    assert!(!Board::new().is_full());
}

#[test]
fn marker_text() {
    assert_eq!(X.to_char(), 'X');
    assert_eq!(O.to_char(), 'O');
    assert_eq!(E.to_char(), ' ');
    assert_eq!(X.as_str(), "X");
    assert_eq!(O.as_str(), "O");
    assert_eq!(E.as_str(), " ");
    assert_eq!(X.to_string(), "X");
    assert_eq!(O.to_string(), "O");
    assert_eq!(E.to_string(), " ");
}

#[test]
fn board_text_has_three_lines_of_three_cells() {
    assert_eq!(new_board().to_string(), "   \n   \n   \n");
    assert_eq!(board_of([X, E, O, E, O, E, E, E, X], O).to_string(), "X O\n O \n  X\n");
    assert_eq!(board_of([X, O, X, O, X, X, O, X, O], O).to_string(), "XOX\nOXX\nOXO\n");
}

#[test]
fn cell_index_is_row_major() {
    assert_eq!(cell_index(0, 0), Some(0));
    assert_eq!(cell_index(2, 0), Some(2));
    assert_eq!(cell_index(0, 1), Some(3));
    assert_eq!(cell_index(2, 1), Some(5));
    assert_eq!(cell_index(1, 2), Some(7));
    assert_eq!(cell_index(2, 2), Some(8));
}

#[test]
fn cell_index_rejects_what_is_off_the_board() {
    assert_eq!(cell_index(-1, 0), None);
    assert_eq!(cell_index(0, -1), None);
    assert_eq!(cell_index(3, 0), None);
    assert_eq!(cell_index(0, 3), None);
    assert_eq!(cell_index(i32::MAX, i32::MAX), None);
    assert_eq!(cell_index(i32::MIN, 1), None);
}
