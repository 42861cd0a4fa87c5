//! The 3×3 board: its cells, whose turn it is, and the queries that decide a game.
//!
//! Cells are numbered 0 to 8 row by row, so the cell in column `c` of row `r` has index
//! `c + 3 * r`. Contracts speak of a board through its view, a [`BoardView`], whose `cells`
//! are a sequence of nine markers.

use vstd::prelude::*;
use vstd::multiset::*;
use vstd::seq_lib::*;

verus! {

/// What a cell of the board holds: the mark of one of the two players, or nothing.
#[derive(Clone, Copy, Debug, PartialEq, Eq, Structural)]
pub enum Marker {
    X,
    O,
    Empty,
}

impl Marker {
    /// The character that stands for the marker in text: `X`, `O`, or a blank.
    pub open spec fn glyph(self) -> char {
        match self {
            Marker::X => 'X',
            Marker::O => 'O',
            Marker::Empty => ' ',
        }
    }

    /// Returns the character that stands for the marker.
    pub fn to_char(self) -> (c: char)
        ensures
            c == self.glyph(),
    {
        match self {
            Marker::X => 'X',
            Marker::O => 'O',
            Marker::Empty => ' ',
        }
    }

    /// Returns the marker as text of one character.
    pub fn as_str(self) -> (text: &'static str)
        ensures
            text@ == seq![self.glyph()],
    {
        proof {
            reveal_strlit("X");
            reveal_strlit("O");
            reveal_strlit(" ");
        }
        let text = match self {
            Marker::X => "X",
            Marker::O => "O",
            Marker::Empty => " ",
        };
        assert(text@ =~= seq![self.glyph()]);
        text
    }

    /// Returns the marker as a string of one character.
    pub fn to_string(&self) -> (text: String)
        ensures
            text@ == seq![self.glyph()],
    {
        String::from_str(self.as_str())
    }
}

/// Why a marker could not be placed.
#[derive(Clone, Copy, Debug, PartialEq, Eq, Structural)]
pub enum PlaceError {
    /// The index names no cell of the board.
    OutOfRange,
    /// The cell already holds a marker.
    CellOccupied,
}

/// The eight lines that win a game, each as the indices of its three cells: the rows from
/// top to bottom, the columns from left to right, then the two diagonals.
pub const LINES: [[usize; 3]; 8] = [
    [0, 1, 2],
    [3, 4, 5],
    [6, 7, 8],
    [0, 3, 6],
    [1, 4, 7],
    [2, 5, 8],
    [0, 4, 8],
    [2, 4, 6],
];

/// The player who moves after `pl`: `O` after `X`, and `X` after anything else.
pub open spec fn other_player(pl: Marker) -> Marker {
    if pl == Marker::X {
        Marker::O
    } else {
        Marker::X
    }
}

/// Whether each of the three cells of line `k` holds `m`.
pub open spec fn owns_line(cells: Seq<Marker>, m: Marker, k: int) -> bool {
    &&& cells[LINES[k][0] as int] == m
    &&& cells[LINES[k][1] as int] == m
    &&& cells[LINES[k][2] as int] == m
}

/// Whether `m` holds all three cells of at least one of the eight lines.
pub open spec fn has_line(cells: Seq<Marker>, m: Marker) -> bool {
    exists|k: int| 0 <= k < 8 && owns_line(cells, m, k)
}

/// The winner that a board with these cells shows: `X` if `X` holds a line, else `O` if
/// `O` holds a line, else nobody.
///
/// In a game the two players never both hold a line, and the winner is then the owner of
/// the first line, in the order of [`LINES`], that one player fills: that is
/// [`lemma_winner_is_first_line_owner`].
pub open spec fn winner_of(cells: Seq<Marker>) -> Option<Marker> {
    if has_line(cells, Marker::X) {
        Some(Marker::X)
    } else if has_line(cells, Marker::O) {
        Some(Marker::O)
    } else {
        None
    }
}

/// The player whose marker fills line `k`, if the line is filled by one player.
pub open spec fn line_owner(cells: Seq<Marker>, k: int) -> Option<Marker> {
    let m = cells[LINES[k][0] as int];
    if m != Marker::Empty && owns_line(cells, m, k) {
        Some(m)
    } else {
        None
    }
}

/// The owner of the first line at or after line `k`, in the order of [`LINES`], that one
/// player fills.
pub open spec fn first_owner_from(cells: Seq<Marker>, k: int) -> Option<Marker>
    decreases 8 - k,
{
    if k < 0 || k >= 8 {
        None
    } else if line_owner(cells, k) is Some {
        line_owner(cells, k)
    } else {
        first_owner_from(cells, k + 1)
    }
}

/// The owner of the first line, in the order of [`LINES`], that one player fills, and
/// `None` when no line is filled by one player.
pub open spec fn first_line_owner(cells: Seq<Marker>) -> Option<Marker> {
    first_owner_from(cells, 0)
}

/// How many of the cells hold `m`.
pub open spec fn count_of(cells: Seq<Marker>, m: Marker) -> nat {
    cells.to_multiset().count(m)
}

/// Whether no cell is empty.
pub open spec fn all_marked(cells: Seq<Marker>) -> bool {
    forall|i: int| 0 <= i < cells.len() ==> cells[i] != Marker::Empty
}

/// The mathematical content of a [`Board`].
pub struct BoardView {
    /// The nine cells, row by row.
    pub cells: Seq<Marker>,
    /// The player whose marker the next placement writes.
    pub current_player: Marker,
}

impl BoardView {
    /// The board at the start of a game: nine empty cells, `X` to move.
    pub open spec fn empty() -> BoardView {
        BoardView { cells: Seq::new(9, |i: int| Marker::Empty), current_player: Marker::X }
    }

    /// Nine cells, and a player to move.
    pub open spec fn wf(self) -> bool {
        &&& self.cells.len() == 9
        &&& self.current_player != Marker::Empty
    }

    /// Whether a marker can be placed at `index`: the index names a cell, and it is empty.
    pub open spec fn can_place(self, index: int) -> bool {
        &&& 0 <= index < 9
        &&& self.cells[index] == Marker::Empty
    }

    /// The board after the player to move has marked cell `index`.
    pub open spec fn place(self, index: int) -> BoardView {
        BoardView {
            cells: self.cells.update(index, self.current_player),
            current_player: other_player(self.current_player),
        }
    }

    /// The winner that the board shows, as [`winner_of`] defines it.
    pub open spec fn winner(self) -> Option<Marker> {
        winner_of(self.cells)
    }

    /// Whether every cell holds a marker.
    pub open spec fn is_full(self) -> bool {
        all_marked(self.cells)
    }

    /// The board as text: its three rows from the top, each as the three characters of
    /// its cells followed by a line feed.
    pub open spec fn text(self) -> Seq<char> {
        Seq::new(
            12,
            |i: int|
                if i % 4 == 3 {
                    '\n'
                } else {
                    self.cells[i / 4 * 3 + i % 4].glyph()
                },
        )
    }
}

/// The board of a game in progress.
#[derive(Clone, Copy, Debug, PartialEq, Eq)]
pub struct Board {
    /// The nine cells, row by row.
    pub spaces: [Marker; 9],
    /// The player whose marker the next placement writes.
    pub current_player: Marker,
}

impl View for Board {
    type V = BoardView;

    open spec fn view(&self) -> BoardView {
        BoardView { cells: self.spaces@, current_player: self.current_player }
    }
}

/// Returns the empty board, with `X` to move.
pub fn new_board() -> (board: Board)
    ensures
        board@ == BoardView::empty(),
        board@.wf(),
{
    let board = Board { spaces: [Marker::Empty; 9], current_player: Marker::X };
    assert(board@.cells =~= BoardView::empty().cells);
    board
}

/// Returns the opponent of `pl`. The opponent of `Marker::Empty` is `X`.
pub fn get_other_player(pl: Marker) -> (other: Marker)
    ensures
        other == other_player(pl),
{
    if pl == Marker::X {
        Marker::O
    } else {
        Marker::X
    }
}

/// Returns how many cells of the board hold `typ`.
pub fn count_cells_of_type(board: &Board, typ: Marker) -> (count: usize)
    ensures
        count == count_of(board@.cells, typ),
        count <= 9,
{
    let mut count: usize = 0;
    let mut i: usize = 0;
    proof {
        broadcast use group_multiset_axioms;

        to_multiset_len(board@.cells.take(0));
    }
    while i < 9
        invariant
            0 <= i <= 9,
            count <= i,
            count == count_of(board@.cells.take(i as int), typ),
        decreases 9 - i,
    {
        proof {
            broadcast use {group_multiset_axioms, group_multiset_properties};

            let cells = board@.cells;
            assert(cells.take(i + 1) =~= cells.take(i as int).push(cells[i as int]));
            to_multiset_build(cells.take(i as int), cells[i as int]);
        }
        if board.spaces[i] == typ {
            count += 1;
        }
        i += 1;
    }
    assert(board@.cells.take(9) =~= board@.cells);
    count
}

/// Whether `marker` holds all three cells of one of the eight lines.
fn holds_line(board: &Board, marker: Marker) -> (held: bool)
    ensures
        held == has_line(board@.cells, marker),
{
    let mut k: usize = 0;
    while k < 8
        invariant
            0 <= k <= 8,
            forall|j: int| 0 <= j < k ==> !owns_line(board@.cells, marker, j),
        decreases 8 - k,
    {
        proof {
            lemma_lines_on_board(k as int);
        }
        let trio = LINES[k];
        if board.spaces[trio[0]] == marker && board.spaces[trio[1]] == marker
            && board.spaces[trio[2]] == marker {
            assert(owns_line(board@.cells, marker, k as int));
            return true;
        }
        k += 1;
    }
    false
}

/// Returns the winner that the board shows: the player who holds all three cells of one
/// of the eight lines, and `None` when neither player holds a line.
///
/// Unless both players hold a line, which no game reaches, this is the owner of the first
/// line in the order of [`LINES`] that one player fills. Where both do, `X` is returned.
pub fn who_won(board: &Board) -> (w: Option<Marker>)
    ensures
        w == winner_of(board@.cells),
        !(has_line(board@.cells, Marker::X) && has_line(board@.cells, Marker::O)) ==> w
            == first_line_owner(board@.cells),
{
    proof {
        if !(has_line(board@.cells, Marker::X) && has_line(board@.cells, Marker::O)) {
            lemma_winner_is_first_line_owner(board@.cells);
        }
    }
    if holds_line(board, Marker::X) {
        Some(Marker::X)
    } else if holds_line(board, Marker::O) {
        Some(Marker::O)
    } else {
        None
    }
}

/// Returns whether every cell of the board holds a marker.
pub fn is_full(board: &Board) -> (full: bool)
    ensures
        full == all_marked(board@.cells),
{
    proof {
        lemma_count_zero(board@.cells, Marker::Empty);
    }
    count_cells_of_type(board, Marker::Empty) == 0
}

/// Returns the index of the cell in column `col` of row `row`, counted from 0, and `None`
/// when the column or the row lies off the board.
pub fn cell_index(col: i32, row: i32) -> (index: Option<usize>)
    ensures
        index is Some <==> 0 <= col < 3 && 0 <= row < 3,
        index matches Some(i) ==> i == col + row * 3,
{
    if col < 0 || col > 2 || row < 0 || row > 2 {
        None
    } else {
        Some((col + row * 3) as usize)
    }
}

impl Board {
    /// Returns the empty board, with `X` to move.
    pub fn new() -> (board: Board)
        ensures
            board@ == BoardView::empty(),
            board@.wf(),
    {
        new_board()
    }

    /// Marks cell `index` for the player to move, and passes the move to the opponent.
    ///
    /// The marker is placed exactly when `index` names an empty cell. An index past the
    /// last cell is refused as `OutOfRange`, a cell that holds a marker as `CellOccupied`;
    /// a refused placement leaves the board as it was.
    pub fn place(&mut self, index: usize) -> (placed: Result<(), PlaceError>)
        ensures
            placed is Ok <==> old(self)@.can_place(index as int),
            placed == Err::<(), PlaceError>(PlaceError::OutOfRange) <==> index >= 9,
            placed == Err::<(), PlaceError>(PlaceError::CellOccupied) <==> index < 9 && old(
                self,
            )@.cells[index as int] != Marker::Empty,
            placed is Ok ==> final(self)@ == old(self)@.place(index as int),
            placed is Err ==> final(self)@ == old(self)@,
            old(self)@.wf() ==> final(self)@.wf(),
    {
        if index >= 9 {
            return Err(PlaceError::OutOfRange);
        }
        if self.spaces[index] != Marker::Empty {
            return Err(PlaceError::CellOccupied);
        }
        self.spaces[index] = self.current_player;
        self.current_player = get_other_player(self.current_player);
        Ok(())
    }

    /// Returns the winner that the board shows, as [`who_won`] does.
    pub fn winner(&self) -> (w: Option<Marker>)
        ensures
            w == self@.winner(),
            !(has_line(self@.cells, Marker::X) && has_line(self@.cells, Marker::O)) ==> w
                == first_line_owner(self@.cells),
    {
        who_won(self)
    }

    /// Returns whether every cell holds a marker.
    pub fn is_full(&self) -> (full: bool)
        ensures
            full == self@.is_full(),
    {
        is_full(self)
    }

    /// Returns the board as three lines of text, one character for each cell.
    pub fn to_string(&self) -> (text: String)
        ensures
            text@ == self@.text(),
    {
        let mut text = String::new();
        let mut i: usize = 0;
        while i < 9
            invariant
                0 <= i <= 9,
                text@ == self@.text().take(i + i / 3),
            decreases 9 - i,
        {
            text.append(self.spaces[i].as_str());
            if i % 3 == 2 {
                proof {
                    reveal_strlit("\n");
                }
                text.append("\n");
            }
            i += 1;
        }
        assert(self@.text().take(12) =~= self@.text());
        text
    }
}

/// Each cell of each line lies on the board.
pub proof fn lemma_lines_on_board(k: int)
    requires
        0 <= k < 8,
    ensures
        0 <= LINES[k][0] < 9,
        0 <= LINES[k][1] < 9,
        0 <= LINES[k][2] < 9,
{
}

/// What [`first_owner_from`] returns, said over the lines themselves.
proof fn lemma_first_owner_from(cells: Seq<Marker>, k: int)
    requires
        0 <= k <= 8,
    ensures
        match first_owner_from(cells, k) {
            Some(m) => exists|j: int|
                k <= j < 8 && #[trigger] line_owner(cells, j) == Some(m) && forall|i: int|
                    k <= i < j ==> #[trigger] line_owner(cells, i) is None,
            None => forall|j: int| k <= j < 8 ==> #[trigger] line_owner(cells, j) is None,
        },
    decreases 8 - k,
{
    if k < 8 {
        lemma_first_owner_from(cells, k + 1);
        if line_owner(cells, k) is None {
            let m = first_owner_from(cells, k + 1);
            if m is Some {
                let j = choose|j: int|
                    k + 1 <= j < 8 && #[trigger] line_owner(cells, j) == m && forall|i: int|
                        k + 1 <= i < j ==> #[trigger] line_owner(cells, i) is None;
                assert(k <= j < 8 && line_owner(cells, j) == m && forall|i: int|
                    k <= i < j ==> #[trigger] line_owner(cells, i) is None);
            }
        } else {
            assert(line_owner(cells, k) == first_owner_from(cells, k));
        }
    }
}

/// The first line owner is the owner of a line `k` before which no line has an owner, and
/// there is none exactly when no line has an owner.
pub proof fn lemma_first_line_owner(cells: Seq<Marker>)
    ensures
        match first_line_owner(cells) {
            Some(m) => exists|k: int|
                0 <= k < 8 && #[trigger] line_owner(cells, k) == Some(m) && forall|j: int|
                    0 <= j < k ==> #[trigger] line_owner(cells, j) is None,
            None => forall|k: int| 0 <= k < 8 ==> #[trigger] line_owner(cells, k) is None,
        },
{
    lemma_first_owner_from(cells, 0);
}

/// Where the two players do not both hold a line, the order in which lines and players
/// are looked at does not matter: the winner is the owner of the first line, in the order
/// of [`LINES`], that one player fills.
pub proof fn lemma_winner_is_first_line_owner(cells: Seq<Marker>)
    requires
        !(has_line(cells, Marker::X) && has_line(cells, Marker::O)),
    ensures
        winner_of(cells) == first_line_owner(cells),
{
    lemma_first_line_owner(cells);
    if let Some(m) = first_line_owner(cells) {
        let k = choose|k: int| 0 <= k < 8 && #[trigger] line_owner(cells, k) == Some(m);
        assert(owns_line(cells, m, k));
    }
    if has_line(cells, Marker::X) {
        let k = choose|k: int| 0 <= k < 8 && owns_line(cells, Marker::X, k);
        assert(line_owner(cells, k) == Some(Marker::X));
    }
    if has_line(cells, Marker::O) {
        let k = choose|k: int| 0 <= k < 8 && owns_line(cells, Marker::O, k);
        assert(line_owner(cells, k) == Some(Marker::O));
    }
}

/// A cell count is zero exactly when no cell holds the marker.
pub proof fn lemma_count_zero(cells: Seq<Marker>, m: Marker)
    ensures
        count_of(cells, m) == 0 <==> forall|i: int| 0 <= i < cells.len() ==> cells[i] != m,
{
    to_multiset_contains(cells, m);
    if cells.contains(m) {
        let i = choose|i: int| 0 <= i < cells.len() && cells[i] == m;
        assert(cells[i] == m);
    }
}

/// Writing `new` into cell `i` takes one from the count of what the cell held and adds one
/// to the count of `new`.
pub proof fn lemma_count_update(cells: Seq<Marker>, i: int, new: Marker, m: Marker)
    requires
        0 <= i < cells.len(),
    ensures
        count_of(cells.update(i, new), m) == count_of(cells, m) + (if new == m {
            1int
        } else {
            0int
        }) - (if cells[i] == m {
            1int
        } else {
            0int
        }),
{
    broadcast use {group_multiset_axioms, group_multiset_properties};

    to_multiset_update(cells, i, new);
    to_multiset_contains(cells, cells[i]);
    assert(cells.contains(cells[i]));
}

/// Each cell holds `X`, `O` or nothing, so the three counts add up to the number of cells.
pub proof fn lemma_cells_counted(cells: Seq<Marker>)
    ensures
        count_of(cells, Marker::X) + count_of(cells, Marker::O) + count_of(cells, Marker::Empty)
            == cells.len(),
    decreases cells.len(),
{
    broadcast use {group_multiset_axioms, group_multiset_properties};

    if cells.len() == 0 {
        to_multiset_len(cells);
    } else {
        lemma_cells_counted(cells.drop_last());
        assert(cells =~= cells.drop_last().push(cells.last()));
        to_multiset_build(cells.drop_last(), cells.last());
    }
}

} // verus!
