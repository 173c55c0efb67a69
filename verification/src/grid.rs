//! The board: its cells, the test for full rows, and the clearing that lets
//! the rows above sink.
use vstd::prelude::*;
use vstd::string::StringExecFns;
use crate::canvas::{tile, Rect, BOARD_OFFSET};
use crate::colors::{get_cell_colors, palette};

verus! {

/// The number of rows of the board.
pub const NUM_ROWS: usize = 20;

/// The number of columns of the board.
pub const NUM_COLS: usize = 10;

/// The mathematical value of a grid: its rows from top to bottom, each row
/// the values of its cells from left to right. A cell holds 0 when it is
/// empty, and else the id of the block kind that was locked there.
pub type Board = Seq<Seq<int>>;

/// Whether `(row, column)` lies off the board.
pub open spec fn is_outside(row: int, column: int) -> bool {
    !(0 <= row < NUM_ROWS && 0 <= column < NUM_COLS)
}

/// A row of empty cells.
pub open spec fn empty_row() -> Seq<int> {
    Seq::new(NUM_COLS as nat, |c: int| 0int)
}

/// The board with every cell empty.
pub open spec fn empty_board() -> Board {
    Seq::new(NUM_ROWS as nat, |r: int| empty_row())
}

/// The board has the fixed dimensions, and every cell holds 0 or a kind id.
pub open spec fn board_wf(board: Board) -> bool {
    &&& board.len() == NUM_ROWS
    &&& forall|r: int| 0 <= r < NUM_ROWS ==> (#[trigger] board[r]).len() == NUM_COLS
    &&& forall|r: int, c: int|
        0 <= r < NUM_ROWS && 0 <= c < NUM_COLS ==> 0 <= #[trigger] board[r][c] <= 7
}

/// A row is full when none of its cells is empty.
pub open spec fn row_is_full(row: Seq<int>) -> bool {
    forall|c: int| 0 <= c < row.len() ==> row[c] != 0
}

/// The rows that a clearing leaves: those that are not full, in their order.
pub open spec fn surviving_rows(board: Board) -> Board {
    board.filter(|row: Seq<int>| !row_is_full(row))
}

/// The number of full rows.
pub open spec fn full_row_count(board: Board) -> int {
    board.len() - surviving_rows(board).len()
}

/// The board after its full rows were cleared: the surviving rows have sunk
/// to the bottom, in their order, and as many empty rows as were cleared
/// have come in at the top.
pub open spec fn settled(board: Board) -> Board {
    Seq::new(full_row_count(board) as nat, |r: int| empty_row()) + surviving_rows(board)
}

/// Whether `tiles` is the picture of the board: one rectangle for each cell,
/// row by row from the top left, in the colour that the palette gives the
/// cell's value.
pub open spec fn board_drawn_as(board: Board, tiles: Seq<Rect>) -> bool {
    &&& tiles.len() == NUM_ROWS * NUM_COLS
    &&& forall|k: int|
        0 <= k < NUM_ROWS * NUM_COLS ==> (#[trigger] tiles[k]).paints(
            k / (NUM_COLS as int),
            k % (NUM_COLS as int),
            BOARD_OFFSET as int,
            BOARD_OFFSET as int,
            palette()[board[k / (NUM_COLS as int)][k % (NUM_COLS as int)]],
        )
}

/// The character that stands for a cell value: its decimal digit.
pub open spec fn cell_char(value: int) -> char {
    if value == 0 {
        '0'
    } else if value == 1 {
        '1'
    } else if value == 2 {
        '2'
    } else if value == 3 {
        '3'
    } else if value == 4 {
        '4'
    } else if value == 5 {
        '5'
    } else if value == 6 {
        '6'
    } else {
        '7'
    }
}

/// The text of the cells of a row: for each cell, its character and a space.
pub open spec fn cells_text(row: Seq<int>) -> Seq<char>
    decreases row.len(),
{
    if row.len() == 0 {
        Seq::empty()
    } else {
        cells_text(row.drop_last()) + seq![cell_char(row.last()), ' ']
    }
}

/// The text of a board: for each row, the text of its cells and a line
/// break.
pub open spec fn board_text(board: Board) -> Seq<char>
    decreases board.len(),
{
    if board.len() == 0 {
        Seq::empty()
    } else {
        board_text(board.drop_last()) + cells_text(board.last()) + seq!['\n']
    }
}

/// A single row survives exactly when it is not full.
pub proof fn lemma_surviving_single(row: Seq<int>)
    ensures
        surviving_rows(seq![row]) == if row_is_full(row) {
            Seq::<Seq<int>>::empty()
        } else {
            seq![row]
        },
{
    reveal_with_fuel(Seq::filter, 2);
    let one = seq![row];
    assert(one.drop_last() =~= Seq::<Seq<int>>::empty());
    assert(surviving_rows(one) =~= if row_is_full(row) {
        Seq::<Seq<int>>::empty()
    } else {
        seq![row]
    });
}

/// Putting a row on top of a board puts it on top of the surviving rows, if
/// it survives itself.
pub proof fn lemma_surviving_push_top(row: Seq<int>, board: Board)
    ensures
        surviving_rows(seq![row] + board) == if row_is_full(row) {
            surviving_rows(board)
        } else {
            seq![row] + surviving_rows(board)
        },
        full_row_count(seq![row] + board) == if row_is_full(row) {
            full_row_count(board) + 1
        } else {
            full_row_count(board)
        },
{
    lemma_surviving_single(row);
    Seq::filter_distributes_over_add(seq![row], board, |row: Seq<int>| !row_is_full(row));
    assert(Seq::<Seq<int>>::empty() + surviving_rows(board) =~= surviving_rows(board));
}

/// No more rows are full than there are rows.
pub proof fn lemma_full_row_count_bounds(board: Board)
    ensures
        0 <= full_row_count(board) <= board.len(),
{
    board.lemma_filter_len(|row: Seq<int>| !row_is_full(row));
}

/// A board without a full row is left as it is by a clearing.
pub proof fn lemma_settled_without_full_row(board: Board)
    requires
        forall|r: int| 0 <= r < board.len() ==> !row_is_full(#[trigger] board[r]),
    ensures
        full_row_count(board) == 0,
        settled(board) == board,
    decreases board.len(),
{
    if board.len() == 0 {
        reveal_with_fuel(Seq::filter, 1);
        assert(surviving_rows(board) =~= board);
    } else {
        let rest = board.drop_first();
        assert(board =~= seq![board[0]] + rest);
        assert forall|r: int| 0 <= r < rest.len() implies !row_is_full(#[trigger] rest[r]) by {
            assert(rest[r] == board[r + 1]);
        }
        lemma_settled_without_full_row(rest);
        lemma_surviving_push_top(board[0], rest);
        assert(surviving_rows(rest) =~= rest);
    }
    assert(settled(board) =~= board);
}

/// A clearing of the empty board clears nothing and leaves it empty.
pub proof fn lemma_settled_empty_board()
    ensures
        full_row_count(empty_board()) == 0,
        settled(empty_board()) == empty_board(),
{
    assert forall|r: int| 0 <= r < empty_board().len() implies !row_is_full(
        #[trigger] empty_board()[r],
    ) by {
        assert(empty_board()[r][0] == 0);
    }
    lemma_settled_without_full_row(empty_board());
}

/// When the full rows of a board are exactly its `count` bottom rows, a
/// clearing moves every other row down by `count` and leaves `count` empty
/// rows at the top.
pub proof fn lemma_settled_bottom_rows(board: Board, count: int)
    requires
        0 <= count <= board.len(),
        forall|r: int| 0 <= r < board.len() - count ==> !row_is_full(#[trigger] board[r]),
        forall|r: int| board.len() - count <= r < board.len() ==> row_is_full(#[trigger] board[r]),
    ensures
        full_row_count(board) == count,
        settled(board).len() == board.len(),
        forall|r: int| 0 <= r < count ==> #[trigger] settled(board)[r] == empty_row(),
        forall|r: int| count <= r < board.len() ==> #[trigger] settled(board)[r] == board[r - count],
{
    let keep = |row: Seq<int>| !row_is_full(row);
    let top = board.subrange(0, board.len() - count);
    let bottom = board.subrange(board.len() - count, board.len() as int);
    assert(board =~= top + bottom);
    Seq::filter_distributes_over_add(top, bottom, keep);
    lemma_settled_without_full_row(top);
    assert(surviving_rows(top) == top) by {
        assert(settled(top) =~= surviving_rows(top));
    }
    lemma_none_survive(bottom);
    assert(surviving_rows(board) =~= top);
}

/// Of a board whose rows are all full, no row survives.
pub proof fn lemma_none_survive(board: Board)
    requires
        forall|r: int| 0 <= r < board.len() ==> row_is_full(#[trigger] board[r]),
    ensures
        surviving_rows(board) == Seq::<Seq<int>>::empty(),
    decreases board.len(),
{
    if board.len() == 0 {
        reveal_with_fuel(Seq::filter, 1);
        assert(surviving_rows(board) =~= Seq::<Seq<int>>::empty());
    } else {
        let rest = board.drop_first();
        assert(board =~= seq![board[0]] + rest);
        assert forall|r: int| 0 <= r < rest.len() implies row_is_full(#[trigger] rest[r]) by {
            assert(rest[r] == board[r + 1]);
        }
        lemma_none_survive(rest);
        lemma_surviving_push_top(board[0], rest);
    }
}

/// Every row that survives a clearing is a row of the board.
pub proof fn lemma_surviving_row_is_old(board: Board, r: int)
    requires
        0 <= r < surviving_rows(board).len(),
    ensures
        exists|from: int| 0 <= from < board.len() && board[from] == surviving_rows(board)[r],
{
    let keep = |row: Seq<int>| !row_is_full(row);
    let row = surviving_rows(board)[r];
    assert(board.filter(keep).contains(row));
    board.lemma_filter_contains_rev(keep, row);
    let from = choose|from: int| 0 <= from < board.len() && board[from] == row;
    assert(board[from] == surviving_rows(board)[r]);
}

/// A clearing keeps a board well formed, and leaves no row full.
pub proof fn lemma_settled_wf(board: Board)
    requires
        board_wf(board),
    ensures
        board_wf(settled(board)),
        forall|r: int| 0 <= r < NUM_ROWS ==> !row_is_full(#[trigger] settled(board)[r]),
{
    let keep = |row: Seq<int>| !row_is_full(row);
    let after = settled(board);
    let count = full_row_count(board);
    lemma_full_row_count_bounds(board);
    assert(after.len() == NUM_ROWS);
    assert forall|r: int| 0 <= r < NUM_ROWS implies {
        &&& (#[trigger] after[r]).len() == NUM_COLS
        &&& !row_is_full(after[r])
        &&& forall|c: int| 0 <= c < NUM_COLS ==> 0 <= #[trigger] after[r][c] <= 7
    } by {
        if r < count {
            assert(after[r] == empty_row());
            assert(empty_row()[0] == 0);
        } else {
            assert(after[r] == surviving_rows(board)[r - count]);
            lemma_surviving_row_is_old(board, r - count);
            let from = choose|from: int|
                0 <= from < board.len() && board[from] == surviving_rows(board)[r - count];
            assert(after[r] == board[from]);
            board.lemma_filter_pred(keep, r - count);
        }
    }
}

/// The board: 20 rows of 10 cells. A cell holds 0 when it is empty and the
/// id of a block kind when a block of that kind was locked there.
#[derive(Clone, Copy, Debug, PartialEq, Eq)]
pub struct Grid {
    pub grid: [[i32; 10]; 20],
}

impl View for Grid {
    type V = Board;

    open spec fn view(&self) -> Board {
        Seq::new(NUM_ROWS as nat, |r: int| Seq::new(NUM_COLS as nat, |c: int| self.grid[r][c] as int))
    }
}

impl Grid {
    /// Every cell holds 0 or a kind id.
    pub open spec fn wf(&self) -> bool {
        board_wf(self@)
    }

    /// An empty board.
    pub fn new() -> (grid: Self)
        ensures
            grid@ == empty_board(),
    {
        let grid = Grid { grid: [[0; 10]; 20] };
        assert(grid@ =~~= empty_board());
        grid
    }

    /// Empties every cell.
    pub fn initialize(&mut self)
        ensures
            final(self)@ == empty_board(),
    {
        let mut row: usize = 0;
        while row < NUM_ROWS
            invariant
                row <= NUM_ROWS,
                forall|r: int| 0 <= r < row ==> #[trigger] self@[r] == empty_row(),
            decreases NUM_ROWS - row,
        {
            self.clear_row(row as i32);
            row += 1;
        }
        assert(self@ =~= empty_board());
    }

    /// The board as text, one line for each row, every cell value followed
    /// by a space.
    pub fn print(&self) -> (text: String)
        requires
            self.wf(),
        ensures
            text@ == board_text(self@),
    {
        let mut text = String::new();
        let mut row: usize = 0;
        while row < NUM_ROWS
            invariant
                row <= NUM_ROWS,
                self.wf(),
                text@ == board_text(self@.take(row as int)),
            decreases NUM_ROWS - row,
        {
            let ghost above = text@;
            let mut column: usize = 0;
            while column < NUM_COLS
                invariant
                    row < NUM_ROWS,
                    column <= NUM_COLS,
                    self.wf(),
                    text@ == above + cells_text(self@[row as int].take(column as int)),
                decreases NUM_COLS - column,
            {
                let value = self.grid[row][column];
                proof {
                    reveal_strlit("0 ");
                    reveal_strlit("1 ");
                    reveal_strlit("2 ");
                    reveal_strlit("3 ");
                    reveal_strlit("4 ");
                    reveal_strlit("5 ");
                    reveal_strlit("6 ");
                    reveal_strlit("7 ");
                    let cells = self@[row as int];
                    assert(cells[column as int] == value);
                    assert(cells.take(column + 1).drop_last() =~= cells.take(column as int));
                }
                let cell = match value {
                    0 => "0 ",
                    1 => "1 ",
                    2 => "2 ",
                    3 => "3 ",
                    4 => "4 ",
                    5 => "5 ",
                    6 => "6 ",
                    _ => "7 ",
                };
                assert(cell@ =~= seq![cell_char(value as int), ' ']);
                text.append(cell);
                assert(text@ =~= above + cells_text(self@[row as int].take(column + 1)));
                column += 1;
            }
            proof {
                reveal_strlit("\n");
                assert(self@[row as int].take(NUM_COLS as int) =~= self@[row as int]);
                assert(self@.take(row + 1).drop_last() =~= self@.take(row as int));
                assert(self@.take(row + 1).last() == self@[row as int]);
            }
            text.append("\n");
            row += 1;
        }
        assert(self@.take(NUM_ROWS as int) =~= self@);
        text
    }

    /// One rectangle for each cell, row by row from the top left, in the
    /// colour that the palette gives the cell's value.
    pub fn draw(&self) -> (tiles: Vec<Rect>)
        requires
            self.wf(),
        ensures
            board_drawn_as(self@, tiles@),
    {
        let colors = get_cell_colors();
        let mut tiles: Vec<Rect> = Vec::new();
        let mut row: usize = 0;
        while row < NUM_ROWS
            invariant
                row <= NUM_ROWS,
                self.wf(),
                colors@ == palette(),
                tiles@.len() == row * 10,
                forall|k: int|
                    0 <= k < row * 10 ==> (#[trigger] tiles@[k]).paints(
                        k / 10,
                        k % 10,
                        BOARD_OFFSET as int,
                        BOARD_OFFSET as int,
                        palette()[self@[k / 10][k % 10]],
                    ),
            decreases NUM_ROWS - row,
        {
            let mut column: usize = 0;
            while column < NUM_COLS
                invariant
                    row < NUM_ROWS,
                    column <= NUM_COLS,
                    self.wf(),
                    colors@ == palette(),
                    tiles@.len() == row * 10 + column,
                    forall|k: int|
                        0 <= k < row * 10 + column ==> (#[trigger] tiles@[k]).paints(
                            k / 10,
                            k % 10,
                            BOARD_OFFSET as int,
                            BOARD_OFFSET as int,
                            palette()[self@[k / 10][k % 10]],
                        ),
                decreases NUM_COLS - column,
            {
                let cell_value = self.grid[row][column];
                assert(self@[row as int][column as int] == cell_value);
                let color = colors[cell_value as usize];
                tiles.push(tile(row as i32, column as i32, BOARD_OFFSET, BOARD_OFFSET, color));
                column += 1;
            }
            row += 1;
        }
        tiles
    }

    /// Whether `(row, column)` lies off the board.
    pub fn is_cell_outside(&self, row: i32, column: i32) -> (outside: bool)
        ensures
            outside == is_outside(row as int, column as int),
    {
        if row >= 0 && row < NUM_ROWS as i32 && column >= 0 && column < NUM_COLS as i32 {
            return false;
        }
        true
    }

    /// Whether the cell at `(row, column)` is empty. The cell must be on the
    /// board.
    pub fn is_cell_empty(&self, row: i32, column: i32) -> (empty: bool)
        requires
            !is_outside(row as int, column as int),
        ensures
            empty == (self@[row as int][column as int] == 0),
    {
        if self.grid[row as usize][column as usize] == 0 {
            return true;
        }
        false
    }

    /// Clears every full row and lets the rows above sink into the gaps.
    /// Returns the number of rows cleared.
    pub fn clear_full_rows(&mut self) -> (completed: i32)
        ensures
            completed == full_row_count(old(self)@),
            final(self)@ == settled(old(self)@),
            old(self).wf() ==> final(self).wf(),
    {
        let mut completed: i32 = 0;
        let mut row: i32 = NUM_ROWS as i32 - 1;
        proof {
            reveal_with_fuel(Seq::filter, 1);
            assert(old(self)@.subrange(NUM_ROWS as int, NUM_ROWS as int) =~= Seq::<Seq<int>>::empty());
        }
        while row >= 0
            invariant
                -1 <= row < NUM_ROWS,
                0 <= completed <= NUM_ROWS - 1 - row,
                completed == full_row_count(old(self)@.subrange(row + 1, NUM_ROWS as int)),
                forall|r: int| 0 <= r <= row ==> #[trigger] self@[r] == old(self)@[r],
                forall|r: int| row < r <= row + completed ==> #[trigger] self@[r] == empty_row(),
                self@.subrange(row + 1 + completed, NUM_ROWS as int) == surviving_rows(
                    old(self)@.subrange(row + 1, NUM_ROWS as int),
                ),
                old(self).wf() ==> self.wf(),
            decreases row + 1,
        {
            let ghost before = self@;
            let ghost below = old(self)@.subrange(row + 1, NUM_ROWS as int);
            proof {
                assert(old(self)@.subrange(row as int, NUM_ROWS as int) =~= seq![old(self)@[row as int]]
                    + below);
                lemma_surviving_push_top(old(self)@[row as int], below);
            }
            if self.is_row_full(row) {
                self.clear_row(row);
                completed += 1;
                assert(self@.subrange(row + completed, NUM_ROWS as int) =~= before.subrange(
                    row + completed,
                    NUM_ROWS as int,
                ));
            } else if completed > 0 {
                self.move_row_down(row, completed);
                assert(self@.subrange(row + completed, NUM_ROWS as int) =~= seq![
                    old(self)@[row as int],
                ] + before.subrange(row + 1 + completed, NUM_ROWS as int));
            } else {
                assert(self@.subrange(row as int, NUM_ROWS as int) =~= seq![old(self)@[row as int]]
                    + before.subrange(row + 1, NUM_ROWS as int));
            }
            row -= 1;
        }
        proof {
            assert(old(self)@.subrange(0, NUM_ROWS as int) =~= old(self)@);
            assert(self@ =~= settled(old(self)@));
        }
        completed
    }

    /// Whether no cell of the row is empty.
    pub fn is_row_full(&self, row: i32) -> (full: bool)
        requires
            0 <= row < NUM_ROWS,
        ensures
            full == row_is_full(self@[row as int]),
    {
        let mut column: usize = 0;
        while column < NUM_COLS
            invariant
                0 <= row < NUM_ROWS,
                column <= NUM_COLS,
                forall|c: int| 0 <= c < column ==> self@[row as int][c] != 0,
            decreases NUM_COLS - column,
        {
            if self.grid[row as usize][column] == 0 {
                assert(self@[row as int][column as int] == 0);
                return false;
            }
            column += 1;
        }
        true
    }

    /// Empties the row.
    pub fn clear_row(&mut self, row: i32)
        requires
            0 <= row < NUM_ROWS,
        ensures
            final(self)@ == old(self)@.update(row as int, empty_row()),
            old(self).wf() ==> final(self).wf(),
    {
        let mut column: usize = 0;
        while column < NUM_COLS
            invariant
                0 <= row < NUM_ROWS,
                column <= NUM_COLS,
                forall|r: int, c: int|
                    0 <= r < NUM_ROWS && 0 <= c < NUM_COLS ==> #[trigger] self.grid[r][c] == if r
                        == row && c < column {
                        0
                    } else {
                        old(self).grid[r][c]
                    },
            decreases NUM_COLS - column,
        {
            self.grid[row as usize][column] = 0;
            column += 1;
        }
        assert(self@ =~~= old(self)@.update(row as int, empty_row()));
    }

    /// Copies the row into the one `num_rows` below it, and empties the row.
    pub fn move_row_down(&mut self, row: i32, num_rows: i32)
        requires
            0 <= row,
            0 <= num_rows,
            row + num_rows < NUM_ROWS,
        ensures
            final(self)@ == old(self)@.update(row + num_rows, old(self)@[row as int]).update(
                row as int,
                empty_row(),
            ),
            old(self).wf() ==> final(self).wf(),
    {
        let mut column: usize = 0;
        while column < NUM_COLS
            invariant
                0 <= row,
                0 <= num_rows,
                row + num_rows < NUM_ROWS,
                column <= NUM_COLS,
                forall|r: int, c: int|
                    0 <= r < NUM_ROWS && 0 <= c < NUM_COLS ==> #[trigger] self.grid[r][c] == if r
                        == row && c < column {
                        0
                    } else if r == row + num_rows && c < column {
                        old(self).grid[row as int][c]
                    } else {
                        old(self).grid[r][c]
                    },
            decreases NUM_COLS - column,
        {
            self.grid[(row + num_rows) as usize][column] = self.grid[row as usize][column];
            self.grid[row as usize][column] = 0;
            column += 1;
        }
        assert(self@ =~~= old(self)@.update(row + num_rows, old(self)@[row as int]).update(
            row as int,
            empty_row(),
        ));
    }
}

} // verus!
