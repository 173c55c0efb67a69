use tetris::canvas::Rect;
use tetris::colors::{dark_grey, get_cell_colors, orange};
use tetris::grid::{Grid, NUM_COLS, NUM_ROWS};

fn empty_rows() -> [[i32; 10]; 20] {
    [[0; 10]; 20]
}

#[test]
fn board_has_twenty_rows_of_ten_cells() {
    assert_eq!(NUM_ROWS, 20);
    assert_eq!(NUM_COLS, 10);
}

#[test]
fn new_grid_is_empty() {
    let grid = Grid::new();
    assert_eq!(grid.grid, empty_rows());
}

#[test]
fn initialize_empties_every_cell() {
    let mut grid = Grid::new();
    grid.grid[0][0] = 3;
    grid.grid[19][9] = 7;
    grid.grid[10] = [1; 10];
    grid.initialize();
    assert_eq!(grid, Grid::new());
}

#[test]
fn cell_outside_is_decided_by_the_bounds() {
    let grid = Grid::new();
    assert!(!grid.is_cell_outside(0, 0));
    assert!(!grid.is_cell_outside(19, 9));
    assert!(!grid.is_cell_outside(0, 9));
    assert!(!grid.is_cell_outside(19, 0));
    assert!(grid.is_cell_outside(-1, 0));
    assert!(grid.is_cell_outside(0, -1));
    assert!(grid.is_cell_outside(20, 0));
    assert!(grid.is_cell_outside(0, 10));
    assert!(grid.is_cell_outside(20, 10));
    assert!(grid.is_cell_outside(i32::MIN, i32::MAX));
}

#[test]
fn cell_is_empty_when_it_holds_zero() {
    let mut grid = Grid::new();
    assert!(grid.is_cell_empty(5, 5));
    grid.grid[5][5] = 2;
    assert!(!grid.is_cell_empty(5, 5));
    assert!(grid.is_cell_empty(5, 4));
    assert!(grid.is_cell_empty(19, 9));
}

#[test]
fn row_is_full_when_no_cell_is_empty() {
    let mut grid = Grid::new();
    assert!(!grid.is_row_full(19));
    grid.grid[19] = [1, 2, 3, 4, 5, 6, 7, 1, 2, 3];
    assert!(grid.is_row_full(19));
    grid.grid[19][9] = 0;
    assert!(!grid.is_row_full(19));
    grid.grid[0] = [7; 10];
    assert!(grid.is_row_full(0));
}

#[test]
fn clear_row_empties_one_row_only() {
    let mut grid = Grid::new();
    grid.grid[3] = [1; 10];
    grid.grid[4] = [2; 10];
    grid.clear_row(3);
    assert_eq!(grid.grid[3], [0; 10]);
    assert_eq!(grid.grid[4], [2; 10]);
}

#[test]
fn move_row_down_copies_and_empties() {
    let mut grid = Grid::new();
    grid.grid[5] = [0, 1, 0, 2, 0, 3, 0, 4, 0, 5];
    grid.grid[8] = [7; 10];
    grid.move_row_down(5, 3);
    assert_eq!(grid.grid[8], [0, 1, 0, 2, 0, 3, 0, 4, 0, 5]);
    assert_eq!(grid.grid[5], [0; 10]);
    let mut expected = empty_rows();
    expected[8] = [0, 1, 0, 2, 0, 3, 0, 4, 0, 5];
    assert_eq!(grid.grid, expected);
}

#[test]
fn move_row_down_by_zero_empties_the_row() {
    let mut grid = Grid::new();
    grid.grid[5] = [1; 10];
    grid.move_row_down(5, 0);
    assert_eq!(grid.grid, empty_rows());
}

#[test]
fn clearing_an_empty_grid_clears_nothing() {
    let mut grid = Grid::new();
    assert_eq!(grid.clear_full_rows(), 0);
    assert_eq!(grid, Grid::new());
}

#[test]
fn clearing_without_a_full_row_changes_nothing() {
    let mut grid = Grid::new();
    grid.grid[19] = [1, 1, 1, 1, 0, 1, 1, 1, 1, 1];
    grid.grid[18] = [0, 0, 0, 0, 4, 0, 0, 0, 0, 0];
    grid.grid[0] = [0, 2, 2, 2, 2, 2, 2, 2, 2, 2];
    let before = grid;
    assert_eq!(grid.clear_full_rows(), 0);
    assert_eq!(grid, before);
}

#[test]
fn clearing_the_bottom_row_brings_down_the_row_above() {
    let mut grid = Grid::new();
    grid.grid[19] = [3; 10];
    grid.grid[18] = [0, 5, 5, 0, 0, 0, 0, 0, 6, 0];
    grid.grid[17] = [0, 0, 0, 0, 0, 0, 0, 0, 6, 0];
    assert_eq!(grid.clear_full_rows(), 1);
    let mut expected = empty_rows();
    expected[19] = [0, 5, 5, 0, 0, 0, 0, 0, 6, 0];
    expected[18] = [0, 0, 0, 0, 0, 0, 0, 0, 6, 0];
    assert_eq!(grid.grid, expected);
}

#[test]
fn clearing_the_bottom_row_under_an_empty_row_leaves_it_empty() {
    let mut grid = Grid::new();
    grid.grid[19] = [1; 10];
    assert_eq!(grid.clear_full_rows(), 1);
    assert_eq!(grid.grid[19], [0; 10]);
    assert_eq!(grid, Grid::new());
}

#[test]
fn clearing_two_bottom_rows_brings_row_17_to_row_19() {
    let mut grid = Grid::new();
    grid.grid[19] = [1; 10];
    grid.grid[18] = [2; 10];
    grid.grid[17] = [0, 0, 7, 7, 0, 0, 0, 0, 0, 0];
    grid.grid[16] = [0, 0, 0, 7, 7, 0, 0, 0, 0, 0];
    assert_eq!(grid.clear_full_rows(), 2);
    let mut expected = empty_rows();
    expected[19] = [0, 0, 7, 7, 0, 0, 0, 0, 0, 0];
    expected[18] = [0, 0, 0, 7, 7, 0, 0, 0, 0, 0];
    assert_eq!(grid.grid, expected);
    assert_eq!(grid.grid[17], [0; 10]);
}

#[test]
fn clearing_rows_that_are_apart_closes_both_gaps() {
    let mut grid = Grid::new();
    grid.grid[19] = [1; 10];
    grid.grid[18] = [0, 2, 0, 0, 0, 0, 0, 0, 0, 0];
    grid.grid[17] = [3; 10];
    grid.grid[16] = [0, 0, 4, 0, 0, 0, 0, 0, 0, 0];
    grid.grid[15] = [5; 10];
    grid.grid[14] = [0, 0, 0, 6, 0, 0, 0, 0, 0, 0];
    assert_eq!(grid.clear_full_rows(), 3);
    let mut expected = empty_rows();
    expected[19] = [0, 2, 0, 0, 0, 0, 0, 0, 0, 0];
    expected[18] = [0, 0, 4, 0, 0, 0, 0, 0, 0, 0];
    expected[17] = [0, 0, 0, 6, 0, 0, 0, 0, 0, 0];
    assert_eq!(grid.grid, expected);
}

#[test]
fn clearing_is_not_limited_to_four_rows() {
    let mut grid = Grid::new();
    for row in 14..20 {
        grid.grid[row] = [1; 10];
    }
    grid.grid[13] = [0, 0, 0, 0, 0, 0, 0, 0, 0, 2];
    assert_eq!(grid.clear_full_rows(), 6);
    let mut expected = empty_rows();
    expected[19] = [0, 0, 0, 0, 0, 0, 0, 0, 0, 2];
    assert_eq!(grid.grid, expected);
}

#[test]
fn clearing_a_grid_of_full_rows_empties_it() {
    let mut grid = Grid { grid: [[7; 10]; 20] };
    assert_eq!(grid.clear_full_rows(), 20);
    assert_eq!(grid, Grid::new());
}

#[test]
fn clearing_the_top_row_moves_nothing() {
    let mut grid = Grid::new();
    grid.grid[0] = [1; 10];
    grid.grid[1] = [0, 1, 0, 0, 0, 0, 0, 0, 0, 0];
    assert_eq!(grid.clear_full_rows(), 1);
    let mut expected = empty_rows();
    expected[1] = [0, 1, 0, 0, 0, 0, 0, 0, 0, 0];
    assert_eq!(grid.grid, expected);
}

#[test]
fn grid_draw_gives_one_rectangle_per_cell_in_row_order() {
    let mut grid = Grid::new();
    grid.grid[0][1] = 3;
    grid.grid[19][9] = 3;
    let tiles = grid.draw();
    assert_eq!(tiles.len(), 200);
    assert_eq!(tiles[0], Rect { x: 11, y: 11, width: 29, height: 29, color: dark_grey() });
    assert_eq!(tiles[1], Rect { x: 41, y: 11, width: 29, height: 29, color: orange() });
    assert_eq!(tiles[10], Rect { x: 11, y: 41, width: 29, height: 29, color: dark_grey() });
    assert_eq!(tiles[199], Rect { x: 281, y: 581, width: 29, height: 29, color: orange() });
    for row in 0..20 {
        for column in 0..10 {
            let rect = tiles[row * 10 + column];
            assert_eq!(rect.x, column as i32 * 30 + 11);
            assert_eq!(rect.y, row as i32 * 30 + 11);
            assert_eq!(rect.color, get_cell_colors()[grid.grid[row][column] as usize]);
        }
    }
}

#[test]
fn print_gives_one_line_per_row() {
    let grid = Grid::new();
    let text = grid.print();
    assert_eq!(text, "0 0 0 0 0 0 0 0 0 0 \n".repeat(20));
}

#[test]
fn print_shows_each_cell_value_as_a_digit() {
    let mut grid = Grid::new();
    grid.grid[0] = [0, 1, 2, 3, 4, 5, 6, 7, 0, 1];
    grid.grid[19][9] = 7;
    let text = grid.print();
    let lines: Vec<&str> = text.split('\n').collect();
    assert_eq!(lines.len(), 21);
    assert_eq!(lines[0], "0 1 2 3 4 5 6 7 0 1 ");
    assert_eq!(lines[1], "0 0 0 0 0 0 0 0 0 0 ");
    assert_eq!(lines[19], "0 0 0 0 0 0 0 0 0 7 ");
    assert_eq!(lines[20], "");
}
