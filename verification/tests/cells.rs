use sudoku_game::board::create_matrix;
use sudoku_game::Cell;

fn sample_board() -> [u8; 81] {
    [
        5, 3, 4, 6, 7, 8, 9, 1, 2, //
        6, 7, 2, 1, 9, 5, 3, 4, 8, //
        1, 9, 8, 3, 4, 2, 5, 6, 7, //
        8, 5, 9, 7, 6, 1, 4, 2, 3, //
        4, 2, 6, 8, 5, 3, 7, 9, 1, //
        7, 1, 3, 9, 2, 4, 8, 5, 6, //
        9, 6, 1, 5, 3, 7, 2, 8, 4, //
        2, 8, 7, 4, 1, 9, 6, 3, 5, //
        3, 4, 5, 2, 8, 6, 1, 7, 9, //
    ]
}

#[test]
fn cell_pos_is_row_major() {
    assert_eq!(Cell { x: 0, y: 0 }.pos(), 0);
    assert_eq!(Cell { x: 8, y: 0 }.pos(), 8);
    assert_eq!(Cell { x: 0, y: 1 }.pos(), 9);
    assert_eq!(Cell { x: 3, y: 4 }.pos(), 39);
    assert_eq!(Cell { x: 8, y: 8 }.pos(), 80);
}

#[test]
fn cell_from_pos_is_row_major() {
    assert_eq!(Cell::from_pos(0), Cell { x: 0, y: 0 });
    assert_eq!(Cell::from_pos(8), Cell { x: 8, y: 0 });
    assert_eq!(Cell::from_pos(9), Cell { x: 0, y: 1 });
    assert_eq!(Cell::from_pos(39), Cell { x: 3, y: 4 });
    assert_eq!(Cell::from_pos(80), Cell { x: 8, y: 8 });
}

#[test]
fn cell_pos_and_from_pos_undo_each_other() {
    let mut i: usize = 0;
    while i < 81 {
        assert_eq!(Cell::from_pos(i).pos(), i);
        i += 1;
    }
}

#[test]
fn create_matrix_splits_rows_and_shifts_digits() {
    let rows: Vec<[u8; 9]> = create_matrix(&sample_board());
    assert_eq!(rows.len(), 9);
    assert_eq!(rows[0], [4, 2, 3, 5, 6, 7, 8, 0, 1]);
    assert_eq!(rows[1], [5, 6, 1, 0, 8, 4, 2, 3, 7]);
    assert_eq!(rows[8], [2, 3, 4, 1, 7, 5, 0, 6, 8]);
}

#[test]
fn create_matrix_keeps_every_cell() {
    let board: [u8; 81] = sample_board();
    let rows: Vec<[u8; 9]> = create_matrix(&board);
    let mut y: usize = 0;
    while y < 9 {
        let mut x: usize = 0;
        while x < 9 {
            assert_eq!(rows[y][x] + 1, board[y * 9 + x]);
            x += 1;
        }
        y += 1;
    }
}
