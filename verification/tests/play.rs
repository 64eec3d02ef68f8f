use sudoku_game::{Cell, Game, Input};

fn board() -> [u8; 81] {
    [
        5, 3, 4, 6, 7, 8, 9, 1, 2, //
        6, 7, 2, 1, 9, 5, 3, 4, 8, //
        1, 9, 8, 3, 4, 2, 5, 6, 7, //
        8, 5, 9, 7, 6, 1, 4, 2, 3, //
        4, 2, 6, 8, 5, 3, 7, 9, 1, //
        7, 1, 3, 9, 2, 4, 8, 5, 6, //
        9, 6, 1, 5, 3, 7, 2, 8, 4, //
        2, 8, 7, 4, 1, 9, 6, 3, 5, //
        3, 4, 5, 2, 8, 6, 1, 7, 9, //
    ]
}

fn at(x: usize, y: usize) -> Cell {
    Cell { x, y }
}

fn cover(cells: &[Cell]) -> [bool; 81] {
    let mut flags: [bool; 81] = [false; 81];
    for cell in cells {
        flags[cell.y * 9 + cell.x] = true;
    }
    flags
}

/// A game on the sample board with (0,0), (4,0), (2,1) and (8,8) hidden.
fn small_game() -> Game {
    Game::with_puzzle(&board(), &cover(&[at(0, 0), at(4, 0), at(2, 1), at(8, 8)]))
}

#[test]
fn new_puzzle_starts_blank() {
    let game: Game = small_game();
    assert_eq!(game.current_selection(), None);
    assert!(game.invalid_marks().is_empty());
    assert_eq!(game.cell_display_value(at(0, 0)), None);
    assert_eq!(game.cell_display_value(at(4, 0)), None);
    assert_eq!(game.cell_display_value(at(2, 1)), None);
    assert_eq!(game.cell_display_value(at(8, 8)), None);
    assert!(!game.is_win());
}

#[test]
fn givens_show_the_solution() {
    let game: Game = small_game();
    assert_eq!(game.cell_display_value(at(1, 0)), Some(3));
    assert_eq!(game.cell_display_value(at(8, 0)), Some(2));
    assert_eq!(game.cell_display_value(at(0, 1)), Some(6));
    assert_eq!(game.cell_display_value(at(0, 8)), Some(3));
    assert_eq!(game.cell_display_value(at(7, 8)), Some(7));
}

#[test]
fn givens_and_hidden_cells_split_the_board() {
    let hidden: [bool; 81] = cover(&[at(0, 0), at(4, 0), at(2, 1), at(8, 8)]);
    let game: Game = Game::with_puzzle(&board(), &hidden);
    let mut givens: usize = 0;
    let mut i: usize = 0;
    while i < 81 {
        let cell: Cell = Cell::from_pos(i);
        assert_eq!(game.is_given(cell), !hidden[i]);
        if game.is_given(cell) {
            givens += 1;
        }
        i += 1;
    }
    assert_eq!(givens, 77);
}

#[test]
fn select_sets_the_one_selection() {
    let mut game: Game = small_game();
    game.select(at(3, 3));
    assert_eq!(game.current_selection(), Some(at(3, 3)));
    game.select(at(0, 0));
    assert_eq!(game.current_selection(), Some(at(0, 0)));
    game.clear_selection();
    assert_eq!(game.current_selection(), None);
}

#[test]
fn enter_digit_writes_into_the_selected_hidden_cell() {
    let mut game: Game = small_game();
    game.select(at(4, 0));
    game.enter_digit(9);
    assert_eq!(game.cell_display_value(at(4, 0)), Some(9));
    game.enter_digit(1);
    assert_eq!(game.cell_display_value(at(4, 0)), Some(1));
    assert_eq!(game.cell_display_value(at(0, 0)), None);
}

#[test]
fn enter_digit_without_selection_does_nothing() {
    let mut game: Game = small_game();
    game.enter_digit(5);
    let mut i: usize = 0;
    while i < 81 {
        let cell: Cell = Cell::from_pos(i);
        if !game.is_given(cell) {
            assert_eq!(game.cell_display_value(cell), None);
        }
        i += 1;
    }
}

#[test]
fn enter_digit_into_a_given_does_nothing() {
    let mut game: Game = small_game();
    game.select(at(1, 0));
    game.enter_digit(9);
    assert_eq!(game.cell_display_value(at(1, 0)), Some(3));
    game.validate();
    assert!(game.invalid_marks().is_empty());
    game.clear_digit();
    assert_eq!(game.cell_display_value(at(1, 0)), Some(3));
}

#[test]
fn enter_digit_out_of_range_does_nothing() {
    let mut game: Game = small_game();
    game.select(at(0, 0));
    game.enter_digit(0);
    assert_eq!(game.cell_display_value(at(0, 0)), None);
    game.enter_digit(10);
    assert_eq!(game.cell_display_value(at(0, 0)), None);
    game.enter_digit(255);
    assert_eq!(game.cell_display_value(at(0, 0)), None);
    game.enter_digit(7);
    game.enter_digit(0);
    assert_eq!(game.cell_display_value(at(0, 0)), Some(7));
}

#[test]
fn clear_digit_erases_the_selected_answer() {
    let mut game: Game = small_game();
    game.select(at(2, 1));
    game.enter_digit(2);
    game.select(at(0, 0));
    game.enter_digit(5);
    game.clear_digit();
    assert_eq!(game.cell_display_value(at(0, 0)), None);
    assert_eq!(game.cell_display_value(at(2, 1)), Some(2));
    game.clear_digit();
    assert_eq!(game.cell_display_value(at(0, 0)), None);
}

#[test]
fn clear_digit_without_selection_does_nothing() {
    let mut game: Game = small_game();
    game.select(at(0, 0));
    game.enter_digit(5);
    game.clear_selection();
    game.clear_digit();
    assert_eq!(game.cell_display_value(at(0, 0)), Some(5));
}

#[test]
fn fill_num_enters_and_erases() {
    let mut game: Game = small_game();
    game.select(at(8, 8));
    game.fill_num(Some(Input::Digit(9)));
    assert_eq!(game.cell_display_value(at(8, 8)), Some(9));
    game.fill_num(None);
    assert_eq!(game.cell_display_value(at(8, 8)), Some(9));
    game.fill_num(Some(Input::Digit(12)));
    assert_eq!(game.cell_display_value(at(8, 8)), Some(9));
    game.fill_num(Some(Input::Clear));
    assert_eq!(game.cell_display_value(at(8, 8)), None);
}

#[test]
fn validate_follows_the_first_cell_through_a_right_and_a_wrong_answer() {
    let mut game: Game = small_game();
    game.select(at(0, 0));
    game.enter_digit(5);
    assert_eq!(game.cell_display_value(at(0, 0)), Some(5));
    game.validate();
    assert!(!game.invalid_marks().contains(&at(0, 0)));
    game.enter_digit(3);
    assert_eq!(game.cell_display_value(at(0, 0)), Some(3));
    game.validate();
    assert!(game.invalid_marks().contains(&at(0, 0)));
}

#[test]
fn validate_marks_wrong_answers_only() {
    let mut game: Game = small_game();
    game.select(at(8, 8));
    game.enter_digit(1);
    game.select(at(4, 0));
    game.enter_digit(7);
    game.select(at(0, 0));
    game.enter_digit(6);
    game.validate();
    assert_eq!(game.invalid_marks().clone(), vec![at(0, 0), at(8, 8)]);
}

#[test]
fn validate_never_marks_unanswered_cells() {
    let mut game: Game = small_game();
    game.validate();
    assert!(game.invalid_marks().is_empty());
}

#[test]
fn validate_replaces_the_marks() {
    let mut game: Game = small_game();
    game.select(at(0, 0));
    game.enter_digit(1);
    game.validate();
    assert_eq!(game.invalid_marks().clone(), vec![at(0, 0)]);
    game.hint();
    game.validate();
    assert!(game.invalid_marks().is_empty());
}

#[test]
fn select_drops_the_marks() {
    let mut game: Game = small_game();
    game.select(at(0, 0));
    game.enter_digit(1);
    game.validate();
    assert_eq!(game.invalid_marks().len(), 1);
    game.select(at(5, 5));
    assert!(game.invalid_marks().is_empty());
    assert_eq!(game.cell_display_value(at(0, 0)), Some(1));
}

#[test]
fn input_drops_the_marks() {
    let mut game: Game = small_game();
    game.select(at(0, 0));
    game.enter_digit(1);
    game.validate();
    assert_eq!(game.invalid_marks().len(), 1);
    game.enter_digit(2);
    assert!(game.invalid_marks().is_empty());
    game.validate();
    assert_eq!(game.invalid_marks().len(), 1);
    game.clear_digit();
    assert!(game.invalid_marks().is_empty());
}

#[test]
fn ignored_input_keeps_the_marks() {
    let mut game: Game = small_game();
    game.select(at(0, 0));
    game.enter_digit(1);
    game.validate();
    game.enter_digit(0);
    assert_eq!(game.invalid_marks().len(), 1);
    game.clear_selection();
    assert_eq!(game.invalid_marks().len(), 1);
    game.enter_digit(4);
    game.clear_digit();
    assert_eq!(game.invalid_marks().len(), 1);
}

#[test]
fn hint_fills_the_selected_hidden_cell() {
    let mut game: Game = small_game();
    game.select(at(2, 1));
    assert_eq!(game.hint_target(), Some(at(2, 1)));
    game.hint();
    assert_eq!(game.cell_display_value(at(2, 1)), Some(2));
    assert_eq!(game.cell_display_value(at(0, 0)), None);
}

#[test]
fn hint_overwrites_a_wrong_answer_in_the_selected_cell() {
    let mut game: Game = small_game();
    game.select(at(8, 8));
    game.enter_digit(1);
    game.hint();
    assert_eq!(game.cell_display_value(at(8, 8)), Some(9));
}

#[test]
fn hint_without_selection_fills_the_first_unanswered_cell() {
    let mut game: Game = small_game();
    assert_eq!(game.hint_target(), Some(at(0, 0)));
    game.hint();
    assert_eq!(game.cell_display_value(at(0, 0)), Some(5));
    assert_eq!(game.hint_target(), Some(at(4, 0)));
    game.hint();
    assert_eq!(game.cell_display_value(at(4, 0)), Some(7));
    assert_eq!(game.hint_target(), Some(at(2, 1)));
    game.hint();
    assert_eq!(game.cell_display_value(at(2, 1)), Some(2));
    assert_eq!(game.hint_target(), Some(at(8, 8)));
    game.hint();
    assert_eq!(game.cell_display_value(at(8, 8)), Some(9));
    assert_eq!(game.hint_target(), None);
    assert!(game.is_win());
}

#[test]
fn hint_skips_answered_cells_even_wrong_ones() {
    let mut game: Game = small_game();
    game.select(at(0, 0));
    game.enter_digit(1);
    game.clear_selection();
    game.hint();
    assert_eq!(game.cell_display_value(at(0, 0)), Some(1));
    assert_eq!(game.cell_display_value(at(4, 0)), Some(7));
}

#[test]
fn hint_with_a_given_selected_falls_back_to_the_scan() {
    let mut game: Game = small_game();
    game.select(at(1, 0));
    assert_eq!(game.hint_target(), Some(at(0, 0)));
    game.hint();
    assert_eq!(game.cell_display_value(at(1, 0)), Some(3));
    assert_eq!(game.cell_display_value(at(0, 0)), Some(5));
    game.validate();
    assert!(game.invalid_marks().is_empty());
}

#[test]
fn hint_on_a_fully_answered_puzzle_does_nothing() {
    let mut game: Game = small_game();
    for cell in [at(0, 0), at(4, 0), at(2, 1), at(8, 8)] {
        game.select(cell);
        game.enter_digit(1);
    }
    game.clear_selection();
    assert_eq!(game.hint_target(), None);
    game.hint();
    assert_eq!(game.cell_display_value(at(0, 0)), Some(1));
    assert_eq!(game.cell_display_value(at(4, 0)), Some(1));
    assert_eq!(game.cell_display_value(at(2, 1)), Some(1));
    assert_eq!(game.cell_display_value(at(8, 8)), Some(1));
}

#[test]
fn hint_keeps_the_marks() {
    let mut game: Game = small_game();
    game.select(at(0, 0));
    game.enter_digit(1);
    game.validate();
    game.hint();
    assert_eq!(game.invalid_marks().clone(), vec![at(0, 0)]);
    assert_eq!(game.cell_display_value(at(0, 0)), Some(5));
}

#[test]
fn win_needs_every_hidden_cell_right() {
    let mut game: Game = small_game();
    game.select(at(0, 0));
    game.enter_digit(5);
    game.select(at(4, 0));
    game.enter_digit(7);
    game.select(at(2, 1));
    game.enter_digit(2);
    assert!(!game.is_win());
    game.select(at(8, 8));
    game.enter_digit(8);
    assert!(!game.is_win());
    game.enter_digit(9);
    assert!(game.is_win());
}

#[test]
fn erasing_one_right_answer_loses_the_win() {
    let mut game: Game = small_game();
    for _ in 0..4 {
        game.hint();
    }
    assert!(game.is_win());
    game.select(at(2, 1));
    game.clear_digit();
    assert!(!game.is_win());
    game.enter_digit(2);
    assert!(game.is_win());
}

#[test]
fn puzzle_without_hidden_cells_is_won() {
    let mut game: Game = Game::with_puzzle(&board(), &[false; 81]);
    assert!(game.is_win());
    assert_eq!(game.hint_target(), None);
    game.select(at(4, 4));
    game.hint();
    game.enter_digit(1);
    assert_eq!(game.cell_display_value(at(4, 4)), Some(5));
    assert!(game.is_win());
}

#[test]
fn puzzle_with_every_cell_hidden_is_won_after_81_hints() {
    let mut game: Game = Game::with_puzzle(&board(), &[true; 81]);
    let solution: [u8; 81] = board();
    let mut i: usize = 0;
    while i < 81 {
        assert!(!game.is_win());
        assert_eq!(game.hint_target(), Some(Cell::from_pos(i)));
        game.hint();
        assert_eq!(game.cell_display_value(Cell::from_pos(i)), Some(solution[i]));
        i += 1;
    }
    assert!(game.is_win());
    game.validate();
    assert!(game.invalid_marks().is_empty());
}

#[test]
fn coord_by_num_lists_the_cells_of_a_digit_in_row_major_order() {
    let game: Game = small_game();
    assert_eq!(
        game.coord_by_num(4),
        vec![
            at(0, 0),
            at(5, 1),
            at(6, 2),
            at(1, 3),
            at(4, 4),
            at(7, 5),
            at(3, 6),
            at(8, 7),
            at(2, 8),
        ]
    );
    assert_eq!(game.coord_by_num(0).len(), 9);
    assert_eq!(game.coord_by_num(8)[0], at(6, 0));
}

#[test]
fn need_mark_of_a_given_lists_the_cells_with_its_digit() {
    let game: Game = small_game();
    assert_eq!(
        game.need_mark(at(5, 1)),
        vec![
            at(0, 0),
            at(5, 1),
            at(6, 2),
            at(1, 3),
            at(4, 4),
            at(7, 5),
            at(3, 6),
            at(8, 7),
            at(2, 8),
        ]
    );
}

#[test]
fn need_mark_of_an_unanswered_cell_is_the_cell() {
    let game: Game = small_game();
    assert_eq!(game.need_mark(at(0, 0)), vec![at(0, 0)]);
}

#[test]
fn need_mark_of_an_answered_cell_goes_by_the_answer() {
    let mut game: Game = small_game();
    game.select(at(0, 0));
    game.enter_digit(9);
    let marks: Vec<Cell> = game.need_mark(at(0, 0));
    assert_eq!(marks.len(), 9);
    assert_eq!(marks[0], at(6, 0));
    assert_eq!(marks[8], at(8, 8));
}

#[test]
fn answers_stay_in_hidden_cells_through_a_long_game() {
    let hidden: [bool; 81] = cover(&[at(0, 0), at(4, 0), at(2, 1), at(8, 8)]);
    let mut game: Game = Game::with_puzzle(&board(), &hidden);
    let solution: [u8; 81] = board();
    let mut i: usize = 0;
    while i < 81 {
        let cell: Cell = Cell::from_pos(i);
        game.select(cell);
        game.enter_digit(((i % 9) + 1) as u8);
        game.validate();
        if i % 4 == 0 {
            game.hint();
        }
        if i % 7 == 0 {
            game.clear_digit();
        }
        let mut k: usize = 0;
        while k < 81 {
            if !hidden[k] {
                assert_eq!(game.cell_display_value(Cell::from_pos(k)), Some(solution[k]));
                assert!(!game.invalid_marks().contains(&Cell::from_pos(k)));
            }
            k += 1;
        }
        i += 1;
    }
}
