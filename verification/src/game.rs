//! The game in play: the solved board, the hidden cells, the player's answers,
//! the selection and the marks of the last validation.

use vstd::prelude::*;
use crate::board::create_matrix;
use crate::board::generate_solved;
use crate::board::is_filled;
use crate::board::is_solved;
use crate::board::rows_of;
use crate::cell::Cell;
use crate::cell::grid_cells;
use crate::cell::lemma_filter_take_step;
use crate::cell::lemma_filtered_cells_are_ordered;
use crate::cell::lemma_index_bijection;
use crate::cell::row_major;
use crate::mask::fill_empties;
use crate::mask::hidden_cells;
use crate::mask::is_puzzle_mask;
use crate::mask::Difficult;
use crate::model::lemma_first_unanswered_unique;
use crate::model::GameView;
use crate::model::Input;

verus! {

/// A game of sudoku.
///
/// The answers live in a table with one entry per cell, 0 where the player has
/// entered nothing; the hidden cells in a table of flags. The board has a
/// fixed 81 cells, and a table, unlike a hash map, can be written in place
/// while the type keeps its invariant.
pub struct Game {
    user_matrix: [u8; 81],
    empties: [bool; 81],
    marked_coord: Option<Cell>,
    matrix: Vec<[u8; 9]>,
    no_valid: Vec<Cell>,
}

/// Whether a game is a puzzle of the tier: its board is a solved sudoku, and
/// its hidden cells are one of the tier's masks of a puzzle cut from that board.
pub open spec fn is_puzzle(v: GameView, dif: Difficult) -> bool {
    exists|solved: Seq<u8>, flags: Seq<bool>|
        {
            &&& is_solved(solved)
            &&& is_puzzle_mask(flags, solved, dif)
            &&& v.solution == rows_of(solved)
            &&& v.empties == hidden_cells(flags)
        }
}

impl View for Game {
    type V = GameView;

    closed spec fn view(&self) -> GameView {
        GameView {
            solution: self.matrix@.map_values(|row: [u8; 9]| row@),
            empties: hidden_cells(self.empties@),
            answers: Map::new(
                |c: Cell| c.in_grid() && self.user_matrix[c.index()] != 0,
                |c: Cell| self.user_matrix[c.index()],
            ),
            selection: self.marked_coord,
            invalid: self.no_valid@,
        }
    }
}

impl Game {
    /// What the tables hold at all times: nine rows of digits below 9, answers
    /// of at most 9 and only where a cell is hidden, the selection on the
    /// board, and the marks in row-major order on answered cells.
    #[verifier::type_invariant]
    spec fn inv(self) -> bool {
        &&& self.matrix.len() == 9
        &&& forall|y: int, x: int| 0 <= y < 9 && 0 <= x < 9 ==> #[trigger] self.matrix[y][x] <= 8
        &&& forall|i: int| 0 <= i < 81 ==> #[trigger] self.user_matrix[i] <= 9
        &&& forall|i: int| 0 <= i < 81 && #[trigger] self.user_matrix[i] != 0 ==> self.empties[i]
        &&& self.marked_coord matches Some(c) ==> c.in_grid()
        &&& forall|i: int|
            0 <= i < self.no_valid.len() ==> (#[trigger] self.no_valid[i]).in_grid()
                && self.user_matrix[self.no_valid[i].index()] != 0
        &&& row_major(self.no_valid@)
    }

    /// A game that keeps its representation in order is well formed.
    proof fn lemma_inv_wf(self)
        requires
            self.inv(),
        ensures
            self@.wf(),
    {
        lemma_index_bijection();
        let v = self@;
        assert forall|y: int| 0 <= y < 9 implies (#[trigger] v.solution[y]).len() == 9 by {
            assert(v.solution[y] == self.matrix[y]@);
        }
        assert forall|y: int, x: int| 0 <= y < 9 && 0 <= x < 9 implies #[trigger] v.solution[y][x]
            <= 8 by {
            assert(v.solution[y][x] == self.matrix[y][x]);
        }
    }

    /// Starts a game on a given board with given hidden cells: nothing is
    /// answered, selected or marked.
    pub fn with_puzzle(solved: &[u8; 81], hidden: &[bool; 81]) -> (game: Game)
        requires
            is_filled(solved@),
        ensures
            game@ == GameView::start(rows_of(solved@), hidden_cells(hidden@)),
            game@.wf(),
    {
        let matrix = create_matrix(solved);
        let user_matrix: [u8; 81] = [0u8; 81];
        let game = Game {
            user_matrix,
            empties: *hidden,
            marked_coord: None,
            matrix,
            no_valid: Vec::new(),
        };
        proof {
            game.lemma_inv_wf();
            assert(game@.answers =~= Map::<Cell, u8>::empty());
            assert(game@.invalid =~= Seq::<Cell>::empty());
        }
        game
    }

    /// Starts a game on a freshly generated board, with the hidden cells that
    /// the tier's mask picks.
    pub fn new(current_difficult: Difficult) -> (game: Game)
        ensures
            game@.wf(),
            game@.fresh(),
            is_puzzle(game@, current_difficult),
    {
        let sudoku: [u8; 81] = generate_solved();
        let empties: [bool; 81] = fill_empties(&sudoku, current_difficult);
        let game = Game::with_puzzle(&sudoku, &empties);
        proof {
            assert(is_solved(sudoku@) && is_puzzle_mask(empties@, sudoku@, current_difficult)
                && game@.solution == rows_of(sudoku@) && game@.empties == hidden_cells(empties@));
        }
        game
    }

    /// Replaces the game by a new one of the given tier. Nothing of the old
    /// game is left: board, hidden cells, answers, selection and marks are new.
    pub fn regenerate(&mut self, current_difficult: Difficult)
        ensures
            final(self)@.wf(),
            final(self)@.fresh(),
            is_puzzle(final(self)@, current_difficult),
    {
        *self = Game::new(current_difficult);
    }
}

impl Game {
    /// The selected cell, if any.
    pub fn current_selection(&self) -> (selection: Option<Cell>)
        ensures
            selection == self@.selection,
    {
        self.marked_coord
    }

    /// The cells that the last validation found wrong, in row-major order.
    pub fn invalid_marks(&self) -> (marks: &Vec<Cell>)
        ensures
            marks@ == self@.invalid,
    {
        &self.no_valid
    }

    /// Whether a cell of the board is a given.
    pub fn is_given(&self, cell: Cell) -> (given: bool)
        requires
            cell.in_grid(),
        ensures
            given == self@.is_given(cell),
    {
        !self.empties[cell.pos()]
    }

    /// The digit from 1 to 9 that the player sees in a cell of the board, if any.
    pub fn cell_display_value(&self, cell: Cell) -> (value: Option<u8>)
        requires
            cell.in_grid(),
        ensures
            value == self@.shown(cell),
    {
        proof {
            use_type_invariant(self);
        }
        let i: usize = cell.pos();
        if !self.empties[i] {
            Some(self.matrix[cell.y][cell.x] + 1)
        } else if self.user_matrix[i] != 0 {
            Some(self.user_matrix[i])
        } else {
            None
        }
    }

    /// Whether every hidden cell holds the digit that solves it.
    pub fn is_win(&self) -> (won: bool)
        ensures
            won == self@.won(),
    {
        proof {
            use_type_invariant(self);
            lemma_index_bijection();
        }
        for i in 0usize..81
            invariant
                self.inv(),
                forall|k: int| 0 <= k < i && self.empties[k] ==> self@.correct(#[trigger] Cell::at(k)),
        {
            if self.empties[i] {
                let key = Cell::from_pos(i);
                let v: u8 = self.user_matrix[i];
                if v == 0 || self.matrix[key.y][key.x] != v - 1 {
                    assert(self@.empties.contains(key) && !self@.correct(key));
                    return false;
                }
            }
        }
        proof {
            assert forall|c: Cell| #[trigger] self@.empties.contains(c) implies self@.correct(c) by {
                assert(Cell::at(c.index()) == c);
            }
        }
        true
    }

    /// The cells that the digit `num + 1` solves, in row-major order: `num` is
    /// the digit in the zero-based form of the board's rows.
    pub fn coord_by_num(&self, num: u8) -> (data: Vec<Cell>)
        ensures
            data@ == grid_cells().filter(self@.solved_by(num + 1)),
    {
        proof {
            use_type_invariant(self);
        }
        let ghost pred = self@.solved_by(num + 1);
        let mut data: Vec<Cell> = Vec::new();
        for i in 0usize..81
            invariant
                self.inv(),
                pred == self@.solved_by(num + 1),
                data@ == grid_cells().take(i as int).filter(pred),
        {
            let key = Cell::from_pos(i);
            if num == self.matrix[key.y][key.x] {
                data.push(key);
            }
            proof {
                lemma_filter_take_step(grid_cells(), pred, i as int);
            }
        }
        proof {
            assert(grid_cells().take(81) =~= grid_cells());
        }
        data
    }

    /// The cells to light up when a cell of the board is pressed.
    pub fn need_mark(&self, cell: Cell) -> (data: Vec<Cell>)
        requires
            cell.in_grid(),
        ensures
            data@ == self@.need_mark(cell),
    {
        proof {
            use_type_invariant(self);
        }
        match self.cell_display_value(cell) {
            Some(d) => self.coord_by_num(d - 1),
            None => {
                let mut data: Vec<Cell> = Vec::new();
                data.push(cell);
                proof {
                    assert(data@ =~= seq![cell]);
                }
                data
            },
        }
    }

    /// Makes `cell` the one selected cell and drops the marks of the last validation.
    pub fn select(&mut self, cell: Cell)
        requires
            cell.in_grid(),
        ensures
            final(self)@ == old(self)@.select(cell),
            final(self)@.wf(),
    {
        proof {
            use_type_invariant(&*self);
        }
        self.marked_coord = Some(cell);
        self.no_valid = Vec::new();
        proof {
            self.lemma_inv_wf();
            assert(self@.answers =~= old(self)@.answers);
            assert(self@.invalid =~= Seq::<Cell>::empty());
        }
    }

    /// Drops the selection.
    pub fn clear_selection(&mut self)
        ensures
            final(self)@ == old(self)@.clear_selection(),
            final(self)@.wf(),
    {
        proof {
            use_type_invariant(&*self);
        }
        self.marked_coord = None;
        proof {
            self.lemma_inv_wf();
            assert(self@.answers =~= old(self)@.answers);
        }
    }

    /// Writes a digit from 1 to 9 into the selected cell, if the player may
    /// fill that cell; any other call changes nothing.
    pub fn enter_digit(&mut self, digit: u8)
        ensures
            final(self)@ == old(self)@.enter_digit(digit),
            final(self)@.wf(),
    {
        proof {
            use_type_invariant(&*self);
            self.lemma_inv_wf();
            lemma_index_bijection();
        }
        if let Some(key) = self.marked_coord {
            let i: usize = key.pos();
            if self.empties[i] && 1 <= digit && digit <= 9 {
                self.no_valid = Vec::new();
                self.user_matrix[i] = digit;
                proof {
                    self.lemma_inv_wf();
                    assert(self@.answers =~= old(self)@.answers.insert(key, digit));
                    assert(self@.invalid =~= Seq::<Cell>::empty());
                }
            }
        }
    }

    /// Erases the answer in the selected cell, if the player may fill that
    /// cell; any other call changes nothing.
    pub fn clear_digit(&mut self)
        ensures
            final(self)@ == old(self)@.clear_digit(),
            final(self)@.wf(),
    {
        proof {
            use_type_invariant(&*self);
            self.lemma_inv_wf();
            lemma_index_bijection();
        }
        if let Some(key) = self.marked_coord {
            let i: usize = key.pos();
            if self.empties[i] {
                self.no_valid = Vec::new();
                self.user_matrix[i] = 0;
                proof {
                    self.lemma_inv_wf();
                    assert(self@.answers =~= old(self)@.answers.remove(key));
                    assert(self@.invalid =~= Seq::<Cell>::empty());
                }
            }
        }
    }

    /// Applies decoded key or button input to the selected cell.
    pub fn fill_num(&mut self, code: Option<Input>)
        ensures
            final(self)@ == old(self)@.fill_num(code),
            final(self)@.wf(),
    {
        match code {
            None => {
                proof {
                    use_type_invariant(&*self);
                    self.lemma_inv_wf();
                }
            },
            Some(Input::Digit(d)) => {
                self.enter_digit(d);
            },
            Some(Input::Clear) => {
                self.clear_digit();
            },
        }
    }

    /// Validates the player's answers: marks the wrong ones, in place of the
    /// marks there were. Cells without an answer are never marked.
    pub fn validate(&mut self)
        ensures
            final(self)@ == old(self)@.validate(),
            final(self)@.wf(),
    {
        proof {
            use_type_invariant(&*self);
            lemma_index_bijection();
        }
        let ghost pred = self@.is_wrong();
        let mut marks: Vec<Cell> = Vec::new();
        for i in 0usize..81
            invariant
                self.inv(),
                *self == *old(self),
                pred == self@.is_wrong(),
                marks@ == grid_cells().take(i as int).filter(pred),
                forall|k: int|
                    0 <= k < marks.len() ==> (#[trigger] marks[k]).in_grid()
                        && self.user_matrix[marks[k].index()] != 0,
        {
            let key = Cell::from_pos(i);
            let v: u8 = self.user_matrix[i];
            if v != 0 && self.matrix[key.y][key.x] != v - 1 {
                marks.push(key);
            }
            proof {
                lemma_filter_take_step(grid_cells(), pred, i as int);
            }
        }
        proof {
            assert(grid_cells().take(81) =~= grid_cells());
            lemma_filtered_cells_are_ordered(pred);
        }
        self.no_valid = marks;
        proof {
            self.lemma_inv_wf();
            assert(self@.answers =~= old(self)@.answers);
        }
    }

    /// The cell that a hint would fill, if any.
    pub fn hint_target(&self) -> (target: Option<Cell>)
        ensures
            target == self@.hint_target(),
    {
        proof {
            use_type_invariant(self);
            self.lemma_inv_wf();
            lemma_index_bijection();
        }
        if let Some(key) = self.marked_coord {
            if self.empties[key.pos()] {
                return Some(key);
            }
        }
        for i in 0usize..81
            invariant
                self.inv(),
                self@.wf(),
                self@.editable() is None,
                forall|k: int| 0 <= k < i ==> !self@.unanswered(#[trigger] Cell::at(k)),
        {
            if self.empties[i] && self.user_matrix[i] == 0 {
                let key = Cell::from_pos(i);
                proof {
                    assert forall|k: Cell| #[trigger] self@.unanswered(k) implies key.index()
                        <= k.index() by {
                        assert(Cell::at(k.index()) == k);
                    }
                    assert(self@.first_unanswered(key));
                    let picked = choose|c: Cell| self@.first_unanswered(c);
                    lemma_first_unanswered_unique(self@, key, picked);
                }
                return Some(key);
            }
        }
        proof {
            assert forall|c: Cell| !self@.first_unanswered(c) by {
                if self@.unanswered(c) {
                    assert(Cell::at(c.index()) == c);
                }
            }
        }
        None
    }

    /// Writes the solving digit into the hint's target: the selected cell if
    /// the player may fill it, else the first unanswered hidden cell. Without
    /// a target nothing changes.
    pub fn hint(&mut self)
        ensures
            final(self)@ == old(self)@.hint(),
            final(self)@.wf(),
    {
        proof {
            use_type_invariant(&*self);
            self.lemma_inv_wf();
            lemma_index_bijection();
        }
        match self.hint_target() {
            Some(key) => {
                let num: u8 = self.matrix[key.y][key.x];
                self.user_matrix[key.pos()] = num + 1;
                proof {
                    self.lemma_inv_wf();
                    assert(self@.answers =~= old(self)@.answers.insert(key, old(self)@.digit(key)));
                }
            },
            None => {},
        }
    }
}

} // verus!
