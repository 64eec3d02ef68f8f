//! The mathematical model of a game in play, and what each move does to it.

use vstd::prelude::*;
use crate::cell::Cell;
use crate::cell::grid_cells;
use crate::cell::row_major;

verus! {

/// What a key or an on-screen button asks for, once the host has decoded it.
#[derive(Clone, Copy, Debug, PartialEq, Eq, Structural)]
pub enum Input {
    /// Write this digit into the selected cell.
    Digit(u8),
    /// Erase the selected cell.
    Clear,
}

/// One move of the player or the host.
pub enum Step {
    Select(Cell),
    ClearSelection,
    FillNum(Option<Input>),
    Validate,
    Hint,
}

impl Step {
    /// Whether the move is one that the game accepts: a selection must name a
    /// cell of the board.
    pub open spec fn accepted(self) -> bool {
        self matches Step::Select(c) ==> c.in_grid()
    }
}

/// A game as the contracts see it.
pub struct GameView {
    /// The solved board: nine rows of nine zero-based digits, `solution[y][x]`.
    pub solution: Seq<Seq<u8>>,
    /// The cells hidden from the player at the start, the only ones they may fill.
    pub empties: Set<Cell>,
    /// The digits from 1 to 9 that the player has entered.
    pub answers: Map<Cell, u8>,
    /// The cell that digit and erase input applies to, if any.
    pub selection: Option<Cell>,
    /// The cells that the last validation found wrong, in row-major order.
    pub invalid: Seq<Cell>,
}

impl GameView {
    /// The game's invariant: a 9 by 9 board of digits below 9, hidden cells on
    /// the board, answers from 1 to 9 in hidden cells only, the selection on
    /// the board, and the marks in row-major order on answered cells only.
    pub open spec fn wf(self) -> bool {
        &&& self.solution.len() == 9
        &&& forall|y: int| 0 <= y < 9 ==> (#[trigger] self.solution[y]).len() == 9
        &&& forall|y: int, x: int| 0 <= y < 9 && 0 <= x < 9 ==> #[trigger] self.solution[y][x] <= 8
        &&& forall|c: Cell| #[trigger] self.empties.contains(c) ==> c.in_grid()
        &&& forall|c: Cell| #[trigger]
            self.answers.dom().contains(c) ==> self.empties.contains(c) && 1 <= self.answers[c]
                <= 9
        &&& self.selection matches Some(c) ==> c.in_grid()
        &&& forall|i: int|
            0 <= i < self.invalid.len() ==> self.answers.dom().contains(#[trigger] self.invalid[i])
        &&& row_major(self.invalid)
    }

    /// A game before the first move: the board and its hidden cells, nothing
    /// answered, selected or marked.
    pub open spec fn start(solution: Seq<Seq<u8>>, empties: Set<Cell>) -> GameView {
        GameView {
            solution,
            empties,
            answers: Map::empty(),
            selection: None,
            invalid: Seq::empty(),
        }
    }

    /// Whether nothing is answered, selected or marked.
    pub open spec fn fresh(self) -> bool {
        self == GameView::start(self.solution, self.empties)
    }

    /// The digit from 1 to 9 that solves a cell.
    pub open spec fn digit(self, c: Cell) -> u8 {
        (self.solution[c.y as int][c.x as int] + 1) as u8
    }

    /// A given is a cell of the board that is not hidden.
    pub open spec fn is_given(self, c: Cell) -> bool {
        c.in_grid() && !self.empties.contains(c)
    }

    /// All givens.
    pub open spec fn givens(self) -> Set<Cell> {
        Set::new(|c: Cell| self.is_given(c))
    }

    /// What the player sees in a cell: the solving digit of a given, their own
    /// answer in a hidden cell, or nothing.
    pub open spec fn shown(self, c: Cell) -> Option<u8> {
        if !self.empties.contains(c) {
            Some(self.digit(c))
        } else if self.answers.dom().contains(c) {
            Some(self.answers[c])
        } else {
            None
        }
    }

    /// Whether a cell is hidden and still unanswered.
    pub open spec fn unanswered(self, c: Cell) -> bool {
        self.empties.contains(c) && !self.answers.dom().contains(c)
    }

    /// Whether a cell holds the player's answer and the answer solves it.
    pub open spec fn correct(self, c: Cell) -> bool {
        self.answers.dom().contains(c) && self.answers[c] == self.digit(c)
    }

    /// Whether a cell holds the player's answer and the answer does not solve it.
    pub open spec fn wrong(self, c: Cell) -> bool {
        self.answers.dom().contains(c) && self.answers[c] != self.digit(c)
    }

    /// The test for a wrong answer, as a predicate over cells.
    pub open spec fn is_wrong(self) -> spec_fn(Cell) -> bool {
        |c: Cell| self.wrong(c)
    }

    /// The test for a cell that the digit `d` solves.
    pub open spec fn solved_by(self, d: int) -> spec_fn(Cell) -> bool {
        |c: Cell| self.digit(c) == d
    }

    /// The game is won when every hidden cell holds the digit that solves it.
    pub open spec fn won(self) -> bool {
        forall|c: Cell| #[trigger] self.empties.contains(c) ==> self.correct(c)
    }

    /// The selected cell, if it is one the player may fill.
    pub open spec fn editable(self) -> Option<Cell> {
        match self.selection {
            Some(c) => if self.empties.contains(c) {
                Some(c)
            } else {
                None
            },
            None => None,
        }
    }

    /// Whether `c` is the unanswered hidden cell that comes first in row-major order.
    pub open spec fn first_unanswered(self, c: Cell) -> bool {
        &&& self.unanswered(c)
        &&& forall|k: Cell| #[trigger] self.unanswered(k) ==> c.index() <= k.index()
    }

    /// The cell that a hint fills: the selected cell if the player may fill it,
    /// else the first unanswered hidden cell, if there is one.
    pub open spec fn hint_target(self) -> Option<Cell> {
        if self.editable() is Some {
            self.editable()
        } else if exists|c: Cell| self.first_unanswered(c) {
            Some(choose|c: Cell| self.first_unanswered(c))
        } else {
            None
        }
    }

    /// The cells to light up when `c` is pressed: `c` alone while it is hidden
    /// and unanswered, else every cell whose solving digit is the digit shown in `c`.
    pub open spec fn need_mark(self, c: Cell) -> Seq<Cell> {
        match self.shown(c) {
            Some(d) => grid_cells().filter(self.solved_by(d as int)),
            None => seq![c],
        }
    }

    /// Selecting a cell makes it the one selection and drops the marks.
    pub open spec fn select(self, c: Cell) -> GameView {
        GameView { selection: Some(c), invalid: Seq::empty(), ..self }
    }

    /// Dropping the selection changes nothing else.
    pub open spec fn clear_selection(self) -> GameView {
        GameView { selection: None, ..self }
    }

    /// Entering a digit from 1 to 9 writes it into the selected cell if the
    /// player may fill that cell, and drops the marks; otherwise nothing changes.
    pub open spec fn enter_digit(self, digit: u8) -> GameView {
        match self.editable() {
            Some(c) => if 1 <= digit <= 9 {
                GameView { answers: self.answers.insert(c, digit), invalid: Seq::empty(), ..self }
            } else {
                self
            },
            None => self,
        }
    }

    /// Erasing removes the answer of the selected cell if the player may fill
    /// that cell, and drops the marks; otherwise nothing changes.
    pub open spec fn clear_digit(self) -> GameView {
        match self.editable() {
            Some(c) => GameView { answers: self.answers.remove(c), invalid: Seq::empty(), ..self },
            None => self,
        }
    }

    /// Decoded input enters a digit or erases; no input changes nothing.
    pub open spec fn fill_num(self, code: Option<Input>) -> GameView {
        match code {
            Some(Input::Digit(d)) => self.enter_digit(d),
            Some(Input::Clear) => self.clear_digit(),
            None => self,
        }
    }

    /// A validation marks the cells with a wrong answer, in row-major order, in
    /// place of the marks there were.
    pub open spec fn validate(self) -> GameView {
        GameView { invalid: grid_cells().filter(self.is_wrong()), ..self }
    }

    /// A hint writes the solving digit into its target; without a target
    /// nothing changes.
    pub open spec fn hint(self) -> GameView {
        match self.hint_target() {
            Some(c) => GameView { answers: self.answers.insert(c, self.digit(c)), ..self },
            None => self,
        }
    }

    /// The game after `n` hints in a row.
    pub open spec fn hints(self, n: nat) -> GameView
        decreases n,
    {
        if n == 0 {
            self
        } else {
            self.hint().hints((n - 1) as nat)
        }
    }

    /// The game after one move.
    pub open spec fn step(self, s: Step) -> GameView {
        match s {
            Step::Select(c) => self.select(c),
            Step::ClearSelection => self.clear_selection(),
            Step::FillNum(code) => self.fill_num(code),
            Step::Validate => self.validate(),
            Step::Hint => self.hint(),
        }
    }

    /// The game after a sequence of moves, first to last.
    pub open spec fn run(self, steps: Seq<Step>) -> GameView
        decreases steps.len(),
    {
        if steps.len() == 0 {
            self
        } else {
            self.run(steps.drop_last()).step(steps.last())
        }
    }
}

/// On a well-formed game at most one cell is the first unanswered one.
pub proof fn lemma_first_unanswered_unique(v: GameView, a: Cell, b: Cell)
    requires
        v.wf(),
        v.first_unanswered(a),
        v.first_unanswered(b),
    ensures
        a == b,
{
    assert(v.empties.contains(a) && v.empties.contains(b));
    assert(a.index() == b.index());
}

} // verus!
