//! What holds of every game, proved from the model.

use vstd::prelude::*;
use crate::board::derives;
use crate::board::is_puzzle_of;
use crate::board::is_solved;
use crate::board::only_solution;
use crate::board::rows_of;
use crate::board::same_house;
use crate::cell::board;
use crate::cell::grid_cells;
use crate::cell::lemma_board_has_81_cells;
use crate::cell::lemma_filtered_cells_are_ordered;
use crate::cell::lemma_index_bijection;
use crate::cell::row_major;
use crate::cell::Cell;
use crate::input::coord;
use crate::input::pointed;
use crate::input::within;
use crate::mask::blank_cells;
use crate::mask::hidden_cells;
use crate::game::is_puzzle;
use crate::mask::is_mask_of;
use crate::mask::is_puzzle_mask;
use crate::mask::masks;
use crate::mask::Difficult;
use crate::model::GameView;
use crate::model::Step;

verus! {

/// Givens and hidden cells split the board: no cell is both, and together they
/// are all 81 cells.
pub proof fn lemma_givens_and_empties_partition(v: GameView)
    requires
        v.wf(),
    ensures
        v.empties.disjoint(v.givens()),
        v.empties.union(v.givens()) == board(),
        board().len() == 81,
        v.empties.len() + v.givens().len() == 81,
{
    lemma_board_has_81_cells();
    assert(v.empties.union(v.givens()) =~= board());
    assert(v.empties.subset_of(board()));
    assert(v.givens().subset_of(board()));
    vstd::set_lib::lemma_len_subset(v.empties, board());
    vstd::set_lib::lemma_len_subset(v.givens(), board());
    vstd::set_lib::lemma_set_disjoint_lens(v.empties, v.givens());
}

/// Every move keeps a well-formed game well formed, and never touches the
/// board or its hidden cells.
pub proof fn lemma_step_keeps_wf(v: GameView, s: Step)
    requires
        v.wf(),
        s.accepted(),
    ensures
        v.step(s).wf(),
        v.step(s).solution == v.solution,
        v.step(s).empties == v.empties,
{
    match s {
        Step::Validate => {
            let marks = v.validate().invalid;
            assert forall|i: int| 0 <= i < marks.len() implies v.answers.dom().contains(
                #[trigger] marks[i],
            ) by {
                grid_cells().lemma_filter_pred(v.is_wrong(), i);
            }
            lemma_filtered_cells_are_ordered(v.is_wrong());
        },
        Step::Hint => {
            if v.editable() is None && exists|c: Cell| v.first_unanswered(c) {
                let c = choose|c: Cell| v.first_unanswered(c);
                assert(v.empties.contains(c));
            }
        },
        _ => {},
    }
}

/// Whatever the player and the host do, in whatever order, answers sit in
/// hidden cells only.
pub proof fn lemma_answers_stay_in_empties(v: GameView, steps: Seq<Step>)
    requires
        v.wf(),
        forall|i: int| 0 <= i < steps.len() ==> (#[trigger] steps[i]).accepted(),
    ensures
        v.run(steps).wf(),
        v.run(steps).answers.dom().subset_of(v.run(steps).empties),
        v.run(steps).solution == v.solution,
        v.run(steps).empties == v.empties,
    decreases steps.len(),
{
    if steps.len() > 0 {
        lemma_answers_stay_in_empties(v, steps.drop_last());
        lemma_step_keeps_wf(v.run(steps.drop_last()), steps.last());
    }
}

/// On the hardest tier the mask is the reference's own: it hides exactly the
/// cells that the reference leaves blank, so one reference has one mask.
pub proof fn lemma_hard_mask_is_reference(flags: Seq<bool>, reference: Seq<u8>)
    requires
        is_mask_of(flags, reference, Difficult::Hard),
    ensures
        flags == Seq::new(81, |i: int| reference[i] == 0),
        hidden_cells(flags) == blank_cells(reference),
{
    let (start, dice) = choose|start: int, dice: Seq<int>|
        masks(flags, reference, Difficult::Hard, start, dice);
    assert(masks(flags, reference, Difficult::Hard, start, dice));
    assert(flags =~= Seq::new(81, |i: int| reference[i] == 0));
    assert(hidden_cells(flags) =~= blank_cells(reference));
}

/// In a solved board every row holds every digit from 1 to 9.
proof fn lemma_row_holds_every_digit(solved: Seq<u8>, row: int, digit: int)
    requires
        is_solved(solved),
        0 <= row < 9,
        1 <= digit <= 9,
    ensures
        exists|j: int| row * 9 <= j < row * 9 + 9 && #[trigger] solved[j] == digit,
{
    let digits = Seq::new(9, |k: int| solved[row * 9 + k] as int);
    assert forall|a: int, b: int| 0 <= a < 9 && 0 <= b < 9 && a != b implies digits[a]
        != digits[b] by {
        let i = row * 9 + a;
        let j = row * 9 + b;
        assert(same_house(i, j) && same_house(j, i));
        if a < b {
            assert(solved[i] != solved[j]);
        } else {
            assert(solved[j] != solved[i]);
        }
    }
    digits.unique_seq_to_set();
    vstd::seq_lib::seq_to_set_is_finite(digits);
    vstd::set_lib::lemma_int_range(1, 10);
    let all = vstd::set_lib::set_int_range(1, 10);
    assert forall|d: int| digits.to_set().contains(d) implies all.contains(d) by {
        let k = choose|k: int| 0 <= k < 9 && digits[k] == d;
        assert(1 <= solved[row * 9 + k] <= 9);
    }
    vstd::set_lib::lemma_subset_equality(digits.to_set(), all);
    assert(all.contains(digit));
    assert(digits.to_set().contains(digit));
    let k = choose|k: int| 0 <= k < 9 && digits[k] == digit;
    assert(solved[row * 9 + k] == digit);
}

/// A solved board with one cell blanked can be filled one way only: the rest
/// of the row leaves a single digit for the blank.
pub proof fn lemma_one_blank_is_forced(solved: Seq<u8>, i: int)
    requires
        is_solved(solved),
        0 <= i < 81,
    ensures
        only_solution(solved.update(i, 0), solved),
{
    let partial = solved.update(i, 0);
    assert forall|other: Seq<u8>| is_solved(other) && #[trigger] derives(
        partial,
        other,
    ) implies other == solved by {
        assert forall|j: int| 0 <= j < 81 && j != i implies other[j] == solved[j] by {
            assert(partial[j] == solved[j]);
        }
        if other[i] != solved[i] {
            lemma_row_holds_every_digit(solved, i / 9, other[i] as int);
            let j = choose|j: int| (i / 9) * 9 <= j < (i / 9) * 9 + 9 && solved[j] == other[i];
            assert(j != i && other[j] == other[i]);
            assert(same_house(i, j) && same_house(j, i));
            if i < j {
                assert(other[i] != other[j]);
            } else {
                assert(other[j] != other[i]);
            }
        }
        assert(other =~= solved);
    }
}

/// A puzzle of a solved board leaves at least one cell blank: the board
/// itself is no puzzle, since any one of its cells can go.
pub proof fn lemma_puzzle_has_a_blank(partial: Seq<u8>, solved: Seq<u8>)
    requires
        is_solved(solved),
        is_puzzle_of(partial, solved),
    ensures
        exists|i: int| 0 <= i < 81 && #[trigger] partial[i] == 0,
{
    if forall|i: int| 0 <= i < 81 ==> #[trigger] partial[i] != 0 {
        assert(partial =~= solved);
        lemma_one_blank_is_forced(solved, 0);
        assert(partial[0] != 0);
        assert(!only_solution(partial.update(0, 0), solved));
    }
}

/// On the hardest tier a puzzle always hides a cell.
pub proof fn lemma_hard_hides_a_cell(flags: Seq<bool>, solved: Seq<u8>)
    requires
        is_solved(solved),
        is_puzzle_mask(flags, solved, Difficult::Hard),
    ensures
        exists|i: int| 0 <= i < 81 && #[trigger] flags[i],
        exists|c: Cell| hidden_cells(flags).contains(c),
{
    lemma_index_bijection();
    let reference = choose|reference: Seq<u8>| #[trigger]
        is_puzzle_of(reference, solved) && is_mask_of(flags, reference, Difficult::Hard);
    lemma_puzzle_has_a_blank(reference, solved);
    lemma_hard_mask_is_reference(flags, reference);
    let i = choose|i: int| 0 <= i < 81 && #[trigger] reference[i] == 0;
    assert(flags[i]);
    assert(hidden_cells(flags).contains(Cell::at(i)));
}

/// On the two harder tiers the givens admit one solution only: a solved board
/// that agrees with the puzzle's board wherever the mask hides nothing is
/// that board.
pub proof fn lemma_harder_tiers_have_one_solution(
    flags: Seq<bool>,
    solved: Seq<u8>,
    dif: Difficult,
    other: Seq<u8>,
)
    requires
        dif == Difficult::Hard || dif == Difficult::Medium,
        is_puzzle_mask(flags, solved, dif),
        is_solved(other),
        forall|i: int| 0 <= i < 81 && !flags[i] ==> #[trigger] other[i] == solved[i],
    ensures
        other == solved,
{
    let reference = choose|reference: Seq<u8>| #[trigger]
        is_puzzle_of(reference, solved) && is_mask_of(flags, reference, dif);
    let (start, dice) = choose|start: int, dice: Seq<int>|
        masks(flags, reference, dif, start, dice);
    assert(masks(flags, reference, dif, start, dice));
    assert forall|i: int| 0 <= i < 81 implies #[trigger] reference[i] == 0 || reference[i]
        == other[i] by {
        if reference[i] != 0 {
            assert(!flags[i]);
            assert(reference[i] == solved[i]);
        }
    }
    assert(derives(reference, other));
}

/// A new game of the hardest tier is not won yet, and on the two harder tiers
/// what a new game shows can be completed to one solved board only, the
/// game's own.
pub proof fn lemma_new_game_is_a_fair_puzzle(v: GameView, dif: Difficult, other: Seq<u8>)
    requires
        is_puzzle(v, dif),
        v.fresh(),
    ensures
        dif == Difficult::Hard ==> !v.won(),
        (dif == Difficult::Hard || dif == Difficult::Medium) && is_solved(other) && (forall|
            c: Cell,
        | #[trigger]
            v.is_given(c) ==> other[c.index()] == v.digit(c)) ==> rows_of(other) == v.solution,
{
    lemma_index_bijection();
    let (solved, flags) = choose|solved: Seq<u8>, flags: Seq<bool>|
        {
            &&& is_solved(solved)
            &&& is_puzzle_mask(flags, solved, dif)
            &&& v.solution == rows_of(solved)
            &&& v.empties == hidden_cells(flags)
        };
    if dif == Difficult::Hard {
        lemma_hard_hides_a_cell(flags, solved);
        let c = choose|c: Cell| hidden_cells(flags).contains(c);
        assert(v.empties.contains(c) && !v.correct(c));
    }
    if (dif == Difficult::Hard || dif == Difficult::Medium) && is_solved(other) && (forall|
        c: Cell,
    | #[trigger]
        v.is_given(c) ==> other[c.index()] == v.digit(c)) {
        assert forall|i: int| 0 <= i < 81 && !flags[i] implies #[trigger] other[i]
            == solved[i] by {
            let c = Cell::at(i);
            assert(v.is_given(c));
            assert(v.solution[c.y as int][c.x as int] == (solved[c.y * 9 + c.x] - 1) as u8);
            assert(1 <= solved[i] <= 9);
        }
        lemma_harder_tiers_have_one_solution(flags, solved, dif, other);
    }
}

/// On the medium tier every cell that the reference shows stays a given.
pub proof fn lemma_medium_keeps_reference_givens(flags: Seq<bool>, reference: Seq<u8>)
    requires
        is_mask_of(flags, reference, Difficult::Medium),
    ensures
        hidden_cells(flags).subset_of(blank_cells(reference)),
{
    let (start, dice) = choose|start: int, dice: Seq<int>|
        masks(flags, reference, Difficult::Medium, start, dice);
    assert(masks(flags, reference, Difficult::Medium, start, dice));
}

/// On the easy tier every other cell is hidden, whatever the reference holds
/// and the die shows: all cells with an even number, or all with an odd one.
pub proof fn lemma_easy_hides_every_other_cell(flags: Seq<bool>, reference: Seq<u8>)
    requires
        is_mask_of(flags, reference, Difficult::Easy),
    ensures
        (forall|i: int| 0 <= i < 81 && i % 2 == 0 ==> #[trigger] flags[i]) || (forall|i: int|
            0 <= i < 81 && i % 2 == 1 ==> #[trigger] flags[i]),
{
    let (start, dice) = choose|start: int, dice: Seq<int>|
        masks(flags, reference, Difficult::Easy, start, dice);
    assert(masks(flags, reference, Difficult::Easy, start, dice));
    if start % 2 == 0 {
        assert forall|i: int| 0 <= i < 81 && i % 2 == 0 implies #[trigger] flags[i] by {
            assert((start + i) % 2 == 0);
        }
    } else {
        assert forall|i: int| 0 <= i < 81 && i % 2 == 1 implies #[trigger] flags[i] by {
            assert((start + i) % 2 == 0);
        }
    }
}

/// Whether a mask hides every cell whose number does not leave the remainder
/// `r` on division by 5.
pub open spec fn hides_all_but(flags: Seq<bool>, r: int) -> bool {
    forall|i: int| 0 <= i < 81 && i % 5 != r ==> #[trigger] flags[i]
}

/// On the beginners' tier four cells in five are hidden, whatever the
/// reference holds and the die shows: all but those whose number leaves one
/// certain remainder on division by 5.
pub proof fn lemma_super_easy_hides_four_in_five(flags: Seq<bool>, reference: Seq<u8>)
    requires
        is_mask_of(flags, reference, Difficult::SuperEasy),
    ensures
        exists|r: int| 0 <= r < 5 && #[trigger] hides_all_but(flags, r),
{
    let (start, dice) = choose|start: int, dice: Seq<int>|
        masks(flags, reference, Difficult::SuperEasy, start, dice);
    assert(masks(flags, reference, Difficult::SuperEasy, start, dice));
    let r = (5 - start % 5) % 5;
    assert forall|i: int| 0 <= i < 81 && i % 5 != r implies #[trigger] flags[i] by {
        assert((start + i) % 5 != 0);
    }
    assert(hides_all_but(flags, r));
}

/// The pointer mapping is strict before the origin and lenient at the far
/// edge: a pointer left of or above the origin is off the board, while one on
/// the right or bottom edge itself lands in the last column or row. Anywhere
/// else on the board, the cell returned is the one whose square holds the pointer.
pub proof fn lemma_pointer_edges(px: int, py: int, origin: (i32, i32), cell_size: int)
    requires
        cell_size > 0,
    ensures
        px < origin.0 || py < origin.1 ==> pointed(px, py, origin, cell_size) is None,
        px > origin.0 + 9 * cell_size || py > origin.1 + 9 * cell_size ==> pointed(
            px,
            py,
            origin,
            cell_size,
        ) is None,
        pointed(px, py, origin, cell_size) matches Some(c) ==> {
            &&& c.in_grid()
            &&& (px == origin.0 + 9 * cell_size ==> c.x == 8)
            &&& (py == origin.1 + 9 * cell_size ==> c.y == 8)
            &&& (px < origin.0 + 9 * cell_size ==> origin.0 + c.x * cell_size <= px < origin.0 + (
            c.x + 1) * cell_size)
            &&& (py < origin.1 + 9 * cell_size ==> origin.1 + c.y * cell_size <= py < origin.1 + (
            c.y + 1) * cell_size)
        },
{
    lemma_axis(px, origin.0 as int, cell_size);
    lemma_axis(py, origin.1 as int, cell_size);
}

/// Along one axis, a coordinate on the board lies in the square of the row or
/// column it maps to, and the far edge maps to the last one.
proof fn lemma_axis(p: int, origin: int, cell_size: int)
    requires
        cell_size > 0,
    ensures
        within(p, origin, cell_size) ==> 0 <= coord(p, origin, cell_size) <= 8,
        p == origin + 9 * cell_size ==> coord(p, origin, cell_size) == 8,
        origin <= p < origin + 9 * cell_size ==> origin + coord(p, origin, cell_size) * cell_size
            <= p < origin + (coord(p, origin, cell_size) + 1) * cell_size,
{
    let d = p - origin;
    let q = d / cell_size;
    assert(q * cell_size <= d < (q + 1) * cell_size) by (nonlinear_arith)
        requires
            q == d / cell_size,
            cell_size > 0,
    ;
    if 0 <= d < 9 * cell_size {
        assert(0 <= q < 9) by (nonlinear_arith)
            requires
                q * cell_size <= d < (q + 1) * cell_size,
                0 <= d < 9 * cell_size,
                cell_size > 0,
        ;
    }
    if d == 9 * cell_size {
        assert(q == 9) by (nonlinear_arith)
            requires
                q * cell_size <= d < (q + 1) * cell_size,
                d == 9 * cell_size,
                cell_size > 0,
        ;
    }
}

/// A hint writes the digit that solves its target, and the target is a hidden
/// cell. No correct answer is lost, and the target no longer counts as
/// unanswered: unless the hint followed the selection, the next hint goes
/// elsewhere.
pub proof fn lemma_hint_solves_target(v: GameView, c: Cell)
    requires
        v.wf(),
        v.hint_target() == Some(c),
    ensures
        v.empties.contains(c),
        v.hint().answers == v.answers.insert(c, v.digit(c)),
        v.hint().correct(c),
        forall|k: Cell| v.correct(k) ==> v.hint().correct(k),
        !v.hint().unanswered(c),
        v.editable() is None ==> v.hint().hint_target() != Some(c),
{
    if v.editable() is None {
        let picked = choose|k: Cell| v.first_unanswered(k);
        assert(v.first_unanswered(picked));
        let after = v.hint();
        assert(after.editable() is None);
        if exists|k: Cell| after.first_unanswered(k) {
            let next = choose|k: Cell| after.first_unanswered(k);
            assert(after.unanswered(next));
        }
    }
}

/// Without a target a hint changes nothing, and there is none only when every
/// hidden cell has an answer.
pub proof fn lemma_hint_without_target(v: GameView)
    requires
        v.wf(),
        v.hint_target() is None,
    ensures
        v.hint() == v,
        forall|c: Cell| #[trigger] v.empties.contains(c) ==> v.answers.dom().contains(c),
{
    assert forall|c: Cell| #[trigger] v.empties.contains(c) implies v.answers.dom().contains(c) by {
        if v.unanswered(c) {
            lemma_some_cell_is_first(v, 0);
        }
    }
}

/// If no cell numbered below `from` is unanswered but some cell is, then some
/// cell is the first unanswered one.
proof fn lemma_some_cell_is_first(v: GameView, from: int)
    requires
        v.wf(),
        0 <= from <= 81,
        exists|c: Cell| v.unanswered(c),
        forall|k: Cell| #[trigger] v.unanswered(k) ==> from <= k.index(),
    ensures
        exists|c: Cell| v.first_unanswered(c),
    decreases 81 - from,
{
    lemma_index_bijection();
    let some = choose|c: Cell| v.unanswered(c);
    assert(v.empties.contains(some));
    assert(from <= some.index() < 81);
    let here = Cell::at(from);
    if v.unanswered(here) {
        assert(v.first_unanswered(here));
    } else {
        assert forall|k: Cell| #[trigger] v.unanswered(k) implies from + 1 <= k.index() by {
            assert(v.empties.contains(k));
            if k.index() == from {
                assert(Cell::at(k.index()) == k);
            }
        }
        lemma_some_cell_is_first(v, from + 1);
    }
}

/// Hints alone finish a game: with no selected cell to hold them in place, and
/// no wrong answer on the board, 81 hints in a row win it.
pub proof fn lemma_hints_win(v: GameView)
    requires
        v.wf(),
        v.editable() is None,
        forall|c: Cell| #[trigger] v.answers.dom().contains(c) ==> v.correct(c),
    ensures
        v.hints(81).won(),
{
    lemma_hints_fill(v, 0);
}

/// Once no cell numbered below `from` is unanswered, `81 - from` hints win.
proof fn lemma_hints_fill(v: GameView, from: int)
    requires
        v.wf(),
        v.editable() is None,
        forall|c: Cell| #[trigger] v.answers.dom().contains(c) ==> v.correct(c),
        forall|k: Cell| #[trigger] v.unanswered(k) ==> from <= k.index(),
        0 <= from <= 81,
    ensures
        v.hints((81 - from) as nat).won(),
    decreases 81 - from,
{
    lemma_index_bijection();
    if from == 81 {
        assert forall|c: Cell| #[trigger] v.empties.contains(c) implies v.correct(c) by {
            if v.unanswered(c) {
                assert(c.index() < 81);
            }
        }
    } else {
        let after = v.hint();
        lemma_step_keeps_wf(v, Step::Hint);
        match v.hint_target() {
            Some(c) => {
                lemma_hint_solves_target(v, c);
                let picked = choose|k: Cell| v.first_unanswered(k);
                assert(v.first_unanswered(picked) && picked == c);
                assert forall|k: Cell| #[trigger] after.unanswered(k) implies from + 1
                    <= k.index() by {
                    assert(v.unanswered(k) && k != c);
                    assert(v.empties.contains(k) && v.empties.contains(c));
                    assert(c.index() <= k.index());
                }
            },
            None => {
                lemma_hint_without_target(v);
                assert forall|k: Cell| #[trigger] after.unanswered(k) implies from + 1
                    <= k.index() by {
                    assert(v.empties.contains(k));
                }
            },
        }
        lemma_hints_fill(after, from + 1);
        assert(v.hints((81 - from) as nat) == after.hints((81 - from - 1) as nat));
    }
}

/// On a won game a validation finds nothing to mark.
pub proof fn lemma_won_game_has_no_marks(v: GameView)
    requires
        v.wf(),
        v.won(),
    ensures
        v.validate().invalid == Seq::<Cell>::empty(),
{
    let marks = v.validate().invalid;
    if marks.len() > 0 {
        grid_cells().lemma_filter_pred(v.is_wrong(), 0);
        assert(v.wrong(marks[0]));
        assert(v.empties.contains(marks[0]));
    }
    assert(marks =~= Seq::<Cell>::empty());
}

/// The game is won exactly when every hidden cell holds the digit that solves
/// it; erasing any one hidden cell of a won game loses the win again.
pub proof fn lemma_win_needs_every_cell(v: GameView, c: Cell)
    requires
        v.wf(),
        v.empties.contains(c),
    ensures
        v.won() <==> (forall|k: Cell| #[trigger]
            v.empties.contains(k) ==> v.answers.dom().contains(k) && v.answers[k] == v.digit(k)),
        !v.select(c).clear_digit().won(),
        v.select(c).clear_digit().answers == v.answers.remove(c),
{
    let after = v.select(c).clear_digit();
    assert(after.empties.contains(c) && !after.correct(c));
}

/// A game without hidden cells is won.
pub proof fn lemma_nothing_hidden_is_won(v: GameView)
    requires
        v.empties == Set::<Cell>::empty(),
    ensures
        v.won(),
{
}

/// A validation marks a cell exactly when the cell holds an answer that differs
/// from the digit that solves it; a hidden cell without an answer is never
/// marked, and neither is a given. The marks come in row-major order.
pub proof fn lemma_validate_is_precise(v: GameView, c: Cell)
    requires
        v.wf(),
    ensures
        v.validate().invalid.contains(c) <==> v.answers.dom().contains(c) && v.answers[c]
            != v.digit(c),
        v.unanswered(c) ==> !v.validate().invalid.contains(c),
        v.is_given(c) ==> !v.validate().invalid.contains(c),
        row_major(v.validate().invalid),
{
    lemma_index_bijection();
    let marks = v.validate().invalid;
    if marks.contains(c) {
        let i = choose|i: int| 0 <= i < marks.len() && marks[i] == c;
        grid_cells().lemma_filter_pred(v.is_wrong(), i);
    }
    if v.wrong(c) {
        assert(v.empties.contains(c));
        assert(grid_cells()[c.index()] == c);
        grid_cells().lemma_filter_contains(v.is_wrong(), c.index());
    }
    lemma_filtered_cells_are_ordered(v.is_wrong());
}

} // verus!
