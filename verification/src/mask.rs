//! The difficulty mask: which cells of a puzzle are hidden from the player.
//!
//! The mask starts from a reference puzzle, a minimal puzzle cut out of the
//! solved board, and hides more or less than the reference does, depending on
//! the tier. The easier tiers walk a counter over the cells and roll a die on
//! some of them.

use vstd::prelude::*;
use crate::board::is_puzzle_of;
use crate::board::generate_from;
use crate::board::is_solved;
use crate::cell::Cell;

verus! {

/// The difficulty tiers, from the one meant for beginners to the hardest.
#[derive(Clone, Copy, Debug, PartialEq, Eq, Structural)]
pub enum Difficult {
    SuperEasy,
    Easy,
    Medium,
    Hard,
}

/// Whether the tier rolls a die for a cell, given whether the reference leaves
/// the cell blank and where the counter stands.
pub open spec fn rolls(dif: Difficult, blank: bool, counter: int) -> bool {
    match dif {
        Difficult::SuperEasy => counter % 5 == 0,
        Difficult::Easy => counter % 2 != 0,
        Difficult::Medium => blank,
        Difficult::Hard => false,
    }
}

/// The number of faces of the tier's die: a roll lies in `0..sides(dif)`.
pub open spec fn sides(dif: Difficult) -> int {
    match dif {
        Difficult::Medium => 4,
        _ => 3,
    }
}

/// Whether a cell is hidden.
///
/// - `Hard` hides exactly the cells that the reference leaves blank.
/// - `Medium` keeps every cell that the reference shows, and hides a blank one
///   unless the four-sided die shows 1.
/// - `Easy` hides a cell outright when the counter is even, and when it is odd
///   unless the three-sided die shows 1.
/// - `SuperEasy` hides a cell outright unless the counter is a multiple of 5;
///   there it hides the cell only if the three-sided die shows 1.
pub open spec fn hides(dif: Difficult, blank: bool, counter: int, roll: int) -> bool {
    match dif {
        Difficult::SuperEasy => counter % 5 != 0 || roll == 1,
        Difficult::Easy => counter % 2 == 0 || roll != 1,
        Difficult::Medium => blank && roll != 1,
        Difficult::Hard => blank,
    }
}

/// Whether `flags` is the mask that the tier cuts from `reference` when the
/// counter starts at `start` and the die shows `dice[i]` at cell `i`.
pub open spec fn masks(
    flags: Seq<bool>,
    reference: Seq<u8>,
    dif: Difficult,
    start: int,
    dice: Seq<int>,
) -> bool {
    &&& flags.len() == 81
    &&& dice.len() == 81
    &&& 0 <= start < 10
    &&& forall|i: int| 0 <= i < 81 ==> 0 <= #[trigger] dice[i] < sides(dif)
    &&& forall|i: int|
        0 <= i < 81 ==> #[trigger] flags[i] == hides(dif, reference[i] == 0, start + i, dice[i])
}

/// Whether `flags` is a mask that the tier can cut from `reference`, for some
/// start of the counter and some rolls of the die.
pub open spec fn is_mask_of(flags: Seq<bool>, reference: Seq<u8>, dif: Difficult) -> bool {
    exists|start: int, dice: Seq<int>| masks(flags, reference, dif, start, dice)
}

/// The cells that a mask hides.
pub open spec fn hidden_cells(flags: Seq<bool>) -> Set<Cell> {
    Set::new(|c: Cell| c.in_grid() && flags[c.index()])
}

/// The cells that a partial board leaves blank.
pub open spec fn blank_cells(reference: Seq<u8>) -> Set<Cell> {
    Set::new(|c: Cell| c.in_grid() && reference[c.index()] == 0)
}

/// Draws from `quad_rand::gen_range` on `i32`, the generator that macroquad
/// hands out as its `rand`; it scales a 32-bit draw from the process-wide
/// generator into the range and truncates. Trusted: for
/// non-negative bounds of at most 65536 the draw is at least `low` and below
/// `high`; which number it is is left open.
#[verifier::external_body]
pub(crate) fn gen_range(low: i32, high: i32) -> (draw: i32)
    requires
        0 <= low < high <= 65536,
    ensures
        low <= draw < high,
{
    quad_rand::gen_range(low, high)
}

/// Whether the tier rolls its die for a cell.
pub fn needs_roll(dif: Difficult, blank: bool, counter: i32) -> (b: bool)
    ensures
        b == rolls(dif, blank, counter as int),
{
    match dif {
        Difficult::SuperEasy => counter % 5 == 0,
        Difficult::Easy => counter % 2 != 0,
        Difficult::Medium => blank,
        Difficult::Hard => false,
    }
}

/// Decides whether one cell is hidden, from the tier, whether the reference
/// leaves the cell blank, the counter and the roll of the die.
pub fn hides_cell(dif: Difficult, blank: bool, counter: i32, roll: i32) -> (hidden: bool)
    ensures
        hidden == hides(dif, blank, counter as int, roll as int),
{
    match dif {
        Difficult::SuperEasy => counter % 5 != 0 || roll == 1,
        Difficult::Easy => counter % 2 == 0 || roll != 1,
        Difficult::Medium => blank && roll != 1,
        Difficult::Hard => blank,
    }
}

/// Cuts the tier's mask from a reference puzzle, rolling the die where the tier
/// asks for it.
///
/// Whatever the die shows, the result is one of the tier's masks of the
/// reference. On `Hard` it hides exactly the reference's blank cells; on
/// `Medium` it hides none of the cells that the reference shows.
pub fn mask_reference(reference: &[u8; 81], dif: Difficult) -> (flags: [bool; 81])
    ensures
        is_mask_of(flags@, reference@, dif),
        dif == Difficult::Hard ==> hidden_cells(flags@) == blank_cells(reference@),
        dif == Difficult::Medium ==> hidden_cells(flags@).subset_of(blank_cells(reference@)),
{
    let start_num: i32 = match dif {
        Difficult::SuperEasy => gen_range(0, 10),
        Difficult::Easy => gen_range(0, 10),
        _ => 0,
    };
    let faces: i32 = match dif {
        Difficult::Medium => 4,
        _ => 3,
    };
    let mut flags: [bool; 81] = [false; 81];
    let ghost mut dice: Seq<int> = Seq::empty();
    for i in 0usize..81
        invariant
            0 <= start_num < 10,
            faces == sides(dif),
            dice.len() == i,
            forall|k: int| 0 <= k < i ==> 0 <= #[trigger] dice[k] < sides(dif),
            forall|k: int|
                0 <= k < i ==> #[trigger] flags[k] == hides(
                    dif,
                    reference[k] == 0,
                    start_num + k,
                    dice[k],
                ),
    {
        let blank: bool = reference[i] == 0;
        let counter: i32 = start_num + i as i32;
        let roll: i32 = if needs_roll(dif, blank, counter) {
            gen_range(0, faces)
        } else {
            0
        };
        flags[i] = hides_cell(dif, blank, counter, roll);
        proof {
            dice = dice.push(roll as int);
        }
    }
    proof {
        assert(masks(flags@, reference@, dif, start_num as int, dice));
        if dif == Difficult::Hard {
            assert(hidden_cells(flags@) =~= blank_cells(reference@));
        }
    }
    flags
}

/// Cuts a reference puzzle out of a solved board and then the tier's mask out
/// of the reference.
///
/// Which reference the generator picks is open, so the result is one of the
/// tier's masks of some puzzle of the solved board: a minimal one with the
/// board as its only solution.
pub fn fill_empties(solved: &[u8; 81], dif: Difficult) -> (flags: [bool; 81])
    requires
        is_solved(solved@),
    ensures
        is_puzzle_mask(flags@, solved@, dif),
{
    let real_sudoku: [u8; 81] = generate_from(solved);
    mask_reference(&real_sudoku, dif)
}

/// Whether `flags` is one of the tier's masks of some puzzle of the solved
/// board.
pub open spec fn is_puzzle_mask(flags: Seq<bool>, solved: Seq<u8>, dif: Difficult) -> bool {
    exists|reference: Seq<u8>|
        #[trigger] is_puzzle_of(reference, solved) && is_mask_of(flags, reference, dif)
}

} // verus!
