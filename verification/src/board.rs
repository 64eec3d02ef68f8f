//! Solved boards: what makes one, where they come from, and how the engine stores them.

use vstd::prelude::*;
use sudoku::Sudoku;

verus! {

/// Whether the cells numbered `i` and `j` share a row, a column or a 3 by 3 block.
pub open spec fn same_house(i: int, j: int) -> bool {
    ||| i / 9 == j / 9
    ||| i % 9 == j % 9
    ||| (i / 27 == j / 27 && (i % 9) / 3 == (j % 9) / 3)
}

/// Whether every cell of a board in row-major order holds a digit from 1 to 9.
pub open spec fn is_filled(cells: Seq<u8>) -> bool {
    &&& cells.len() == 81
    &&& forall|i: int| 0 <= i < 81 ==> 1 <= #[trigger] cells[i] <= 9
}

/// A board is solved when every cell holds a digit from 1 to 9 and no row,
/// column or block holds a digit twice, so that each holds all nine.
pub open spec fn is_solved(cells: Seq<u8>) -> bool {
    &&& is_filled(cells)
    &&& forall|i: int, j: int| 0 <= i < j < 81 && same_house(i, j) ==> cells[i] != cells[j]
}

/// A partial board derives from a solved one when each of its cells is either
/// blank (0) or holds the solved board's digit.
pub open spec fn derives(partial: Seq<u8>, solved: Seq<u8>) -> bool {
    &&& partial.len() == 81
    &&& forall|i: int| 0 <= i < 81 ==> #[trigger] partial[i] == 0 || partial[i] == solved[i]
}

/// Whether `solved` is the only solved board that the partial board can be
/// filled into.
pub open spec fn only_solution(partial: Seq<u8>, solved: Seq<u8>) -> bool {
    forall|other: Seq<u8>| is_solved(other) && #[trigger] derives(partial, other) ==> other == solved
}

/// Whether blanking any one more cell of the partial board lets in a second
/// solution.
pub open spec fn is_minimal(partial: Seq<u8>, solved: Seq<u8>) -> bool {
    forall|i: int|
        0 <= i < 81 && partial[i] != 0 ==> !only_solution(#[trigger] partial.update(i, 0), solved)
}

/// A puzzle of a solved board is cut out of it by blanking cells, has that
/// board as its only solution, and loses that as soon as one more cell goes.
pub open spec fn is_puzzle_of(partial: Seq<u8>, solved: Seq<u8>) -> bool {
    &&& derives(partial, solved)
    &&& only_solution(partial, solved)
    &&& is_minimal(partial, solved)
}

/// The rows of zero-based digits that stand for a filled board.
pub open spec fn rows_of(cells: Seq<u8>) -> Seq<Seq<u8>> {
    Seq::new(9, |y: int| Seq::new(9, |x: int| (cells[y * 9 + x] - 1) as u8))
}

/// Calls `sudoku::Sudoku::generate_solved` and hands out its cells in row-major
/// order. Trusted: the board that comes back is a solved sudoku, as the
/// generator documents; which one is left open.
#[verifier::external_body]
pub(crate) fn generate_solved() -> (cells: [u8; 81])
    ensures
        is_solved(cells@),
{
    Sudoku::generate_solved().to_bytes()
}

/// Calls `sudoku::Sudoku::generate_from` on a solved board and hands out the
/// cells of the puzzle it returns. Trusted, as the generator documents: the
/// puzzle is the board with some cells blanked, it is uniquely solvable with
/// the board as its solution, and no further cell can go without losing
/// that. Which cells are blanked is left open. A solved board holds digits
/// only, so the conversion to the generator's type does not fail.
#[verifier::external_body]
pub(crate) fn generate_from(solved: &[u8; 81]) -> (partial: [u8; 81])
    requires
        is_solved(solved@),
    ensures
        is_puzzle_of(partial@, solved@),
{
    Sudoku::generate_from(Sudoku::from_bytes(*solved).unwrap()).to_bytes()
}

/// Splits a filled board into its nine rows and shifts every digit to the
/// zero-based form the engine compares against.
pub fn create_matrix(grid: &[u8; 81]) -> (data: Vec<[u8; 9]>)
    requires
        is_filled(grid@),
    ensures
        data@.map_values(|row: [u8; 9]| row@) == rows_of(grid@),
        data.len() == 9,
        forall|y: int, x: int|
            0 <= y < 9 && 0 <= x < 9 ==> (#[trigger] data[y][x]) == grid[y * 9 + x] - 1,
{
    let mut data: Vec<[u8; 9]> = Vec::new();
    for y in 0usize..9
        invariant
            is_filled(grid@),
            data.len() == y,
            forall|r: int, x: int|
                0 <= r < y && 0 <= x < 9 ==> (#[trigger] data[r][x]) == grid[r * 9 + x] - 1,
    {
        let mut new_line: [u8; 9] = [0u8; 9];
        for x in 0usize..9
            invariant
                0 <= y < 9,
                is_filled(grid@),
                forall|k: int| 0 <= k < x ==> (#[trigger] new_line[k]) == grid[y * 9 + k] - 1,
        {
            new_line[x] = grid[x + y * 9] - 1;
        }
        data.push(new_line);
    }
    assert(data@.map_values(|row: [u8; 9]| row@) =~= rows_of(grid@)) by {
        let rows = data@.map_values(|row: [u8; 9]| row@);
        assert forall|y: int| 0 <= y < 9 implies #[trigger] rows[y] =~= rows_of(grid@)[y] by {
            assert forall|x: int| 0 <= x < 9 implies rows[y][x] == rows_of(grid@)[y][x] by {
                assert(data[y][x] == grid[y * 9 + x] - 1);
            }
        }
    }
    data
}

} // verus!
