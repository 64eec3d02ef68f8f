//! Positions on the 9 by 9 board.

use vstd::prelude::*;

verus! {

/// One position of the board: column `x` and row `y`, both counted from 0.
#[derive(Clone, Copy, Debug, PartialEq, Eq, Structural, Hash)]
pub struct Cell {
    pub x: usize,
    pub y: usize,
}

impl Cell {
    /// Whether the position lies on the board.
    pub open spec fn in_grid(self) -> bool {
        self.x <= 8 && self.y <= 8
    }

    /// Row-major number of the position: 0 for the top left, 80 for the bottom right.
    pub open spec fn index(self) -> int {
        self.y * 9 + self.x
    }

    /// The position with row-major number `i`.
    pub open spec fn at(i: int) -> Cell {
        Cell { x: (i % 9) as usize, y: (i / 9) as usize }
    }

    /// Row-major number of a position on the board.
    pub fn pos(self) -> (i: usize)
        requires
            self.in_grid(),
        ensures
            i == self.index(),
            i < 81,
    {
        self.y * 9 + self.x
    }

    /// The position with row-major number `i`.
    pub fn from_pos(i: usize) -> (c: Cell)
        requires
            i < 81,
        ensures
            c == Cell::at(i as int),
            c.in_grid(),
            c.index() == i,
    {
        Cell { x: i % 9, y: i / 9 }
    }
}

/// All 81 positions of the board in row-major order.
pub open spec fn grid_cells() -> Seq<Cell> {
    Seq::new(81, |i: int| Cell::at(i))
}

/// The set of all positions of the board.
pub open spec fn board() -> Set<Cell> {
    Set::new(|c: Cell| c.in_grid())
}

/// Numbering the positions row by row is a bijection between the board and `0..81`.
pub proof fn lemma_index_bijection()
    ensures
        forall|c: Cell| c.in_grid() ==> 0 <= #[trigger] c.index() < 81 && Cell::at(c.index()) == c,
        forall|i: int|
            0 <= i < 81 ==> (#[trigger] Cell::at(i)).in_grid() && Cell::at(i).index() == i,
{
}

/// The board has 81 cells, and the row-major list names each of them once.
pub proof fn lemma_board_has_81_cells()
    ensures
        grid_cells().no_duplicates(),
        grid_cells().to_set() == board(),
        board().finite(),
        board().len() == 81,
{
    lemma_index_bijection();
    let cells = grid_cells();
    assert forall|i: int, j: int| 0 <= i < cells.len() && 0 <= j < cells.len() && i != j implies cells[i]
        != cells[j] by {
        assert(cells[i].index() == i && cells[j].index() == j);
    }
    assert forall|c: Cell| board().contains(c) implies cells.to_set().contains(c) by {
        assert(cells[c.index()] == c);
    }
    assert(cells.to_set() =~= board());
    cells.unique_seq_to_set();
    vstd::seq_lib::seq_to_set_is_finite(cells);
}

/// Filtering one more element of a sequence either appends that element or changes nothing.
pub proof fn lemma_filter_take_step<A>(s: Seq<A>, pred: spec_fn(A) -> bool, i: int)
    requires
        0 <= i < s.len(),
    ensures
        s.take(i + 1).filter(pred) == if pred(s[i]) {
            s.take(i).filter(pred).push(s[i])
        } else {
            s.take(i).filter(pred)
        },
{
    reveal(Seq::filter);
    assert(s.take(i + 1).drop_last() =~= s.take(i));
}

/// Whether a list of cells runs in strictly rising row-major order, which
/// leaves no room for a cell to come twice.
pub open spec fn row_major(cells: Seq<Cell>) -> bool {
    forall|i: int, j: int| 0 <= i < j < cells.len() ==> cells[i].index() < cells[j].index()
}

/// Picking cells off the first `n` of the board keeps them in row-major order.
proof fn lemma_filter_keeps_order(pred: spec_fn(Cell) -> bool, n: int)
    requires
        0 <= n <= 81,
    ensures
        row_major(grid_cells().take(n).filter(pred)),
        forall|i: int|
            0 <= i < grid_cells().take(n).filter(pred).len() ==> (#[trigger] grid_cells().take(
                n,
            ).filter(pred)[i]).index() < n,
    decreases n,
{
    if n == 0 {
        reveal(Seq::filter);
    } else {
        lemma_index_bijection();
        lemma_filter_keeps_order(pred, n - 1);
        lemma_filter_take_step(grid_cells(), pred, n - 1);
    }
}

/// Picking cells off the board keeps them in row-major order.
pub proof fn lemma_filtered_cells_are_ordered(pred: spec_fn(Cell) -> bool)
    ensures
        row_major(grid_cells().filter(pred)),
{
    lemma_filter_keeps_order(pred, 81);
    assert(grid_cells().take(81) =~= grid_cells());
}

} // verus!
