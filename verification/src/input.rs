//! From a pointer position to the cell under it.
//!
//! The board is drawn as nine by nine square cells from an origin at its top
//! left. Positions and sizes are whole pixels.

use vstd::prelude::*;
use crate::cell::Cell;

verus! {

/// Whether a coordinate lies on the board along one axis: not before the
/// origin and not past the far edge, the edge itself included.
pub open spec fn within(p: int, origin: int, cell_size: int) -> bool {
    origin <= p <= origin + 9 * cell_size
}

/// The row or column under a coordinate: the number of whole cells between
/// the origin and the coordinate, held to the range from 0 to 8.
pub open spec fn coord(p: int, origin: int, cell_size: int) -> int {
    let q = (p - origin) / cell_size;
    if q < 0 {
        0
    } else if q > 8 {
        8
    } else {
        q
    }
}

/// The cell under a pointer, or `None` when the pointer is off the board. A
/// pointer on the right or bottom edge still counts for the last column or row;
/// one left of or above the origin never counts.
pub open spec fn pointed(px: int, py: int, origin: (i32, i32), cell_size: int) -> Option<Cell> {
    if within(px, origin.0 as int, cell_size) && within(py, origin.1 as int, cell_size) {
        Some(
            Cell {
                x: coord(px, origin.0 as int, cell_size) as usize,
                y: coord(py, origin.1 as int, cell_size) as usize,
            },
        )
    } else {
        None
    }
}

/// Whether the pointer is on the board.
pub fn in_window(px: i32, py: i32, origin: (i32, i32), cell_size: i32) -> (inside: bool)
    ensures
        inside == (within(px as int, origin.0 as int, cell_size as int) && within(
            py as int,
            origin.1 as int,
            cell_size as int,
        )),
{
    let span: i64 = 9 * (cell_size as i64);
    let dx: i64 = px as i64 - origin.0 as i64;
    let dy: i64 = py as i64 - origin.1 as i64;
    if dx < 0 {
        return false;
    }
    if dx > span {
        return false;
    }
    if dy > span {
        return false;
    }
    if dy < 0 {
        return false;
    }
    true
}

/// The row or column under a coordinate.
fn axis_coord(p: i32, origin: i32, cell_size: i32) -> (k: usize)
    requires
        cell_size > 0,
    ensures
        k == coord(p as int, origin as int, cell_size as int),
        k <= 8,
{
    let d: i64 = p as i64 - origin as i64;
    if d < 0 {
        proof {
            assert((d as int) / (cell_size as int) < 0) by (nonlinear_arith)
                requires
                    d < 0,
                    cell_size > 0,
            ;
        }
        return 0;
    }
    let q: i64 = d / (cell_size as i64);
    proof {
        assert((d as int) / (cell_size as int) >= 0) by (nonlinear_arith)
            requires
                d >= 0,
                cell_size > 0,
        ;
    }
    if q > 8 {
        8
    } else {
        q as usize
    }
}

/// The cell whose column and row lie under the pointer, each held to the
/// board: a pointer off the board gets the nearest column and row.
pub fn coord_by_position(px: i32, py: i32, origin: (i32, i32), cell_size: i32) -> (cell: Cell)
    requires
        cell_size > 0,
    ensures
        cell.x == coord(px as int, origin.0 as int, cell_size as int),
        cell.y == coord(py as int, origin.1 as int, cell_size as int),
        cell.in_grid(),
{
    Cell { x: axis_coord(px, origin.0, cell_size), y: axis_coord(py, origin.1, cell_size) }
}

/// The cell under the pointer, or `None` when the pointer is off the board.
pub fn map_pointer(px: i32, py: i32, origin: (i32, i32), cell_size: i32) -> (cell: Option<Cell>)
    requires
        cell_size > 0,
    ensures
        cell == pointed(px as int, py as int, origin, cell_size as int),
        cell matches Some(c) ==> c.in_grid(),
{
    if in_window(px, py, origin, cell_size) {
        Some(coord_by_position(px, py, origin, cell_size))
    } else {
        None
    }
}

} // verus!
