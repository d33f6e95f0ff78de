//! Grid coordinates and board sizes.
use vstd::prelude::*;

verus! {

/// Rows of the board used by the demonstration program.
pub const BOARD_ROWS: usize = 4;

/// Columns of the board used by the demonstration program.
pub const BOARD_COLS: usize = 8;

/// A (row, column) pair. As a position it names a cell; as a board size it
/// gives the number of rows (`row`) and columns (`col`).
#[derive(Clone, Copy, Debug, PartialEq, Eq, Structural)]
pub struct Dimensions {
    pub row: usize,
    pub col: usize,
}

impl Dimensions {
    pub fn new(row: usize, col: usize) -> (r: Self)
        ensures
            r.row == row,
            r.col == col,
    {
        Self { row, col }
    }
}

/// The position (`row`, `col`).
pub open spec fn cell_at(row: usize, col: usize) -> Dimensions {
    Dimensions { row, col }
}

/// `p` names a cell of a board of size `bounds`.
pub open spec fn in_bounds(p: Dimensions, bounds: Dimensions) -> bool {
    p.row < bounds.row && p.col < bounds.col
}

/// A board of size `bounds` has at least one cell.
pub open spec fn nonempty(bounds: Dimensions) -> bool {
    bounds.row > 0 && bounds.col > 0
}

/// A board of size `bounds` has at least two cells, so that a token can
/// always move somewhere else.
pub open spec fn has_two_cells(bounds: Dimensions) -> bool {
    nonempty(bounds) && (bounds.row >= 2 || bounds.col >= 2)
}

/// The two positions differ by at most one along each axis.
pub open spec fn within_one(a: Dimensions, b: Dimensions) -> bool {
    -1 <= a.row - b.row <= 1 && -1 <= a.col - b.col <= 1
}

} // verus!
