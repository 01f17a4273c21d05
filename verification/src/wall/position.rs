use vstd::prelude::*;

verus! {

/// A place in Pascal's triangle: the row `n` and the column `k` of `n` choose `k`.
#[derive(Debug, Copy, Clone, PartialEq, Eq, Structural)]
pub struct Position {
    pub row: u8,
    pub col: u8,
}

impl Position {
    /// The place in row `row` and column `col`.
    pub fn new(row: u8, col: u8) -> (p: Self)
        ensures
            p.row == row,
            p.col == col,
    {
        Self { row, col }
    }
}

impl Default for Position {
    /// The top of the triangle.
    fn default() -> (p: Self)
        ensures
            p.row == 0,
            p.col == 0,
    {
        Self { row: 0, col: 0 }
    }
}

} // verus!
