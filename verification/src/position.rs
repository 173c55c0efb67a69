//! Cell addresses.
use vstd::prelude::*;

verus! {

/// A cell address: a row and a column, both counted from zero at the top left.
///
/// The same type serves for addresses on the board and for the offsets of a
/// shape's cells inside its bounding box.
#[derive(Clone, Copy, Debug, PartialEq, Eq, Structural)]
pub struct Position {
    pub row: i32,
    pub column: i32,
}

impl View for Position {
    type V = (int, int);

    /// The pair `(row, column)` as mathematical integers.
    open spec fn view(&self) -> (int, int) {
        (self.row as int, self.column as int)
    }
}

impl Position {
    pub fn new(row: i32, column: i32) -> (position: Self)
        ensures
            position@ == (row as int, column as int),
    {
        Self { row, column }
    }
}

} // verus!
