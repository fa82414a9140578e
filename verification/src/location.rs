use vstd::prelude::*;

use crate::errors::Error;

verus! {

/// A cell address: row and column, both in `[0, N)` on an N-by-N board. A
/// pure value with structural equality, used as grid address and note key.
#[derive(Clone, Copy, Debug, PartialEq, Eq, Structural)]
pub struct CellLocation {
    pub row: usize,
    pub col: usize,
}

impl CellLocation {
    /// Whether this location lies on an n-by-n board.
    pub open spec fn in_bounds(self, n: int) -> bool {
        (self.row as int) < n && (self.col as int) < n
    }

    /// Validating constructor: fails exactly when a coordinate reaches `n`.
    pub fn new(row: usize, col: usize, n: usize) -> (r: Result<Self, Error>)
        ensures
            r is Ok <==> row < n && col < n,
            r matches Ok(loc) ==> loc.row == row && loc.col == col,
            r is Err ==> r == Err::<Self, Error>(Error::OutOfBounds),
    {
        if row < n && col < n {
            Ok(CellLocation { row, col })
        } else {
            Err(Error::OutOfBounds)
        }
    }
}

} // verus!
