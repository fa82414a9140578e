use vstd::prelude::*;

verus! {

/// Why a core operation was refused. Every construction-time failure is
/// reported to the caller; nothing is clamped or defaulted silently.
#[derive(Clone, Copy, Debug, PartialEq, Eq, Structural)]
pub enum Error {
    /// A digit outside `[1, max_digit]` for the board's size.
    OutOfRange,
    /// A cell coordinate outside `[0, N)`.
    OutOfBounds,
    /// A board dimension that is not a positive perfect square, so box
    /// relations are undefined.
    UndefinedBoxGeometry,
    /// A fill ratio outside the open interval `(0, 1)`.
    InvalidDifficulty,
    /// A board with no cells.
    EmptyBoard,
}

} // verus!
