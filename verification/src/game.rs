use vstd::prelude::*;

use vstd::pervasive::unreached;

use crate::board::{count_filled, BoardState};
use crate::digit::DigitSize;
use crate::errors::Error;
use crate::mask::{Difficulty, DifficultyMask};
use crate::notes::NoteState;

verus! {

/// Start a new game from a solved grid and a difficulty label: the playable
/// board comes from masking the solution, and the notes come up with every
/// candidate unmarked. With a well formed, fully filled solution this always
/// succeeds: every difficulty's fill fraction is strictly between 0 and 1
/// and a supported board is never empty.
pub fn new_game<T: DigitSize>(solved: &BoardState<T>, difficulty: Difficulty) -> (r: (
    BoardState<T>,
    NoteState<T>,
))
    requires
        solved.wf(),
        forall|i: int| 0 <= i < solved.grid().len() ==> (#[trigger] solved.grid()[i]) is Some,
    ensures
        r.0.wf(),
        r.0.spec_n() == solved.spec_n(),
        count_filled(r.0.grid()) == solved.grid().len() - DifficultyMask::spec_clear_count(
            solved.spec_n(),
            difficulty.spec_fill_percent() as int,
        ),
        forall|i: int|
            0 <= i < r.0.grid().len() ==> ((#[trigger] r.0.grid()[i]) is Some ==> r.0.grid()[i]
                == solved.grid()[i]),
        r.1.wf(),
        forall|i: int| 0 <= i < r.1.flags().len() ==> !(#[trigger] r.1.flags()[i]),
{
    proof {
        T::max_supported();
    }
    match DifficultyMask::apply(solved, difficulty.fill_percent()) {
        Ok(board) => (board, NoteState::new()),
        Err(_) => unreached(),
    }
}

} // verus!
