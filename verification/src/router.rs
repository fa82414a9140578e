use vstd::prelude::*;

use crate::board::{cell_after_set, cell_index, BoardState};
use crate::digit::{Digit, DigitSize};
use crate::errors::Error;
use crate::location::CellLocation;
use crate::notes::{note_index, spec_toggle, NoteState};

verus! {

/// Which state a digit key mutates: cell values or candidate notes. The
/// player toggles between the two explicitly; nothing switches on its own.
#[derive(Clone, Copy, Debug, PartialEq, Eq, Structural)]
pub enum InputMode {
    Value,
    Candidate,
}

impl Default for InputMode {
    /// A session starts in Value mode.
    fn default() -> (r: Self)
        ensures
            r == InputMode::Value,
    {
        InputMode::Value
    }
}

/// What dispatching one parsed digit does to the board and the notes. With
/// no selected cell, or a digit beyond the board's largest, nothing changes
/// and no error is raised; a selected cell off the board is refused; else
/// the digit goes to the board (Value mode, toggle-to-clear) or to the
/// notes (Candidate mode).
pub open spec fn dispatch_post<T: DigitSize>(
    mode: InputMode,
    selected: Option<CellLocation>,
    digit: int,
    b0: BoardState<T>,
    b1: BoardState<T>,
    n0: NoteState<T>,
    n1: NoteState<T>,
    r: Result<(), Error>,
) -> bool {
    match selected {
        None => r is Ok && b1 == b0 && n1 == n0,
        Some(loc) => if digit < 1 || digit > T::spec_max() as int {
            r is Ok && b1 == b0 && n1 == n0
        } else if !loc.in_bounds(b0.spec_n()) {
            r == Err::<(), Error>(Error::OutOfBounds) && b1 == b0 && n1 == n0
        } else if mode is Value {
            &&& r is Ok
            &&& n1 == n0
            &&& b1.spec_n() == b0.spec_n()
            &&& b1.grid() == b0.grid().update(
                cell_index(b0.spec_n(), loc.row as int, loc.col as int),
                cell_after_set(b0.cell(loc.row as int, loc.col as int), digit as u8),
            )
        } else {
            &&& r is Ok
            &&& b1 == b0
            &&& n1.spec_n() == n0.spec_n()
            &&& n1.flags() == spec_toggle(
                n0.flags(),
                note_index(n0.spec_n(), loc.row as int, loc.col as int, digit - 1),
            )
        },
    }
}

/// Routes parsed digit keys to the board or the notes according to the
/// current input mode. It owns no state.
pub struct InputRouter;

impl InputRouter {
    /// Dispatch one parsed digit key-press against the current selection.
    pub fn dispatch<T: DigitSize>(
        mode: InputMode,
        selected: Option<CellLocation>,
        digit: u8,
        board: &mut BoardState<T>,
        notes: &mut NoteState<T>,
    ) -> (r: Result<(), Error>)
        requires
            old(board).wf(),
            old(notes).wf(),
        ensures
            final(board).wf(),
            final(notes).wf(),
            dispatch_post(
                mode,
                selected,
                digit as int,
                *old(board),
                *final(board),
                *old(notes),
                *final(notes),
                r,
            ),
    {
        let loc = match selected {
            None => {
                return Ok(());
            },
            Some(loc) => loc,
        };
        if digit < 1 || digit > T::max_digit() {
            return Ok(());
        }
        if mode == InputMode::Value {
            let d = Digit::<T>::new(digit);
            match board.set(loc, d) {
                Ok(_) => Ok(()),
                Err(e) => Err(e),
            }
        } else {
            let d = Digit::<T>::new(digit);
            match notes.toggle(loc, d) {
                Ok(_) => Ok(()),
                Err(e) => Err(e),
            }
        }
    }

    /// Resolve one key-event batch: digits are scanned in ascending order,
    /// the first pressed one is dispatched, the rest of the batch is
    /// ignored. `pressed[k]` says whether the key for digit k+1 is down;
    /// keys beyond the board's largest digit are never consulted.
    pub fn dispatch_keys<T: DigitSize>(
        mode: InputMode,
        selected: Option<CellLocation>,
        pressed: &Vec<bool>,
        board: &mut BoardState<T>,
        notes: &mut NoteState<T>,
    ) -> (r: Result<(), Error>)
        requires
            old(board).wf(),
            old(notes).wf(),
        ensures
            final(board).wf(),
            final(notes).wf(),
            match first_pressed(pressed@, T::spec_max() as int) {
                Some(k) => dispatch_post(
                    mode,
                    selected,
                    k + 1,
                    *old(board),
                    *final(board),
                    *old(notes),
                    *final(notes),
                    r,
                ),
                None => r is Ok && *final(board) == *old(board) && *final(notes) == *old(notes),
            },
    {
        let max = T::max_digit();
        let mut k: usize = 0;
        while k < pressed.len() && k < max as usize
            invariant
                old(board).wf(),
                old(notes).wf(),
                *board == *old(board),
                *notes == *old(notes),
                max == T::spec_max(),
                k <= pressed@.len(),
                k <= max,
                first_pressed(pressed@, max as int) == first_pressed_from(
                    pressed@,
                    k as int,
                    max as int,
                ),
            decreases pressed@.len() - k,
        {
            if pressed[k] {
                let digit = (k as u8) + 1;
                return Self::dispatch(mode, selected, digit, board, notes);
            }
            k = k + 1;
        }
        Ok(())
    }
}

/// The lowest index below `max` whose flag is set, scanning from `i` up.
pub open spec fn first_pressed_from(s: Seq<bool>, i: int, max: int) -> Option<int>
    decreases max - i,
{
    if i < 0 || i >= s.len() || i >= max {
        None
    } else if s[i] {
        Some(i)
    } else {
        first_pressed_from(s, i + 1, max)
    }
}

/// The lowest index below `max` whose flag is set: the digit the router
/// takes from a key-event batch is one more than this.
pub open spec fn first_pressed(s: Seq<bool>, max: int) -> Option<int> {
    first_pressed_from(s, 0, max)
}

} // verus!
