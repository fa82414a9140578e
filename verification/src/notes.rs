use vstd::prelude::*;

use vstd::pervasive::VecAdditionalExecFns;

use crate::digit::{Digit, DigitSize};
use crate::errors::Error;
use crate::location::CellLocation;

verus! {

/// A note array with one flag flipped.
pub open spec fn spec_toggle(s: Seq<bool>, i: int) -> Seq<bool> {
    s.update(i, !s[i])
}

/// Toggling the same flag twice restores the note flags exactly, so a
/// repeated `toggle` of one candidate brings `is_marked` back to where it
/// started.
pub proof fn lemma_toggle_round_trip(s: Seq<bool>, i: int)
    requires
        0 <= i < s.len(),
    ensures
        spec_toggle(spec_toggle(s, i), i) == s,
{
    assert(spec_toggle(spec_toggle(s, i), i) =~= s);
}

/// The flat position of candidate index k of cell (row, col) in the note
/// array of an n-sized board.
pub open spec fn note_index(n: int, row: int, col: int, k: int) -> int {
    (row * n + col) * n + k
}

/// Note positions stay inside the flat array, and the products involved
/// stay small enough for machine arithmetic.
pub proof fn lemma_note_index_bounds(n: int, row: int, col: int, k: int)
    requires
        0 <= row < n,
        0 <= col < n,
        0 <= k < n,
        n <= 255,
    ensures
        0 <= note_index(n, row, col, k) < n * n * n,
        0 <= row * n <= row * n + col < n * n,
        0 <= (row * n + col) * n <= note_index(n, row, col, k),
        n * n <= 65025,
        n * n * n <= 16581375,
{
    assert((0 <= (row * n + col) * n + k < n * n * n) && (0 <= row * n <= row * n + col < n * n)
        && (0 <= (row * n + col) * n <= (row * n + col) * n + k) && (n * n <= 65025) && (n * n * n
        <= 16581375)) by (nonlinear_arith)
        requires
            0 <= row < n,
            0 <= col < n,
            0 <= k < n,
            n <= 255,
    ;
}

/// Per-cell candidate flags: for every cell, `max_digit` booleans, flag k
/// meaning "digit k+1 is marked as a candidate". Purely a player memory
/// aid: cells are independent and no uniqueness between them is enforced.
#[derive(Debug)]
pub struct NoteState<T: DigitSize> {
    n: usize,
    marks: Vec<bool>,
    size: T,
}

impl<T: DigitSize> NoteState<T> {
    /// The board dimension N.
    pub closed spec fn spec_n(self) -> int {
        self.n as int
    }

    /// The flat note flags, cell by cell in row-major order.
    pub closed spec fn flags(self) -> Seq<bool> {
        self.marks@
    }

    /// Structural invariant: the dimension is the size tag's largest digit
    /// and every cell owns exactly N flags.
    pub open spec fn wf(self) -> bool {
        &&& self.spec_n() == T::spec_max() as int
        &&& self.flags().len() == self.spec_n() * self.spec_n() * self.spec_n()
    }

    /// Whether candidate index k of cell (row, col) is marked.
    pub open spec fn spec_marked(self, row: int, col: int, k: int) -> bool {
        self.flags()[note_index(self.spec_n(), row, col, k)]
    }

    /// Fresh notes for a new game: every candidate of every cell unmarked.
    pub fn new() -> (r: Self)
        ensures
            r.wf(),
            forall|i: int| 0 <= i < r.flags().len() ==> !(#[trigger] r.flags()[i]),
    {
        proof {
            T::max_supported();
        }
        let n = T::max_digit() as usize;
        proof {
            assert((n as int) * (n as int) <= 625 && (n as int) * (n as int) * (n as int) <= 15625)
                by (nonlinear_arith)
                requires
                    0 <= n <= 25,
            ;
        }
        let total = n * n * n;
        let mut marks: Vec<bool> = Vec::new();
        let mut i: usize = 0;
        while i < total
            invariant
                i <= total,
                marks@.len() == i,
                forall|p: int| 0 <= p < i ==> !(#[trigger] marks@[p]),
            decreases total - i,
        {
            marks.push(false);
            i = i + 1;
        }
        NoteState { n, marks, size: T::create() }
    }

    /// Reinitialize every cell's candidate flags to all-false.
    pub fn reset_all(&mut self)
        ensures
            final(self).wf(),
            forall|i: int|
                0 <= i < final(self).flags().len() ==> !(#[trigger] final(self).flags()[i]),
    {
        *self = Self::new();
    }

    /// Flip the flag of `d` for the given cell.
    pub fn toggle(&mut self, loc: CellLocation, d: Digit<T>) -> (r: Result<(), Error>)
        requires
            old(self).wf(),
            d.wf(),
        ensures
            final(self).wf(),
            final(self).spec_n() == old(self).spec_n(),
            r is Ok <==> loc.in_bounds(old(self).spec_n()),
            r is Err ==> r == Err::<(), Error>(Error::OutOfBounds) && *final(self) == *old(self),
            r is Ok ==> final(self).flags() == spec_toggle(
                old(self).flags(),
                note_index(old(self).spec_n(), loc.row as int, loc.col as int, d.value() - 1),
            ),
    {
        if !(loc.row < self.n && loc.col < self.n) {
            return Err(Error::OutOfBounds);
        }
        proof {
            lemma_note_index_bounds(
                self.spec_n(),
                loc.row as int,
                loc.col as int,
                d.value() - 1,
            );
        }
        let i = (loc.row * self.n + loc.col) * self.n + d.as_index();
        let was = self.marks[i];
        self.marks.set(i, !was);
        Ok(())
    }

    /// Whether `d` is marked as a candidate of the given cell.
    pub fn is_marked(&self, loc: CellLocation, d: Digit<T>) -> (r: Result<bool, Error>)
        requires
            self.wf(),
            d.wf(),
        ensures
            r is Ok <==> loc.in_bounds(self.spec_n()),
            r matches Ok(m) ==> m == self.spec_marked(
                loc.row as int,
                loc.col as int,
                d.value() - 1,
            ),
            r is Err ==> r == Err::<bool, Error>(Error::OutOfBounds),
    {
        if !(loc.row < self.n && loc.col < self.n) {
            return Err(Error::OutOfBounds);
        }
        proof {
            lemma_note_index_bounds(
                self.spec_n(),
                loc.row as int,
                loc.col as int,
                d.value() - 1,
            );
        }
        let i = (loc.row * self.n + loc.col) * self.n + d.as_index();
        Ok(self.marks[i])
    }
}

} // verus!
