use vstd::prelude::*;

use vstd::arithmetic::div_mod::{
    lemma_fundamental_div_mod, lemma_fundamental_div_mod_converse, lemma_mod_bound,
};
use vstd::pervasive::VecAdditionalExecFns;

use crate::digit::{Digit, DigitSize};
use crate::errors::Error;
use crate::location::CellLocation;

verus! {

/// The row-major position of (row, col) on an n-by-n grid.
pub open spec fn cell_index(n: int, row: int, col: int) -> int {
    row * n + col
}

/// The raw value held by an optional digit.
pub open spec fn opt_value<T: DigitSize>(o: Option<Digit<T>>) -> Option<u8> {
    match o {
        Some(d) => Some(d.value()),
        None => None,
    }
}

/// The value of a cell after a player sets `d` on it: re-entering the digit
/// already present clears the cell, anything else stores the digit.
pub open spec fn cell_after_set(prev: Option<u8>, d: u8) -> Option<u8> {
    if prev == Some(d) {
        None
    } else {
        Some(d)
    }
}

/// How many cells of a grid hold a value.
pub open spec fn count_filled(s: Seq<Option<u8>>) -> int
    decreases s.len(),
{
    if s.len() == 0 {
        0
    } else {
        count_filled(s.drop_last()) + if s.last() is Some {
            1int
        } else {
            0int
        }
    }
}

/// Overwriting one cell moves the filled count by the difference between the
/// new and the old occupancy of that cell.
pub proof fn lemma_count_filled_update(s: Seq<Option<u8>>, i: int, v: Option<u8>)
    requires
        0 <= i < s.len(),
    ensures
        count_filled(s.update(i, v)) == count_filled(s) - (if s[i] is Some {
            1int
        } else {
            0int
        }) + (if v is Some {
            1int
        } else {
            0int
        }),
    decreases s.len(),
{
    if i == s.len() - 1 {
        assert(s.update(i, v).drop_last() =~= s.drop_last());
    } else {
        assert(s.update(i, v).drop_last() =~= s.drop_last().update(i, v));
        lemma_count_filled_update(s.drop_last(), i, v);
    }
}

/// A grid whose every cell holds a value is counted in full.
pub proof fn lemma_count_filled_full(s: Seq<Option<u8>>)
    requires
        forall|i: int| 0 <= i < s.len() ==> (#[trigger] s[i]) is Some,
    ensures
        count_filled(s) == s.len(),
    decreases s.len(),
{
    if s.len() > 0 {
        lemma_count_filled_full(s.drop_last());
    }
}

/// Positions on an n-by-n grid stay inside the flat cell array, and the
/// products involved stay small enough for machine arithmetic.
pub proof fn lemma_cell_index_bounds(n: int, row: int, col: int)
    requires
        0 <= row < n,
        0 <= col < n,
        n <= 255,
    ensures
        0 <= cell_index(n, row, col) < n * n,
        n * n <= 65025,
{
    assert(0 <= row * n + col < n * n && n * n <= 65025) by (nonlinear_arith)
        requires
            0 <= row < n,
            0 <= col < n,
            n <= 255,
    ;
}

/// Distinct in-bounds coordinates occupy distinct flat positions.
pub proof fn lemma_cell_index_injective(n: int, r1: int, c1: int, r2: int, c2: int)
    requires
        1 <= n,
        0 <= r1 < n,
        0 <= c1 < n,
        0 <= r2 < n,
        0 <= c2 < n,
        cell_index(n, r1, c1) == cell_index(n, r2, c2),
    ensures
        r1 == r2,
        c1 == c2,
{
    lemma_fundamental_div_mod_converse(r1 * n + c1, n, r1, c1);
    lemma_fundamental_div_mod_converse(r2 * n + c2, n, r2, c2);
}

/// On an n-by-n grid, a flat position decomposes into a row below n and a
/// column below n, and those coordinates lead back to the same position.
pub proof fn lemma_flat_coords(n: int, p: int)
    requires
        1 <= n,
        0 <= p < n * n,
    ensures
        0 <= p / n < n,
        0 <= p % n < n,
        cell_index(n, p / n, p % n) == p,
{
    lemma_mod_bound(p, n);
    lemma_fundamental_div_mod(p, n);
    assert(0 <= p / n < n && (p / n) * n + p % n == p) by (nonlinear_arith)
        requires
            1 <= n,
            0 <= p < n * n,
            p == n * (p / n) + p % n,
            0 <= p % n < n,
    ;
}

/// Toggle-to-clear: setting a digit on an empty cell and then setting the
/// same digit again leaves the cell empty; setting two different digits in
/// turn leaves the cell holding the second one, whatever it held before.
pub proof fn lemma_set_toggle(prev: Option<u8>, d1: u8, d2: u8)
    ensures
        cell_after_set(cell_after_set(None, d1), d1) == None::<u8>,
        d1 != d2 ==> cell_after_set(cell_after_set(prev, d1), d2) == Some(d2),
{
}

/// A dense N-by-N grid of optional digits: the live puzzle. Dimensions are
/// fixed at construction and every occupied cell holds a digit valid for the
/// board's size. The solved reference grid is a second `BoardState` held by
/// the caller.
#[derive(Debug)]
pub struct BoardState<T: DigitSize> {
    n: usize,
    cells: Vec<Option<Digit<T>>>,
}

impl<T: DigitSize> BoardState<T> {
    /// The board dimension N.
    pub closed spec fn spec_n(self) -> int {
        self.n as int
    }

    /// The grid as a row-major sequence of optional raw values.
    pub closed spec fn grid(self) -> Seq<Option<u8>> {
        self.cells@.map_values(|c: Option<Digit<T>>| opt_value(c))
    }

    /// The value at (row, col).
    pub open spec fn cell(self, row: int, col: int) -> Option<u8> {
        self.grid()[cell_index(self.spec_n(), row, col)]
    }

    /// Structural invariant: the dimension is the size tag's largest digit,
    /// the flat array covers the square, and occupied cells are in range.
    pub open spec fn wf(self) -> bool {
        &&& self.spec_n() == T::spec_max() as int
        &&& self.grid().len() == self.spec_n() * self.spec_n()
        &&& forall|i: int|
            0 <= i < self.grid().len() ==> match #[trigger] self.grid()[i] {
                Some(v) => 1 <= v <= self.spec_n(),
                None => true,
            }
    }

    /// The rows of a candidate grid have the right shape for this size.
    pub open spec fn rows_dims_ok(rs: Seq<Vec<u8>>) -> bool {
        &&& rs.len() == T::spec_max() as int
        &&& forall|i: int| 0 <= i < rs.len() ==> (#[trigger] rs[i])@.len() == T::spec_max() as int
    }

    /// Every value of a candidate grid lies in [1, N].
    pub open spec fn rows_vals_ok(rs: Seq<Vec<u8>>) -> bool {
        forall|i: int, j: int|
            0 <= i < rs.len() && 0 <= j < rs[i]@.len() ==> 1 <= #[trigger] rs[i]@[j]
                <= T::spec_max() as int
    }

    /// Build a fully filled board from raw row values, as handed over by the
    /// external generator. The grid must be N-by-N for this size (else
    /// `OutOfBounds`) with every value in [1, N] (else `OutOfRange`).
    pub fn from_rows(rows: &Vec<Vec<u8>>) -> (r: Result<Self, Error>)
        ensures
            r is Ok <==> Self::rows_dims_ok(rows@) && Self::rows_vals_ok(rows@),
            r == Err::<Self, Error>(Error::OutOfBounds) <==> !Self::rows_dims_ok(rows@),
            r == Err::<Self, Error>(Error::OutOfRange) <==> Self::rows_dims_ok(rows@)
                && !Self::rows_vals_ok(rows@),
            r matches Ok(b) ==> {
                &&& b.wf()
                &&& forall|row: int, col: int|
                    0 <= row < b.spec_n() && 0 <= col < b.spec_n() ==> b.cell(row, col) == Some(
                        rows@[row]@[col],
                    )
            },
    {
        proof {
            T::max_supported();
        }
        let max = T::max_digit();
        let n = max as usize;
        if rows.len() != n {
            return Err(Error::OutOfBounds);
        }
        let mut i: usize = 0;
        while i < n
            invariant
                n == T::spec_max() as int,
                rows@.len() == n,
                i <= n,
                forall|p: int| 0 <= p < i ==> (#[trigger] rows@[p])@.len() == n,
            decreases n - i,
        {
            if rows[i].len() != n {
                return Err(Error::OutOfBounds);
            }
            i = i + 1;
        }
        let mut rr: usize = 0;
        while rr < n
            invariant
                n == T::spec_max() as int,
                max == T::spec_max(),
                rows@.len() == n,
                rr <= n,
                forall|p: int| 0 <= p < n ==> (#[trigger] rows@[p])@.len() == n,
                forall|p: int, q: int|
                    0 <= p < rr && 0 <= q < n ==> 1 <= #[trigger] rows@[p]@[q] <= n,
            decreases n - rr,
        {
            let mut cc: usize = 0;
            while cc < n
                invariant
                    n == T::spec_max() as int,
                    max == T::spec_max(),
                    rows@.len() == n,
                    rr < n,
                    cc <= n,
                    forall|p: int| 0 <= p < n ==> (#[trigger] rows@[p])@.len() == n,
                    forall|q: int| 0 <= q < cc ==> 1 <= #[trigger] rows@[rr as int]@[q] <= n,
                decreases n - cc,
            {
                let v = rows[rr][cc];
                if v < 1 || v > max {
                    proof {
                        let i0 = rr as int;
                        let j0 = cc as int;
                        assert(0 <= i0 < rows@.len());
                        assert(0 <= j0 < rows@[i0]@.len());
                        assert(!(1 <= rows@[i0]@[j0] && rows@[i0]@[j0] <= T::spec_max() as int));
                        assert(!Self::rows_vals_ok(rows@));
                    }
                    return Err(Error::OutOfRange);
                }
                proof {
                    assert(1 <= rows@[rr as int]@[cc as int] <= n as int);
                }
                cc = cc + 1;
            }
            rr = rr + 1;
        }
        let mut cells: Vec<Option<Digit<T>>> = Vec::new();
        let mut rr: usize = 0;
        while rr < n
            invariant
                n == T::spec_max() as int,
                n <= 25,
                rows@.len() == n,
                rr <= n,
                forall|p: int| 0 <= p < n ==> (#[trigger] rows@[p])@.len() == n,
                forall|p: int, q: int|
                    0 <= p < n && 0 <= q < n ==> 1 <= #[trigger] rows@[p]@[q] <= n,
                cells@.len() == rr * n,
                forall|p: int|
                    0 <= p < cells@.len() ==> opt_value(#[trigger] cells@[p]) == Some(
                        rows@[p / (n as int)]@[p % (n as int)],
                    ),
            decreases n - rr,
        {
            let mut cc: usize = 0;
            while cc < n
                invariant
                    n == T::spec_max() as int,
                    n <= 25,
                    rows@.len() == n,
                    rr < n,
                    cc <= n,
                    forall|p: int| 0 <= p < n ==> (#[trigger] rows@[p])@.len() == n,
                    forall|p: int, q: int|
                        0 <= p < n && 0 <= q < n ==> 1 <= #[trigger] rows@[p]@[q] <= n,
                    cells@.len() == rr * n + cc,
                    forall|p: int|
                        0 <= p < cells@.len() ==> opt_value(#[trigger] cells@[p]) == Some(
                            rows@[p / (n as int)]@[p % (n as int)],
                        ),
                decreases n - cc,
            {
                let v = rows[rr][cc];
                cells.push(Some(Digit::<T>::new(v)));
                proof {
                    lemma_fundamental_div_mod_converse(
                        rr as int * n as int + cc as int,
                        n as int,
                        rr as int,
                        cc as int,
                    );
                }
                cc = cc + 1;
            }
            proof {
                assert((rr as int + 1) * (n as int) == rr as int * (n as int) + n as int)
                    by (nonlinear_arith);
            }
            rr = rr + 1;
        }
        let b = BoardState { n, cells };
        proof {
            assert(b.grid().len() == n * n);
            assert forall|i: int| 0 <= i < b.grid().len() implies match #[trigger] b.grid()[i] {
                Some(v) => 1 <= v <= b.spec_n(),
                None => true,
            } by {
                lemma_flat_coords(n as int, i);
            }
            assert forall|row: int, col: int|
                0 <= row < b.spec_n() && 0 <= col < b.spec_n() implies b.cell(row, col) == Some(
                rows@[row]@[col],
            ) by {
                lemma_cell_index_bounds(n as int, row, col);
                lemma_fundamental_div_mod_converse(row * n as int + col, n as int, row, col);
            }
        }
        Ok(b)
    }

    /// The board dimension.
    pub fn size(&self) -> (r: usize)
        ensures
            r as int == self.spec_n(),
    {
        self.n
    }

    /// The current value at a location, or nothing for an empty cell.
    pub fn get(&self, loc: CellLocation) -> (r: Result<Option<Digit<T>>, Error>)
        requires
            self.wf(),
        ensures
            r is Ok <==> loc.in_bounds(self.spec_n()),
            r matches Ok(o) ==> opt_value(o) == self.cell(loc.row as int, loc.col as int),
            r is Err ==> r == Err::<Option<Digit<T>>, Error>(Error::OutOfBounds),
    {
        if !(loc.row < self.n && loc.col < self.n) {
            return Err(Error::OutOfBounds);
        }
        proof {
            lemma_cell_index_bounds(self.spec_n(), loc.row as int, loc.col as int);
        }
        let i = loc.row * self.n + loc.col;
        Ok(self.cells[i])
    }

    /// Store a digit at a location and hand back what was there. Re-entering
    /// the digit already present clears the cell instead (toggle-to-clear).
    /// No Sudoku legality check happens here; only bounds are enforced.
    pub fn set(&mut self, loc: CellLocation, d: Digit<T>) -> (r: Result<Option<Digit<T>>, Error>)
        requires
            old(self).wf(),
            d.wf(),
        ensures
            final(self).wf(),
            final(self).spec_n() == old(self).spec_n(),
            r is Ok <==> loc.in_bounds(old(self).spec_n()),
            r is Err ==> r == Err::<Option<Digit<T>>, Error>(Error::OutOfBounds) && *final(self)
                == *old(self),
            r matches Ok(prev) ==> opt_value(prev) == old(self).cell(
                loc.row as int,
                loc.col as int,
            ) && final(self).grid() == old(self).grid().update(
                cell_index(old(self).spec_n(), loc.row as int, loc.col as int),
                cell_after_set(old(self).cell(loc.row as int, loc.col as int), d.value()),
            ),
    {
        if !(loc.row < self.n && loc.col < self.n) {
            return Err(Error::OutOfBounds);
        }
        proof {
            lemma_cell_index_bounds(self.spec_n(), loc.row as int, loc.col as int);
        }
        let i = loc.row * self.n + loc.col;
        let prev = self.cells[i];
        let same = match prev {
            Some(p) => p.get() == d.get(),
            None => false,
        };
        if same {
            self.cells.set(i, None);
        } else {
            self.cells.set(i, Some(d));
        }
        proof {
            assert(self.grid() =~= old(self).grid().update(
                i as int,
                cell_after_set(old(self).cell(loc.row as int, loc.col as int), d.value()),
            ));
        }
        Ok(prev)
    }

    /// Clear a location and hand back what was removed.
    pub fn unset(&mut self, loc: CellLocation) -> (r: Result<Option<Digit<T>>, Error>)
        requires
            old(self).wf(),
        ensures
            final(self).wf(),
            final(self).spec_n() == old(self).spec_n(),
            r is Ok <==> loc.in_bounds(old(self).spec_n()),
            r is Err ==> r == Err::<Option<Digit<T>>, Error>(Error::OutOfBounds) && *final(self)
                == *old(self),
            r matches Ok(prev) ==> opt_value(prev) == old(self).cell(
                loc.row as int,
                loc.col as int,
            ) && final(self).grid() == old(self).grid().update(
                cell_index(old(self).spec_n(), loc.row as int, loc.col as int),
                None::<u8>,
            ),
    {
        if !(loc.row < self.n && loc.col < self.n) {
            return Err(Error::OutOfBounds);
        }
        proof {
            lemma_cell_index_bounds(self.spec_n(), loc.row as int, loc.col as int);
        }
        let i = loc.row * self.n + loc.col;
        let prev = self.cells[i];
        self.cells.set(i, None);
        proof {
            assert(self.grid() =~= old(self).grid().update(i as int, None::<u8>));
        }
        Ok(prev)
    }

    /// Whether the live value at a location agrees with the solution grid
    /// (two empty cells agree). Display feedback only; it never blocks input.
    pub fn is_correct(&self, loc: CellLocation, solution: &Self) -> (r: Result<bool, Error>)
        requires
            self.wf(),
            solution.wf(),
        ensures
            r is Ok <==> loc.in_bounds(self.spec_n()),
            r matches Ok(c) ==> c == (self.cell(loc.row as int, loc.col as int) == solution.cell(
                loc.row as int,
                loc.col as int,
            )),
            r is Err ==> r == Err::<bool, Error>(Error::OutOfBounds),
    {
        if !(loc.row < self.n && loc.col < self.n) {
            return Err(Error::OutOfBounds);
        }
        proof {
            lemma_cell_index_bounds(self.spec_n(), loc.row as int, loc.col as int);
        }
        let i = loc.row * self.n + loc.col;
        let c = match (self.cells[i], solution.cells[i]) {
            (Some(a), Some(b)) => a.get() == b.get(),
            (None, None) => true,
            _ => false,
        };
        Ok(c)
    }

    /// How many cells currently hold a value.
    pub fn filled_count(&self) -> (r: usize)
        requires
            self.wf(),
        ensures
            r as int == count_filled(self.grid()),
    {
        let mut acc: usize = 0;
        let mut i: usize = 0;
        while i < self.cells.len()
            invariant
                i <= self.grid().len(),
                self.grid().len() == self.cells@.len(),
                acc <= i,
                acc as int == count_filled(self.grid().take(i as int)),
            decreases self.cells@.len() - i,
        {
            proof {
                assert(self.grid().take(i as int + 1).drop_last() =~= self.grid().take(i as int));
                assert(self.grid().take(i as int + 1).last() == self.grid()[i as int]);
            }
            if self.cells[i].is_some() {
                acc = acc + 1;
            }
            i = i + 1;
        }
        proof {
            assert(self.grid().take(self.grid().len() as int) =~= self.grid());
        }
        acc
    }

    /// An independent copy of this board.
    pub fn duplicate(&self) -> (r: Self)
        requires
            self.wf(),
        ensures
            r.wf(),
            r.spec_n() == self.spec_n(),
            r.grid() == self.grid(),
    {
        let mut cells: Vec<Option<Digit<T>>> = Vec::new();
        let mut i: usize = 0;
        while i < self.cells.len()
            invariant
                i <= self.cells@.len(),
                cells@.len() == i,
                forall|p: int| 0 <= p < i ==> #[trigger] cells@[p] == self.cells@[p],
            decreases self.cells@.len() - i,
        {
            cells.push(self.cells[i]);
            i = i + 1;
        }
        proof {
            assert(cells@ =~= self.cells@);
        }
        BoardState { n: self.n, cells }
    }
}

} // verus!
