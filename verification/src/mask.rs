use vstd::prelude::*;

use rand::seq::SliceRandom;

use vstd::arithmetic::div_mod::{lemma_fundamental_div_mod, lemma_mod_bound};

use crate::board::{
    count_filled, lemma_cell_index_bounds, lemma_cell_index_injective, lemma_count_filled_full,
    lemma_count_filled_update, lemma_flat_coords, BoardState,
};
use crate::digit::DigitSize;
use crate::errors::Error;
use crate::location::CellLocation;

verus! {

/// A difficulty label and, through `fill_percent`, the fraction of cells it
/// clears from a solved grid. Despite the name, a higher value removes more
/// cells: a harder, sparser puzzle.
#[derive(Clone, Copy, Debug, PartialEq, Eq, Structural)]
pub enum Difficulty {
    Easy,
    Medium,
    Hard,
    Expert,
    Extreme,
}

impl Difficulty {
    /// The fraction of cells this difficulty clears, in hundredths. Expert
    /// and Extreme sit very close; the table is preserved exactly as the
    /// game defines it.
    pub open spec fn spec_fill_percent(self) -> u8 {
        match self {
            Difficulty::Easy => 51,
            Difficulty::Medium => 58,
            Difficulty::Hard => 65,
            Difficulty::Expert => 73,
            Difficulty::Extreme => 75,
        }
    }

    /// The fraction of cells to clear, in hundredths.
    pub fn fill_percent(&self) -> (r: u8)
        ensures
            r == self.spec_fill_percent(),
    {
        match self {
            Difficulty::Easy => 51,
            Difficulty::Medium => 58,
            Difficulty::Hard => 65,
            Difficulty::Expert => 73,
            Difficulty::Extreme => 75,
        }
    }

    /// The display name of this difficulty.
    pub fn label(&self) -> (r: &'static str)
        ensures
            self is Easy ==> r@ == "Easy"@,
            self is Medium ==> r@ == "Medium"@,
            self is Hard ==> r@ == "Hard"@,
            self is Expert ==> r@ == "Expert"@,
            self is Extreme ==> r@ == "Extreme"@,
    {
        match self {
            Difficulty::Easy => "Easy",
            Difficulty::Medium => "Medium",
            Difficulty::Hard => "Hard",
            Difficulty::Expert => "Expert",
            Difficulty::Extreme => "Extreme",
        }
    }
}

/// Relies on rand 0.8's `rand::seq::SliceRandom::shuffle` with
/// `rand::thread_rng`: it reorders the slice in place by swapping elements,
/// so the new contents are exactly the old ones as a multiset. The order
/// that comes back is left open: it depends on the thread-local generator.
#[verifier::external_body]
fn shuffle_locations(v: &mut Vec<CellLocation>)
    ensures
        final(v)@.to_multiset() == old(v)@.to_multiset(),
{
    v.shuffle(&mut rand::thread_rng());
}

/// Every location of an n-by-n board, row-major: n*n distinct in-bounds
/// cells.
fn all_locations(n: usize) -> (r: Vec<CellLocation>)
    requires
        1 <= n <= 25,
    ensures
        r@.len() == n * n,
        r@.no_duplicates(),
        forall|i: int| 0 <= i < r@.len() ==> (#[trigger] r@[i]).in_bounds(n as int),
{
    proof {
        assert((n as int) * (n as int) <= 625) by (nonlinear_arith)
            requires
                0 <= n <= 25,
        ;
    }
    let total = n * n;
    let mut out: Vec<CellLocation> = Vec::new();
    let mut i: usize = 0;
    while i < total
        invariant
            1 <= n <= 25,
            total == n * n,
            i <= total,
            out@.len() == i,
            forall|p: int|
                0 <= p < i ==> (#[trigger] out@[p]).row as int == p / (n as int) && out@[p].col
                    as int == p % (n as int),
            forall|p: int| 0 <= p < i ==> (#[trigger] out@[p]).in_bounds(n as int),
        decreases total - i,
    {
        proof {
            lemma_flat_coords(n as int, i as int);
        }
        let row = i / n;
        let col = i % n;
        out.push(CellLocation { row, col });
        i = i + 1;
    }
    proof {
        assert forall|p: int, q: int|
            0 <= p < out@.len() && 0 <= q < out@.len() && p != q implies out@[p] != out@[q] by {
            if out@[p] == out@[q] {
                lemma_fundamental_div_mod(p, n as int);
                lemma_fundamental_div_mod(q, n as int);
            }
        }
        assert(out@.no_duplicates());
    }
    out
}

/// The pure masking step that turns a solved grid into a playable puzzle by
/// clearing a randomly chosen subset of cells of a fixed size.
pub struct DifficultyMask;

impl DifficultyMask {
    /// How many cells a mask clears from an n-by-n board:
    /// floor(n·n·percent/100), computed once, truncating.
    pub open spec fn spec_clear_count(n: int, percent: int) -> int {
        n * n * percent / 100
    }

    /// Clear a uniformly chosen set of floor(N²·percent/100) cells of a
    /// fully filled board; every other cell keeps its solved value. Which
    /// cells are cleared varies from call to call; how many never does.
    pub fn apply<T: DigitSize>(solved: &BoardState<T>, percent: u8) -> (r: Result<
        BoardState<T>,
        Error,
    >)
        requires
            solved.wf(),
            forall|i: int| 0 <= i < solved.grid().len() ==> (#[trigger] solved.grid()[i]) is Some,
        ensures
            r == Err::<BoardState<T>, Error>(Error::EmptyBoard) <==> solved.spec_n() == 0,
            r == Err::<BoardState<T>, Error>(Error::InvalidDifficulty) <==> solved.spec_n() != 0
                && (percent == 0 || percent >= 100),
            r is Ok <==> solved.spec_n() != 0 && 0 < percent < 100,
            r matches Ok(b) ==> {
                &&& b.wf()
                &&& b.spec_n() == solved.spec_n()
                &&& b.grid().len() == solved.grid().len()
                &&& count_filled(b.grid()) == solved.grid().len() - Self::spec_clear_count(
                    solved.spec_n(),
                    percent as int,
                )
                &&& forall|i: int|
                    0 <= i < b.grid().len() ==> ((#[trigger] b.grid()[i]) is Some ==> b.grid()[i]
                        == solved.grid()[i])
            },
    {
        let n = solved.size();
        if n == 0 {
            return Err(Error::EmptyBoard);
        }
        if percent == 0 || percent >= 100 {
            return Err(Error::InvalidDifficulty);
        }
        proof {
            T::max_supported();
        }
        let mut order = all_locations(n);
        proof {
            broadcast use vstd::seq_lib::group_to_multiset_ensures;

            order@.lemma_multiset_has_no_duplicates();
        }
        let ghost g_before = order@;
        shuffle_locations(&mut order);
        proof {
            broadcast use vstd::seq_lib::group_to_multiset_ensures;

            assert(order@.to_multiset().len() == g_before.to_multiset().len());
            assert(order@.len() == g_before.len());
            assert forall|x: CellLocation|
                order@.to_multiset().contains(x) implies order@.to_multiset().count(x) == 1 by {
                assert(g_before.to_multiset().count(x) == 1);
            }
            order@.lemma_multiset_has_no_duplicates_conv();
            assert forall|i: int|
                0 <= i < order@.len() implies (#[trigger] order@[i]).in_bounds(n as int) by {
                assert(order@.to_multiset().count(order@[i]) > 0);
                assert(g_before.contains(order@[i]));
            }
        }
        proof {
            assert((n as int) * (n as int) <= 625 && (n as int) * (n as int) * (percent as int)
                <= 61875) by (nonlinear_arith)
                requires
                    0 <= n <= 25,
                    0 <= percent <= 99,
            ;
        }
        let total = n * n;
        let k = total * (percent as usize) / 100;
        proof {
            let a = (total as int) * (percent as int);
            lemma_fundamental_div_mod(a, 100);
            lemma_mod_bound(a, 100);
            assert(a <= 99 * (total as int)) by (nonlinear_arith)
                requires
                    percent <= 99,
                    0 <= total,
                    a == (total as int) * (percent as int),
            ;
            assert(k as int == Self::spec_clear_count(n as int, percent as int));
            assert(k < total);
        }
        let mut b = solved.duplicate();
        proof {
            lemma_count_filled_full(b.grid());
            assert forall|j: int|
                0 <= j < order@.len() implies b.cell(
                order@[j].row as int,
                order@[j].col as int,
            ) is Some by {
                lemma_cell_index_bounds(n as int, order@[j].row as int, order@[j].col as int);
            }
        }
        let mut i: usize = 0;
        while i < k
            invariant
                i <= k,
                1 <= n <= 25,
                k <= order@.len(),
                solved.wf(),
                n as int == solved.spec_n(),
                forall|p: int|
                    0 <= p < solved.grid().len() ==> (#[trigger] solved.grid()[p]) is Some,
                order@.len() == n * n,
                order@.no_duplicates(),
                forall|p: int| 0 <= p < order@.len() ==> (#[trigger] order@[p]).in_bounds(n as int),
                b.wf(),
                b.spec_n() == solved.spec_n(),
                b.grid().len() == solved.grid().len(),
                count_filled(b.grid()) == solved.grid().len() - i,
                forall|p: int|
                    0 <= p < b.grid().len() ==> ((#[trigger] b.grid()[p]) is Some ==> b.grid()[p]
                        == solved.grid()[p]),
                forall|j: int|
                    i <= j < order@.len() ==> b.cell(
                        (#[trigger] order@[j]).row as int,
                        order@[j].col as int,
                    ) is Some,
            decreases k - i,
        {
            let loc = order[i];
            let ghost g_pre = b.grid();
            let ghost g_idx = crate::board::cell_index(n as int, loc.row as int, loc.col as int);
            proof {
                lemma_cell_index_bounds(n as int, loc.row as int, loc.col as int);
            }
            let _ = b.unset(loc);
            proof {
                lemma_count_filled_update(g_pre, g_idx, None::<u8>);
                assert forall|j: int|
                    i + 1 <= j < order@.len() implies b.cell(
                    (#[trigger] order@[j]).row as int,
                    order@[j].col as int,
                ) is Some by {
                    lemma_cell_index_bounds(n as int, order@[j].row as int, order@[j].col as int);
                    if crate::board::cell_index(n as int, order@[j].row as int, order@[j].col as int)
                        == g_idx {
                        lemma_cell_index_injective(
                            n as int,
                            order@[j].row as int,
                            order@[j].col as int,
                            loc.row as int,
                            loc.col as int,
                        );
                        assert(order@[j] == order@[i as int]);
                        assert(false);
                    }
                }
            }
            i = i + 1;
        }
        Ok(b)
    }
}

} // verus!
