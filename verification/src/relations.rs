use vstd::prelude::*;

use crate::errors::Error;
use crate::location::CellLocation;

verus! {

/// The square of a candidate box side.
pub open spec fn sq(s: int) -> int {
    s * s
}

/// A dimension has box geometry exactly when it is a perfect square.
pub open spec fn is_perfect_square(n: int) -> bool {
    exists|s: int| 0 <= s && #[trigger] sq(s) == n
}

/// The box side of a perfect-square dimension: its nonnegative square root.
pub open spec fn spec_box_side(n: int) -> int {
    choose|s: int| 0 <= s && #[trigger] sq(s) == n
}

/// The (box row, box column) pair of a location, for a given box side.
pub open spec fn spec_box_of(loc: CellLocation, side: int) -> (int, int) {
    (loc.row as int / side, loc.col as int / side)
}

/// Two cells are peers when they share a row, a column, or a box.
pub open spec fn spec_is_peer(a: CellLocation, b: CellLocation, side: int) -> bool {
    a.row == b.row || a.col == b.col || spec_box_of(a, side) == spec_box_of(b, side)
}

proof fn lemma_sqrt_unique(a: int, b: int)
    requires
        0 <= a,
        0 <= b,
        sq(a) == sq(b),
    ensures
        a == b,
{
    assert(a == b) by (nonlinear_arith)
        requires
            0 <= a,
            0 <= b,
            a * a == b * b,
    ;
}

/// Peer-ness is reflexive and symmetric; two cells sharing a row, a column
/// or a box are peers, and two cells sharing none of the three are not.
pub proof fn lemma_is_peer_properties(a: CellLocation, b: CellLocation, side: int)
    requires
        side >= 1,
    ensures
        spec_is_peer(a, a, side),
        spec_is_peer(a, b, side) == spec_is_peer(b, a, side),
        a.row == b.row ==> spec_is_peer(a, b, side),
        a.col == b.col ==> spec_is_peer(a, b, side),
        spec_box_of(a, side) == spec_box_of(b, side) ==> spec_is_peer(a, b, side),
        a.row != b.row && a.col != b.col && spec_box_of(a, side) != spec_box_of(b, side)
            ==> !spec_is_peer(a, b, side),
{
}

/// Pure queries deriving row, column and box relations between cells, used
/// for selection highlighting. It owns no state.
pub struct RelationResolver;

impl RelationResolver {
    /// The side of a box: the square root of the dimension, defined only for
    /// a positive perfect square (a zero side would leave no box geometry).
    pub fn box_side(n: u8) -> (r: Result<u8, Error>)
        ensures
            r is Ok <==> is_perfect_square(n as int) && n >= 1,
            r matches Ok(s) ==> 1 <= s && sq(s as int) == n as int && s as int == spec_box_side(
                n as int,
            ),
            r is Err ==> r == Err::<u8, Error>(Error::UndefinedBoxGeometry),
    {
        if n == 0 {
            return Err(Error::UndefinedBoxGeometry);
        }
        proof {
            assert(sq(0) == 0);
        }
        let mut s: u8 = 1;
        while s <= 15
            invariant
                1 <= s <= 16,
                n >= 1,
                forall|t: int| 0 <= t < s ==> #[trigger] sq(t) != n as int,
            decreases 16 - s,
        {
            proof {
                assert((s as int) * (s as int) <= 225) by (nonlinear_arith)
                    requires
                        0 <= s <= 15,
                ;
            }
            if s * s == n {
                proof {
                    assert(sq(s as int) == n as int);
                    assert(is_perfect_square(n as int));
                    let t0 = spec_box_side(n as int);
                    assert(0 <= t0 && sq(t0) == n as int);
                    lemma_sqrt_unique(t0, s as int);
                }
                return Ok(s);
            }
            s = s + 1;
        }
        proof {
            assert forall|t: int| 0 <= t implies #[trigger] sq(t) != n as int by {
                if t >= 16 {
                    assert(sq(t) >= 256) by (nonlinear_arith)
                        requires
                            t >= 16,
                    ;
                }
            }
        }
        Err(Error::UndefinedBoxGeometry)
    }

    /// The (box row, box column) of a cell: integer division by the box side.
    pub fn box_of(loc: CellLocation, n: u8) -> (r: Result<(usize, usize), Error>)
        ensures
            r is Ok <==> is_perfect_square(n as int) && n >= 1,
            r matches Ok(bc) ==> (bc.0 as int, bc.1 as int) == spec_box_of(
                loc,
                spec_box_side(n as int),
            ),
            r is Err ==> r == Err::<(usize, usize), Error>(Error::UndefinedBoxGeometry),
    {
        let side = match Self::box_side(n) {
            Ok(s) => s,
            Err(e) => {
                return Err(e);
            },
        };
        Ok((loc.row / (side as usize), loc.col / (side as usize)))
    }

    /// Whether two cells are peers: same row, same column, or same box. A
    /// cell is a peer of itself; a caller highlighting peers distinguishes
    /// the selected cell before asking.
    pub fn is_peer(a: CellLocation, b: CellLocation, n: u8) -> (r: Result<bool, Error>)
        ensures
            r is Ok <==> is_perfect_square(n as int) && n >= 1,
            r matches Ok(p) ==> p == spec_is_peer(a, b, spec_box_side(n as int)),
            r is Err ==> r == Err::<bool, Error>(Error::UndefinedBoxGeometry),
    {
        let side = match Self::box_side(n) {
            Ok(s) => s,
            Err(e) => {
                return Err(e);
            },
        };
        let sd = side as usize;
        Ok(a.row == b.row || a.col == b.col || (a.row / sd == b.row / sd && a.col / sd == b.col
            / sd))
    }
}

} // verus!
