use vstd::prelude::*;

verus! {

/// Marker for a supported board size. A size knows its largest digit, and the
/// supported sizes are exactly the four square boards: 4, 9, 16 and 25.
pub trait DigitSize: Sized + Copy {
    /// The largest digit a cell of this size may hold.
    spec fn spec_max() -> u8;

    /// Every size that implements this trait is one of the four supported
    /// square board sizes.
    proof fn max_supported()
        ensures
            Self::spec_max() == 4 || Self::spec_max() == 9 || Self::spec_max() == 16
                || Self::spec_max() == 25,
    ;

    fn max_digit() -> (r: u8)
        ensures
            r == Self::spec_max(),
    ;

    fn create() -> Self;
}

#[derive(Clone, Copy, Debug)]
pub struct Four;

#[derive(Clone, Copy, Debug)]
pub struct Nine;

#[derive(Clone, Copy, Debug)]
pub struct Sixteen;

#[derive(Clone, Copy, Debug)]
pub struct TwentyFive;

impl DigitSize for Four {
    open spec fn spec_max() -> u8 {
        4
    }

    proof fn max_supported() {
    }

    fn max_digit() -> u8 {
        4
    }

    fn create() -> Self {
        Four
    }
}

impl DigitSize for Nine {
    open spec fn spec_max() -> u8 {
        9
    }

    proof fn max_supported() {
    }

    fn max_digit() -> u8 {
        9
    }

    fn create() -> Self {
        Nine
    }
}

impl DigitSize for Sixteen {
    open spec fn spec_max() -> u8 {
        16
    }

    proof fn max_supported() {
    }

    fn max_digit() -> u8 {
        16
    }

    fn create() -> Self {
        Sixteen
    }
}

impl DigitSize for TwentyFive {
    open spec fn spec_max() -> u8 {
        25
    }

    proof fn max_supported() {
    }

    fn max_digit() -> u8 {
        25
    }

    fn create() -> Self {
        TwentyFive
    }
}

/// A digit for a board of size `T`: a value that is always within `[1,
/// T::spec_max()]`. The validating constructors are the only way to obtain
/// one, so a board cell can never hold an out-of-range value.
#[derive(Clone, Copy, Debug)]
pub struct Digit<T: DigitSize>(u8, T);

impl<T: DigitSize> Digit<T> {
    /// The 1-based numeric value this digit stands for.
    pub closed spec fn value(self) -> u8 {
        self.0
    }

    /// A digit is well formed when its value lies in `[1, max_digit]`.
    pub open spec fn wf(self) -> bool {
        1 <= self.value() <= T::spec_max()
    }

    /// Build a digit from a value already known to be in range.
    pub fn new(digit: u8) -> (r: Self)
        requires
            1 <= digit <= T::spec_max(),
        ensures
            r.value() == digit,
            r.wf(),
    {
        Self::new_checked(digit).unwrap()
    }

    /// Validating factory: succeeds exactly on the values in `[1, max_digit]`.
    pub fn new_checked(digit: u8) -> (r: Option<Self>)
        ensures
            r is Some <==> 1 <= digit <= T::spec_max(),
            r matches Some(d) ==> d.value() == digit && d.wf(),
    {
        if digit > T::max_digit() {
            return None;
        }
        if digit == 0 {
            return None;
        }
        Some(Digit(digit, T::create()))
    }

    /// Build a digit from a zero-based index, as used for candidate arrays:
    /// index `idx` stands for digit `idx + 1`.
    pub fn from_index(idx: u8) -> (r: Self)
        requires
            idx < T::spec_max(),
        ensures
            r.value() == idx + 1,
            r.wf(),
    {
        Self::new_checked(idx + 1).unwrap()
    }

    /// Every legal digit for this size, in ascending order: exactly
    /// `max_digit` values, the one at position `i` holding `i + 1`.
    pub fn all() -> (r: Vec<Self>)
        ensures
            r@.len() == T::spec_max(),
            forall|i: int| 0 <= i < r@.len() ==> (#[trigger] r@[i]).value() == i + 1,
            forall|i: int| 0 <= i < r@.len() ==> (#[trigger] r@[i]).wf(),
    {
        proof {
            T::max_supported();
        }
        let max = T::max_digit();
        let mut out: Vec<Self> = Vec::new();
        let mut d: u8 = 1;
        while d <= max
            invariant
                max == T::spec_max(),
                max <= 25,
                1 <= d <= max + 1,
                out@.len() == d - 1,
                forall|i: int| 0 <= i < out@.len() ==> (#[trigger] out@[i]).value() == i + 1,
                forall|i: int| 0 <= i < out@.len() ==> (#[trigger] out@[i]).wf(),
            decreases max + 1 - d,
        {
            out.push(Self::new(d));
            d = d + 1;
        }
        out
    }

    /// The 1-based value.
    pub fn get(self) -> (r: u8)
        ensures
            r == self.value(),
    {
        self.0
    }

    /// The zero-based index of this digit, for indexing candidate arrays.
    pub fn as_index(self) -> (r: usize)
        requires
            self.wf(),
        ensures
            r == self.value() - 1,
    {
        (self.0 - 1) as usize
    }
}

} // verus!
