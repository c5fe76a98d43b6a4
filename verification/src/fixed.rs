//! Exact decimal numbers with eight digits after the point.

use vstd::prelude::*;

verus! {

/// Raw units in one whole: a raw value `r` stands for the number `r / SCALE`.
pub const SCALE: i64 = 100_000_000;

/// Digits after the decimal point that a [`Fixed`] keeps.
pub const FRACTION_DIGITS: usize = 8;

/// A decimal number, held as a count of hundred-millionths.
///
/// The view of a value is that count as a mathematical integer; all contracts of the crate
/// compare and combine views, so they are statements of exact arithmetic.
#[derive(Clone, Copy, Debug, PartialEq, Eq, Structural)]
pub struct Fixed {
    pub raw: i64,
}

impl View for Fixed {
    type V = int;

    open spec fn view(&self) -> int {
        self.raw as int
    }
}

impl Fixed {
    /// The number that `raw` hundred-millionths make.
    pub fn from_raw(raw: i64) -> (r: Fixed)
        ensures
            r@ == raw,
    {
        Fixed { raw }
    }

    /// The larger of two numbers.
    pub fn max(self, other: Fixed) -> (r: Fixed)
        ensures
            r@ == if self@ >= other@ { self@ } else { other@ },
    {
        if self.raw >= other.raw {
            self
        } else {
            other
        }
    }

    /// The smaller of two numbers.
    pub fn min(self, other: Fixed) -> (r: Fixed)
        ensures
            r@ == if self@ <= other@ { self@ } else { other@ },
    {
        if self.raw <= other.raw {
            self
        } else {
            other
        }
    }
}

} // verus!
