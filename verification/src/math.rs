//! Ranges of scalars, and clamping to one.

use vstd::prelude::*;
use crate::scalar::Scalar;

verus! {

/// A half-open range of scalars: from `start`, up to but without `end`.
#[derive(Clone, Copy, Debug)]
pub struct Span {
    pub start: Scalar,
    pub end: Scalar,
}

impl Span {
    /// Whether `x` lies in the range: `start <= x` and `x < end`. No NaN lies
    /// in any range, and no number lies in a range with a NaN for a bound.
    pub open spec fn holds(self, x: Scalar) -> bool {
        self.start.at_most(x) && x.less(self.end)
    }

    /// The range from `start` up to `end`.
    pub fn new(start: Scalar, end: Scalar) -> (r: Span)
        ensures
            r.start == start,
            r.end == end,
    {
        Span { start, end }
    }

    /// Whether `x` lies in the range.
    pub fn contains(&self, x: Scalar) -> (r: bool)
        ensures
            r == self.holds(x),
    {
        self.start.le(x) && x.lt(self.end)
    }
}

/// What `clamp` returns: the bound that `n` is beyond, else `n` itself. The
/// lower bound is tried first. A NaN is beyond neither bound and comes back
/// as it is.
pub open spec fn clamped(n: Scalar, range: Span) -> Scalar {
    if n.less(range.start) {
        range.start
    } else if range.end.less(n) {
        range.end
    } else {
        n
    }
}

/// Holds `n` to the range, both bounds included.
pub fn clamp(n: Scalar, range: Span) -> (r: Scalar)
    ensures
        r == clamped(n, range),
{
    if n.lt(range.start) {
        return range.start;
    }
    if n.gt(range.end) {
        return range.end;
    }
    n
}

/// Where the bounds are numbers in order, clamping a number gives a number
/// between them, and leaves alone one that is between them already.
pub proof fn lemma_clamp_within(n: Scalar, range: Span)
    requires
        range.start.at_most(range.end),
        !n.nan(),
    ensures
        range.start.at_most(clamped(n, range)),
        clamped(n, range).at_most(range.end),
        range.start.at_most(n) && n.at_most(range.end) ==> clamped(n, range) == n,
{
}

} // verus!
