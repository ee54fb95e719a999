//! Overlap of half-open ranges.

use std::ops::Range;
use vstd::prelude::*;

verus! {

/// Whether position `i` lies in `r`.
pub open spec fn holds(r: Range<usize>, i: int) -> bool {
    r.start <= i < r.end
}

/// Extension trait for `Range` to check for overlap
pub trait ExtRange<T> {
    /// Whether some position lies in both ranges.
    spec fn overlaps(&self, other: &Range<T>) -> bool;

    // Returns true if 2 ranges are overlapping
    fn is_overlapping(&self, other: &Range<T>) -> (r: bool)
        ensures
            r == self.overlaps(other),
    ;
}

impl ExtRange<usize> for Range<usize> {
    open spec fn overlaps(&self, other: &Range<usize>) -> bool {
        exists|i: int| #[trigger] holds(*self, i) && holds(*other, i)
    }

    fn is_overlapping(&self, other: &Range<usize>) -> (r: bool) {
        let low: usize = if self.start >= other.start {
            self.start
        } else {
            other.start
        };
        let high: usize = if self.end <= other.end {
            self.end
        } else {
            other.end
        };
        proof {
            if low < high {
                assert(holds(*self, low as int) && holds(*other, low as int));
            }
        }
        low < high
    }
}

} // verus!
