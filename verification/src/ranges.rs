//! Byte ranges selected for hashing.

use vstd::prelude::*;

verus! {

/// A half-open byte interval `[offset, offset + length)` of a file,
/// designated for inclusion in (or exclusion from) a content digest.
#[derive(Clone, Copy, Debug, PartialEq, Eq, Structural)]
pub struct HashRange {
    pub offset: u64,
    pub length: u64,
}

impl HashRange {
    pub fn new(offset: u64, length: u64) -> (r: HashRange)
        ensures
            r.offset == offset,
            r.length == length,
    {
        HashRange { offset, length }
    }

    /// One past the last byte of the interval.
    pub open spec fn spec_end(self) -> int {
        self.offset + self.length
    }
}

/// An ordered list of ranges is well formed when every range is
/// non-empty and the ranges are pairwise disjoint and produced in
/// strictly increasing offset order.
pub open spec fn ranges_wf(rs: Seq<HashRange>) -> bool {
    &&& forall|i: int| 0 <= i < rs.len() ==> #[trigger] rs[i].length > 0
    &&& forall|i: int, j: int|
        0 <= i < j < rs.len() ==> #[trigger] rs[i].spec_end() <= #[trigger] rs[j].offset as int
}

} // verus!
