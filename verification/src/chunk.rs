//! Inclusive byte ranges: the unit of work for one ranged fetch.

use vstd::prelude::*;

use crate::text::{dec_rep, u64_to_decimal};

verus! {

/// An inclusive byte range `[start, end]` of the target file.
#[derive(Debug, Copy, Clone, PartialEq, Eq, Structural)]
pub struct ChunkRange {
    pub start: u64,
    pub end: u64,
}

/// The text of an HTTP `Range` value for an inclusive range: `"start-end"`.
pub open spec fn range_value_of(r: ChunkRange) -> Seq<char> {
    dec_rep(r.start as int) + seq!['-'] + dec_rep(r.end as int)
}

impl ChunkRange {
    /// Well-formed: `end` is at least `start`, so the range holds at least
    /// one byte, and its length fits in `u64`.
    pub open spec fn wf(self) -> bool {
        self.start <= self.end && self.end - self.start < u64::MAX
    }

    /// Number of bytes the range covers.
    pub open spec fn spec_len(self) -> int {
        self.end - self.start + 1
    }

    pub fn new(start: u64, end: u64) -> (r: Self)
        requires
            start <= end,
        ensures
            r.start == start,
            r.end == end,
    {
        Self { start, end }
    }

    pub fn len(&self) -> (n: u64)
        requires
            self.wf(),
        ensures
            n == self.spec_len(),
    {
        (self.end - self.start) + 1
    }

    pub fn from_len(start: u64, len: u64) -> (r: Self)
        requires
            len >= 1,
            start + len - 1 <= u64::MAX,
        ensures
            r.start == start,
            r.end == start + len - 1,
            r.wf(),
            r.spec_len() == len,
    {
        Self { start, end: start + (len - 1) }
    }

    /// The range as an HTTP `Range` value, `"start-end"`.
    pub fn range_value(&self) -> (s: String)
        ensures
            s@ == range_value_of(*self),
    {
        proof {
            reveal_strlit("-");
        }
        let mut s = u64_to_decimal(self.start);
        s.append("-");
        s.append(u64_to_decimal(self.end).as_str());
        proof {
            assert(s@ =~= range_value_of(*self));
        }
        s
    }
}

} // verus!
