//! A counter over `0..END` with the end baked into the type, used to drive
//! index-ascending enumerations.

use vstd::prelude::*;

verus! {

/// A cursor walking from `start` up to the constant bound `END`.
pub struct Range<const END: usize> {
    pub start: usize,
}

impl<const END: usize> Range<END> {
    /// A cursor beginning at `start`.
    pub fn new(start: usize) -> (r: Self)
        ensures
            r.start == start,
    {
        Range { start }
    }

    /// The bound the cursor stops at.
    pub fn end(&self) -> (r: usize)
        ensures
            r == END,
    {
        END
    }

    /// The next counter value, or `None` once the bound is reached.
    pub fn next(&mut self) -> (r: Option<usize>)
        ensures
            match r {
                Some(value) => old(self).start < END && value == old(self).start && final(self).start == old(self).start + 1,
                None => old(self).start >= END && *final(self) == *old(self),
            },
    {
        if self.start < END {
            let value = self.start;
            self.start = self.start + 1;
            Some(value)
        } else {
            None
        }
    }
}

} // verus!
