//! A closed span of shutter time.

use vstd::prelude::*;

verus! {

/// A point in time, as a fixed-point scalar.
pub type Timestamp = i64;

/// A span of time, from `start` to `end`.
#[derive(Copy, Clone, Debug, PartialEq, Eq, Structural)]
pub struct Interval {
    start: Timestamp,
    end: Timestamp,
}

impl Interval {
    pub closed spec fn start_s(self) -> int {
        self.start as int
    }

    pub closed spec fn end_s(self) -> int {
        self.end as int
    }

    pub fn new(start: Timestamp, end: Timestamp) -> (r: Self)
        ensures
            r.start_s() == start as int,
            r.end_s() == end as int,
    {
        Self { start, end }
    }

    pub fn start(&self) -> (r: Timestamp)
        ensures
            r as int == self.start_s(),
    {
        self.start
    }

    pub fn end(&self) -> (r: Timestamp)
        ensures
            r as int == self.end_s(),
    {
        self.end
    }
}

} // verus!
