//! Closed intervals of integer values.

use vstd::prelude::*;

verus! {

/// Interval of integer values.
///
/// It contains both its end points. A well-formed interval satisfies
/// `start <= end`; every constructor establishes this and every method
/// preserves it.
#[derive(Debug, Clone, Copy, PartialEq, Eq, Structural)]
pub struct Interval {
    pub start: i64,
    pub end: i64,
}

impl Interval {
    /// The interval is well formed: its start does not exceed its end.
    pub open spec fn wf(self) -> bool {
        self.start <= self.end
    }

    /// Lowest value of the interval.
    pub open spec fn min_spec(self) -> int {
        self.start as int
    }

    /// Highest value of the interval.
    pub open spec fn max_spec(self) -> int {
        self.end as int
    }

    /// A value lies within the interval (both ends belong to it).
    pub open spec fn contains_spec(self, value: int) -> bool {
        self.min_spec() <= value <= self.max_spec()
    }

    /// Two intervals have no value in common.
    pub open spec fn disjoint_spec(self, other: Interval) -> bool {
        self.max_spec() < other.min_spec() || other.max_spec() < self.min_spec()
    }

    /// Creates an interval with two end points.
    ///
    /// The order of `p1` and `p2` is not important.
    pub fn new(p1: i64, p2: i64) -> (r: Interval)
        ensures
            r.wf(),
            r.min_spec() == if p1 <= p2 { p1 as int } else { p2 as int },
            r.max_spec() == if p1 <= p2 { p2 as int } else { p1 as int },
    {
        let mut interval = Interval::singleton(p1);
        interval.extend(p2);
        interval
    }

    /// Create a singleton interval which contains just one value.
    pub fn singleton(value: i64) -> (r: Interval)
        ensures
            r.wf(),
            r.min_spec() == value as int,
            r.max_spec() == value as int,
    {
        Interval { start: value, end: value }
    }

    /// Expand an interval, if necessary, to extend another value.
    pub fn extend(&mut self, value: i64)
        requires
            old(self).wf(),
        ensures
            final(self).wf(),
            final(self).min_spec() == if (value as int) < old(self).min_spec() {
                value as int
            } else {
                old(self).min_spec()
            },
            final(self).max_spec() == if (value as int) > old(self).max_spec() {
                value as int
            } else {
                old(self).max_spec()
            },
    {
        if value < self.start {
            self.start = value;
        } else if value > self.end {
            self.end = value;
        }
    }

    /// Tests if a value is contained by this interval.
    pub fn contains(&self, value: i64) -> (r: bool)
        ensures
            r == self.contains_spec(value as int),
    {
        value >= self.start && value <= self.end
    }

    /// Tests if two intervals are completely disjoint from one another.
    pub fn disjoint(&self, other: &Interval) -> (r: bool)
        ensures
            r == self.disjoint_spec(*other),
    {
        self.end < other.start || other.end < self.start
    }

    /// Tests if two intervals overlap.
    pub fn overlaps(&self, other: &Interval) -> (r: bool)
        ensures
            r == !self.disjoint_spec(*other),
    {
        !self.disjoint(other)
    }

    /// Returns the minimum value of an interval.
    pub fn min(&self) -> (r: i64)
        ensures
            r as int == self.min_spec(),
    {
        self.start
    }

    /// Returns the maximum value of an interval.
    pub fn max(&self) -> (r: i64)
        ensures
            r as int == self.max_spec(),
    {
        self.end
    }
}

} // verus!
