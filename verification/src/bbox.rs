//! Axis-aligned bounding boxes.

use vstd::prelude::*;

use crate::interval::Interval;
use crate::types::P2;

verus! {

/// Axis-aligned bounding box: one closed interval per axis.
#[derive(Debug, Clone, Copy, PartialEq, Eq, Structural)]
pub struct Bbox {
    pub x_interval: Interval,
    pub y_interval: Interval,
}

/// Least x coordinate among a non-empty sequence of points.
pub open spec fn min_x_of(s: Seq<P2>) -> int
    recommends
        s.len() >= 1,
    decreases s.len(),
{
    if s.len() <= 1 {
        s[0].x as int
    } else if (s.last().x as int) < min_x_of(s.drop_last()) {
        s.last().x as int
    } else {
        min_x_of(s.drop_last())
    }
}

/// Greatest x coordinate among a non-empty sequence of points.
pub open spec fn max_x_of(s: Seq<P2>) -> int
    recommends
        s.len() >= 1,
    decreases s.len(),
{
    if s.len() <= 1 {
        s[0].x as int
    } else if (s.last().x as int) > max_x_of(s.drop_last()) {
        s.last().x as int
    } else {
        max_x_of(s.drop_last())
    }
}

/// Least y coordinate among a non-empty sequence of points.
pub open spec fn min_y_of(s: Seq<P2>) -> int
    recommends
        s.len() >= 1,
    decreases s.len(),
{
    if s.len() <= 1 {
        s[0].y as int
    } else if (s.last().y as int) < min_y_of(s.drop_last()) {
        s.last().y as int
    } else {
        min_y_of(s.drop_last())
    }
}

/// Greatest y coordinate among a non-empty sequence of points.
pub open spec fn max_y_of(s: Seq<P2>) -> int
    recommends
        s.len() >= 1,
    decreases s.len(),
{
    if s.len() <= 1 {
        s[0].y as int
    } else if (s.last().y as int) > max_y_of(s.drop_last()) {
        s.last().y as int
    } else {
        max_y_of(s.drop_last())
    }
}

/// The bounding values of a point sequence stay within any bound that all
/// the points' coordinates satisfy.
pub proof fn lemma_bbox_bounds(s: Seq<P2>, b: int)
    requires
        s.len() >= 1,
        forall|i: int|
            0 <= i < s.len() ==> -b <= (#[trigger] s[i]).x as int <= b && -b <= s[i].y as int <= b,
    ensures
        -b <= min_x_of(s) <= b,
        -b <= max_x_of(s) <= b,
        -b <= min_y_of(s) <= b,
        -b <= max_y_of(s) <= b,
    decreases s.len(),
{
    if s.len() > 1 {
        lemma_bbox_bounds(s.drop_last(), b);
    }
}

/// The low bounding values never exceed the high ones.
pub proof fn lemma_min_le_max(s: Seq<P2>)
    requires
        s.len() >= 1,
    ensures
        min_x_of(s) <= max_x_of(s),
        min_y_of(s) <= max_y_of(s),
    decreases s.len(),
{
    if s.len() > 1 {
        lemma_min_le_max(s.drop_last());
    }
}

impl Bbox {
    /// Both axis intervals are well formed.
    pub open spec fn wf(self) -> bool {
        self.x_interval.wf() && self.y_interval.wf()
    }

    pub open spec fn min_x_spec(self) -> int {
        self.x_interval.min_spec()
    }

    pub open spec fn max_x_spec(self) -> int {
        self.x_interval.max_spec()
    }

    pub open spec fn min_y_spec(self) -> int {
        self.y_interval.min_spec()
    }

    pub open spec fn max_y_spec(self) -> int {
        self.y_interval.max_spec()
    }

    /// The box is exactly the bounding box of the given non-empty point set.
    pub open spec fn is_bbox_of(self, s: Seq<P2>) -> bool {
        &&& self.min_x_spec() == min_x_of(s)
        &&& self.max_x_spec() == max_x_of(s)
        &&& self.min_y_spec() == min_y_of(s)
        &&& self.max_y_spec() == max_y_of(s)
    }

    /// A point lies within the box (edges belong to the box).
    pub open spec fn contains_spec(self, point: P2) -> bool {
        self.x_interval.contains_spec(point.x as int) && self.y_interval.contains_spec(
            point.y as int,
        )
    }

    /// Two boxes have no point in common.
    pub open spec fn disjoint_spec(self, other: Bbox) -> bool {
        self.x_interval.disjoint_spec(other.x_interval) || self.y_interval.disjoint_spec(
            other.y_interval,
        )
    }

    /// Creates a bounding box containing all points of a vector.
    ///
    /// If the vector is empty, `None` is returned.
    pub fn extending(points: &Vec<P2>) -> (r: Option<Bbox>)
        ensures
            r is Some <==> points@.len() >= 1,
            r is Some ==> r->Some_0.wf() && r->Some_0.is_bbox_of(points@),
    {
        if points.len() == 0 {
            return None;
        }
        let mut bbox = Bbox::singleton(points[0]);
        let mut i: usize = 1;
        while i < points.len()
            invariant
                1 <= i <= points@.len(),
                bbox.wf(),
                bbox.is_bbox_of(points@.subrange(0, i as int)),
            decreases points@.len() - i,
        {
            proof {
                assert(points@.subrange(0, i + 1).drop_last() =~= points@.subrange(0, i as int));
            }
            bbox.extend(points[i]);
            i += 1;
        }
        proof {
            assert(points@.subrange(0, points@.len() as int) =~= points@);
        }
        Some(bbox)
    }

    /// Creates a singleton bounding box containing just one point.
    pub fn singleton(point: P2) -> (r: Bbox)
        ensures
            r.wf(),
            r.is_bbox_of(seq![point]),
            r.min_x_spec() == point.x as int,
            r.max_x_spec() == point.x as int,
            r.min_y_spec() == point.y as int,
            r.max_y_spec() == point.y as int,
    {
        Bbox { x_interval: Interval::singleton(point.x), y_interval: Interval::singleton(point.y) }
    }

    /// Expands a bounding box, if necessary, to extend a point.
    pub fn extend(&mut self, point: P2)
        requires
            old(self).wf(),
        ensures
            final(self).wf(),
            final(self).min_x_spec() == if (point.x as int) < old(self).min_x_spec() {
                point.x as int
            } else {
                old(self).min_x_spec()
            },
            final(self).max_x_spec() == if (point.x as int) > old(self).max_x_spec() {
                point.x as int
            } else {
                old(self).max_x_spec()
            },
            final(self).min_y_spec() == if (point.y as int) < old(self).min_y_spec() {
                point.y as int
            } else {
                old(self).min_y_spec()
            },
            final(self).max_y_spec() == if (point.y as int) > old(self).max_y_spec() {
                point.y as int
            } else {
                old(self).max_y_spec()
            },
    {
        self.x_interval.extend(point.x);
        self.y_interval.extend(point.y);
    }

    /// Tests whether this bounding box contains a point.
    pub fn contains(&self, point: P2) -> (r: bool)
        ensures
            r == self.contains_spec(point),
    {
        self.x_interval.contains(point.x) && self.y_interval.contains(point.y)
    }

    /// Tests whether this bounding box overlaps another bounding box.
    pub fn overlaps(&self, other: &Bbox) -> (r: bool)
        ensures
            r == !self.disjoint_spec(*other),
    {
        self.x_interval.overlaps(&other.x_interval) && self.y_interval.overlaps(&other.y_interval)
    }

    /// Tests whether this bounding box is disjoint from another bounding box.
    pub fn disjoint(&self, other: &Bbox) -> (r: bool)
        ensures
            r == self.disjoint_spec(*other),
    {
        !self.overlaps(other)
    }

    /// Returns the minimum x value of the bounding box.
    pub fn min_x(&self) -> (r: i64)
        ensures
            r as int == self.min_x_spec(),
    {
        self.x_interval.min()
    }

    /// Returns the maximum x value of the bounding box.
    pub fn max_x(&self) -> (r: i64)
        ensures
            r as int == self.max_x_spec(),
    {
        self.x_interval.max()
    }

    /// Returns the minimum y value of the bounding box.
    pub fn min_y(&self) -> (r: i64)
        ensures
            r as int == self.min_y_spec(),
    {
        self.y_interval.min()
    }

    /// Returns the maximum y value of the bounding box.
    pub fn max_y(&self) -> (r: i64)
        ensures
            r as int == self.max_y_spec(),
    {
        self.y_interval.max()
    }
}

} // verus!
