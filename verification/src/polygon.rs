//! 2D polygons: edges, separating-axis projection, simplicity and convexity.

use vstd::prelude::*;

use crate::bbox::Bbox;
use crate::interval::Interval;
use crate::line::intersection_spec;
use crate::line::Line;
use crate::types::coord_in;
use crate::types::cross_spec;
use crate::types::dot_spec;
use crate::types::rot90_spec;
use crate::types::sqdist_spec;
use crate::types::sub_pp_spec;
use crate::types::valid_coord;
use crate::line::trunc_div;
use crate::types::MAX_COORD;
use crate::types::P2;
use crate::types::V2;
use crate::types::VERT_BOUND;

verus! {

/// Orientation of a turn between two consecutive polygon edges.
#[derive(Debug, Clone, Copy, PartialEq, Eq, Structural)]
pub enum Winding {
    /// The outgoing edge turns clockwise (negative cross product).
    Clockwise,
    /// The outgoing edge turns anti-clockwise (positive cross product).
    Anticlockwise,
}

/// Closed polygon.
///
/// A polygon contains an ordered sequence of points, which are connected by
/// straight lines. The last point of the polygon is also connected to the
/// first point by a straight line.
///
/// To construct a Polygon, use [`Polygon::new`].
#[derive(Debug, Clone, PartialEq, Eq)]
pub struct Polygon {
    /// Vertices of the polygon.
    pub vertices: Vec<P2>,
}

/// The `i`-th edge of a closed polygon over vertex sequence `s`, connecting
/// vertex `i` to its successor (wrapping the last vertex back to the first).
pub open spec fn edge_spec(s: Seq<P2>, i: int) -> Line {
    Line { a: s[i], b: s[if i + 1 == s.len() { 0int } else { i + 1 }] }
}

/// Projection of point `p` onto the direction `dir`, relative to `center`.
pub open spec fn proj_spec(p: P2, center: P2, dir: V2) -> int {
    dot_spec(sub_pp_spec(p, center), dir)
}

/// Least projection value among a non-empty sequence of points.
pub open spec fn min_proj_of(s: Seq<P2>, center: P2, dir: V2) -> int
    recommends
        s.len() >= 1,
    decreases s.len(),
{
    if s.len() <= 1 {
        proj_spec(s[0], center, dir)
    } else if proj_spec(s.last(), center, dir) < min_proj_of(s.drop_last(), center, dir) {
        proj_spec(s.last(), center, dir)
    } else {
        min_proj_of(s.drop_last(), center, dir)
    }
}

/// Greatest projection value among a non-empty sequence of points.
pub open spec fn max_proj_of(s: Seq<P2>, center: P2, dir: V2) -> int
    recommends
        s.len() >= 1,
    decreases s.len(),
{
    if s.len() <= 1 {
        proj_spec(s[0], center, dir)
    } else if proj_spec(s.last(), center, dir) > max_proj_of(s.drop_last(), center, dir) {
        proj_spec(s.last(), center, dir)
    } else {
        max_proj_of(s.drop_last(), center, dir)
    }
}

/// The axis separates the two vertex sets: projected onto the line
/// perpendicular to `axis` through `center`, their intervals are disjoint.
pub open spec fn is_separating_axis_spec(s1: Seq<P2>, s2: Seq<P2>, axis: V2, center: P2) -> bool {
    let dir = rot90_spec(axis);
    max_proj_of(s1, center, dir) < min_proj_of(s2, center, dir) || max_proj_of(s2, center, dir)
        < min_proj_of(s1, center, dir)
}

/// Two distinct vertices lie within the closeness tolerance of each other
/// (squared distance at most `min_dist_sq`).
pub open spec fn points_coincident_spec(s: Seq<P2>, min_dist_sq: int) -> bool {
    exists|i: int, j: int|
        0 <= i < j < s.len() && sqdist_spec(s[i], s[j]) <= min_dist_sq
}

/// Two non-adjacent edges of the closed polygon intersect. The pairs tested
/// exclude adjacent edges and the wrap-around pair (first and last edge).
pub open spec fn edges_intersect_spec(s: Seq<P2>) -> bool {
    exists|i: int, j: int|
        0 <= i && i + 2 <= j < s.len() && !(i == 0 && j == s.len() - 1) && intersection_spec(
            edge_spec(s, i),
            edge_spec(s, j),
        ) is Some
}

/// A simple polygon: no near-coincident vertices and no intersecting pair of
/// non-adjacent edges.
pub open spec fn is_simple_spec(s: Seq<P2>, min_dist_sq: int) -> bool {
    !points_coincident_spec(s, min_dist_sq) && !edges_intersect_spec(s)
}

/// Winding direction at vertex `i`: the sign of the cross product of the
/// incoming and outgoing edge vectors, or `None` when they are collinear.
pub open spec fn winding_spec(s: Seq<P2>, i: int) -> Option<Winding> {
    let p = if i == 0 {
        s.len() - 1
    } else {
        i - 1
    };
    let n = if i + 1 == s.len() {
        0int
    } else {
        i + 1
    };
    let c = cross_spec(sub_pp_spec(s[i], s[p]), sub_pp_spec(s[n], s[i]));
    if c > 0 {
        Some(Winding::Anticlockwise)
    } else if c < 0 {
        Some(Winding::Clockwise)
    } else {
        None
    }
}

/// A convex polygon: simple, and no two vertices wind in opposite
/// directions (vertices with undefined winding are ignored).
pub open spec fn is_convex_spec(s: Seq<P2>, min_dist_sq: int) -> bool {
    is_simple_spec(s, min_dist_sq) && !(exists|i: int, j: int|
        0 <= i < s.len() && 0 <= j < s.len() && winding_spec(s, i) == Some(Winding::Clockwise)
            && winding_spec(s, j) == Some(Winding::Anticlockwise))
}

/// A polygon with one clockwise and one anti-clockwise vertex is not
/// convex, whatever the coincidence tolerance: a single reflex vertex
/// among ordinary ones already refutes convexity.
pub proof fn lemma_mixed_winding_not_convex(s: Seq<P2>, min_dist_sq: int, i: int, j: int)
    requires
        0 <= i < s.len(),
        0 <= j < s.len(),
        winding_spec(s, i) == Some(Winding::Clockwise),
        winding_spec(s, j) == Some(Winding::Anticlockwise),
    ensures
        !is_convex_spec(s, min_dist_sq),
{
}

impl Polygon {
    /// At least three vertices, all within the derived-vertex range.
    pub open spec fn wf(self) -> bool {
        self.vertices@.len() >= 3 && (forall|i: int|
            0 <= i < self.vertices@.len() ==> (#[trigger] self.vertices@[i]).vertex_ok())
    }

    /// At least three vertices, all within the input coordinate range.
    pub open spec fn strict_wf(self) -> bool {
        self.vertices@.len() >= 3 && (forall|i: int|
            0 <= i < self.vertices@.len() ==> (#[trigger] self.vertices@[i]).valid())
    }

    /// Creates a new `Polygon` from the given vertices.
    ///
    /// There must be at least three vertices in the polygon.
    ///
    /// # Parameters
    ///
    /// - `vertices`: The vector of vertices for the polygon. This vector must
    ///   contain at least 3 vertices.
    ///
    /// # Returns
    ///
    /// A new `Polygon`.
    pub fn new(vertices: Vec<P2>) -> (r: Polygon)
        requires
            vertices@.len() >= 3,
            forall|i: int| 0 <= i < vertices@.len() ==> (#[trigger] vertices@[i]).vertex_ok(),
        ensures
            r.vertices@ == vertices@,
            r.wf(),
    {
        Polygon { vertices }
    }

    /// Construct all edges of the polygon.
    ///
    /// This returns all the lines that are the edges of the polygon, drawn
    /// between its pairs of consecutive vertices, the last edge wrapping
    /// back to the first vertex.
    pub fn edges(&self) -> (r: Vec<Line>)
        requires
            self.wf(),
        ensures
            r@.len() == self.vertices@.len(),
            forall|i: int| 0 <= i < r@.len() ==> r@[i] == edge_spec(self.vertices@, i),
    {
        let n = self.vertices.len();
        let mut r: Vec<Line> = Vec::new();
        let mut i: usize = 0;
        while i < n
            invariant
                0 <= i <= n,
                n == self.vertices@.len(),
                r@.len() == i,
                forall|k: int| 0 <= k < i ==> r@[k] == edge_spec(self.vertices@, k),
            decreases n - i,
        {
            let j = if i + 1 == n {
                0
            } else {
                i + 1
            };
            r.push(Line { a: self.vertices[i], b: self.vertices[j] });
            i += 1;
        }
        r
    }

    /// Check if a supplied axis is a "separating axis" for two polygons.
    ///
    /// The separating axis test projects both polygons onto a line which is
    /// perpendicular to the supplied axis. Each polygon forms an interval
    /// when projected onto this line. If the intervals are disjoint then the
    /// supplied axis was a "separating axis".
    ///
    /// This test works for all simple, convex polygons.
    ///
    /// # Parameters
    ///
    /// - `other`: Other polygon in the test.
    /// - `axis`: Candidate separating axis.
    /// - `center`: Center to use as a reference for projection.
    ///
    /// # Returns
    ///
    /// `true` if the supplied axis was a separating axis, `false` otherwise.
    pub fn is_separating_axis(&self, other: &Polygon, axis: V2, center: P2) -> (r: bool)
        requires
            self.wf(),
            other.wf(),
            axis.vertex_ok(),
            center.vertex_ok(),
        ensures
            r == is_separating_axis_spec(self.vertices@, other.vertices@, axis, center),
    {
        let direction = V2 { x: -axis.y, y: axis.x };
        let interval_self = project_polygon_to_line(center, direction, self);
        let interval_other = project_polygon_to_line(center, direction, other);
        interval_self.disjoint(&interval_other)
    }

    /// Returns the axis-aligned bounding box of the polygon.
    pub fn bbox(&self) -> (r: Bbox)
        requires
            self.wf(),
        ensures
            r.wf(),
            r.is_bbox_of(self.vertices@),
    {
        Bbox::extending(&self.vertices).unwrap()
    }

    /// Check if this `Polygon` is a simple polygon.
    ///
    /// A simple polygon has no duplicate vertices, and no edges that
    /// intersect one another.
    ///
    /// # Parameters
    ///
    /// - `min_dist_sq`: squared distance at or below which vertices of the
    ///   polygon are assumed to coincide.
    ///
    /// # Returns
    ///
    /// - `true` if the `Polygon` is a simple polygon.
    pub fn is_simple(&self, min_dist_sq: i64) -> (r: bool)
        requires
            self.strict_wf(),
        ensures
            r == is_simple_spec(self.vertices@, min_dist_sq as int),
    {
        let pt_test = points_coincident(min_dist_sq, &self.vertices);
        let edge_test = non_adjacent_edges_intersect(self);
        !(pt_test || edge_test)
    }

    /// Winding direction at one vertex of the polygon.
    ///
    /// This is the sign of the cross product of the edge vectors coming into
    /// and going out of the vertex; `None` when the two edges are collinear.
    pub fn winding_direction(&self, ix: usize) -> (r: Option<Winding>)
        requires
            self.wf(),
            ix < self.vertices@.len(),
        ensures
            r == winding_spec(self.vertices@, ix as int),
    {
        let n = self.vertices.len();
        let p = if ix == 0 {
            n - 1
        } else {
            ix - 1
        };
        let nx = if ix + 1 == n {
            0
        } else {
            ix + 1
        };
        let inx = self.vertices[ix].x - self.vertices[p].x;
        let iny = self.vertices[ix].y - self.vertices[p].y;
        let outx = self.vertices[nx].x - self.vertices[ix].x;
        let outy = self.vertices[nx].y - self.vertices[ix].y;
        let c = cross_wide(inx, iny, outx, outy);
        if c > 0 {
            Some(Winding::Anticlockwise)
        } else if c < 0 {
            Some(Winding::Clockwise)
        } else {
            None
        }
    }

    /// Check if this `Polygon` is convex.
    ///
    /// The polygon must be simple, and every vertex with a defined winding
    /// direction must wind the same way.
    pub fn is_convex(&self, min_dist_sq: i64) -> (r: bool)
        requires
            self.strict_wf(),
        ensures
            r == is_convex_spec(self.vertices@, min_dist_sq as int),
    {
        if !self.is_simple(min_dist_sq) {
            return false;
        }
        let n = self.vertices.len();
        let mut seen_cw = false;
        let mut seen_acw = false;
        let ghost mut wit_cw: int = 0;
        let ghost mut wit_acw: int = 0;
        let mut i: usize = 0;
        while i < n
            invariant
                0 <= i <= n,
                n == self.vertices@.len(),
                self.wf(),
                seen_cw ==> 0 <= wit_cw < i && winding_spec(self.vertices@, wit_cw) == Some(
                    Winding::Clockwise,
                ),
                !seen_cw ==> forall|k: int|
                    0 <= k < i ==> winding_spec(self.vertices@, k) != Some(Winding::Clockwise),
                seen_acw ==> 0 <= wit_acw < i && winding_spec(self.vertices@, wit_acw) == Some(
                    Winding::Anticlockwise,
                ),
                !seen_acw ==> forall|k: int|
                    0 <= k < i ==> winding_spec(self.vertices@, k) != Some(Winding::Anticlockwise),
            decreases n - i,
        {
            match self.winding_direction(i) {
                Some(Winding::Clockwise) => {
                    seen_cw = true;
                    proof {
                        wit_cw = i as int;
                    }
                },
                Some(Winding::Anticlockwise) => {
                    seen_acw = true;
                    proof {
                        wit_acw = i as int;
                    }
                },
                None => {},
            }
            i += 1;
        }
        !(seen_cw && seen_acw)
    }
}

/// Project a polygon to a line, producing an interval.
///
/// # Parameters
///
/// - `center`: A point on the line corresponding to the zero point of
///   projections.
/// - `direction`: Vector along the direction of the line corresponding to
///   positive values, and providing a scale.
/// - `polygon`: Polygon to project to the line.
fn project_polygon_to_line(center: P2, direction: V2, polygon: &Polygon) -> (r: Interval)
    requires
        polygon.wf(),
        center.vertex_ok(),
        direction.vertex_ok(),
    ensures
        r.wf(),
        r.min_spec() == min_proj_of(polygon.vertices@, center, direction),
        r.max_spec() == max_proj_of(polygon.vertices@, center, direction),
{
    let first = proj_val(polygon.vertices[0], center, direction);
    let mut interval = Interval::singleton(first);
    let mut i: usize = 1;
    while i < polygon.vertices.len()
        invariant
            1 <= i <= polygon.vertices@.len(),
            polygon.wf(),
            center.vertex_ok(),
            direction.vertex_ok(),
            interval.wf(),
            interval.min_spec() == min_proj_of(
                polygon.vertices@.subrange(0, i as int),
                center,
                direction,
            ),
            interval.max_spec() == max_proj_of(
                polygon.vertices@.subrange(0, i as int),
                center,
                direction,
            ),
        decreases polygon.vertices@.len() - i,
    {
        proof {
            assert(polygon.vertices@.subrange(0, i + 1).drop_last() =~= polygon.vertices@.subrange(
                0,
                i as int,
            ));
        }
        let v = proj_val(polygon.vertices[i], center, direction);
        interval.extend(v);
        i += 1;
    }
    proof {
        assert(polygon.vertices@.subrange(0, polygon.vertices@.len() as int)
            =~= polygon.vertices@);
    }
    interval
}

/// Projection of one point, computed without overflow.
fn proj_val(p: P2, center: P2, direction: V2) -> (r: i64)
    requires
        p.vertex_ok(),
        center.vertex_ok(),
        direction.vertex_ok(),
    ensures
        r as int == proj_spec(p, center, direction),
{
    let dx = p.x - center.x;
    let dy = p.y - center.y;
    proof {
        assert(coord_in(dx * direction.x, 0x4000_0000_0000_0000) && coord_in(
            dy * direction.y,
            0x4000_0000_0000_0000,
        ) && coord_in(dx * direction.x + dy * direction.y, 0x7000_0000_0000_0000)) by (
        nonlinear_arith)
            requires
                coord_in(dx as int, 2 * (VERT_BOUND as int)),
                coord_in(dy as int, 2 * (VERT_BOUND as int)),
                coord_in(direction.x as int, VERT_BOUND as int),
                coord_in(direction.y as int, VERT_BOUND as int),
        ;
    }
    let v: i128 = (dx as i128) * (direction.x as i128) + (dy as i128) * (direction.y as i128);
    v as i64
}

/// Cross product of two edge vectors (which may span the full vertex range),
/// computed without overflow.
fn cross_wide(ax: i64, ay: i64, bx: i64, by: i64) -> (r: i128)
    requires
        coord_in(ax as int, 2 * (VERT_BOUND as int)),
        coord_in(ay as int, 2 * (VERT_BOUND as int)),
        coord_in(bx as int, 2 * (VERT_BOUND as int)),
        coord_in(by as int, 2 * (VERT_BOUND as int)),
    ensures
        r as int == ax * by - ay * bx,
{
    proof {
        assert(coord_in(ax * by, 0x4000_0000_0000_0000_0000) && coord_in(
            ay * bx,
            0x4000_0000_0000_0000_0000,
        )) by (nonlinear_arith)
            requires
                coord_in(ax as int, 2 * (VERT_BOUND as int)),
                coord_in(ay as int, 2 * (VERT_BOUND as int)),
                coord_in(bx as int, 2 * (VERT_BOUND as int)),
                coord_in(by as int, 2 * (VERT_BOUND as int)),
        ;
    }
    (ax as i128) * (by as i128) - (ay as i128) * (bx as i128)
}

/// Squared distance between two points, computed without overflow.
fn sqdist_vals(a: P2, b: P2) -> (r: i128)
    requires
        a.vertex_ok(),
        b.vertex_ok(),
    ensures
        r as int == sqdist_spec(a, b),
        r >= 0,
{
    let dx = a.x - b.x;
    let dy = a.y - b.y;
    proof {
        assert(0 <= dx * dx <= 0x4000_0000_0000_0000_0000 && 0 <= dy * dy
            <= 0x4000_0000_0000_0000_0000) by (nonlinear_arith)
            requires
                coord_in(dx as int, 2 * (VERT_BOUND as int)),
                coord_in(dy as int, 2 * (VERT_BOUND as int)),
        ;
    }
    (dx as i128) * (dx as i128) + (dy as i128) * (dy as i128)
}

/// Checks if any supplied points are coincident up to a supplied minimum
/// squared distance.
///
/// # Parameters
///
/// - `min_dist_sq`: squared distance at or below which two points count as
///   coincident.
/// - `points`: the points to check pairwise.
///
/// # Returns
///
/// - `true` if at least two points lie within the tolerance of each other.
/// - `false` if there are no coincident points.
fn points_coincident(min_dist_sq: i64, points: &Vec<P2>) -> (r: bool)
    requires
        forall|i: int| 0 <= i < points@.len() ==> (#[trigger] points@[i]).vertex_ok(),
    ensures
        r == points_coincident_spec(points@, min_dist_sq as int),
{
    let n = points.len();
    let mut i: usize = 0;
    while i < n
        invariant
            0 <= i <= n,
            n == points@.len(),
            forall|k: int| 0 <= k < points@.len() ==> (#[trigger] points@[k]).vertex_ok(),
            forall|a: int, b: int|
                0 <= a < b < points@.len() && a < i ==> sqdist_spec(points@[a], points@[b])
                    > min_dist_sq,
        decreases n - i,
    {
        let mut j: usize = i + 1;
        while j < n
            invariant
                0 <= i < j <= n,
                n == points@.len(),
                forall|k: int| 0 <= k < points@.len() ==> (#[trigger] points@[k]).vertex_ok(),
                forall|a: int, b: int|
                    0 <= a < b < points@.len() && a < i ==> sqdist_spec(points@[a], points@[b])
                        > min_dist_sq,
                forall|b: int|
                    i < b < j ==> sqdist_spec(points@[i as int], points@[b]) > min_dist_sq,
            decreases n - j,
        {
            let d = sqdist_vals(points[i], points[j]);
            if d <= min_dist_sq as i128 {
                return true;
            }
            j += 1;
        }
        i += 1;
    }
    false
}

/// Checks if any non-adjacent edges of a polygon intersect.
fn non_adjacent_edges_intersect(polygon: &Polygon) -> (r: bool)
    requires
        polygon.strict_wf(),
    ensures
        r == edges_intersect_spec(polygon.vertices@),
{
    let edges: Vec<Line> = polygon.edges();
    let n = edges.len();
    let mut i: usize = 0;
    while i < n - 2
        invariant
            0 <= i <= n - 2,
            n == edges@.len(),
            n == polygon.vertices@.len(),
            polygon.strict_wf(),
            forall|k: int| 0 <= k < n ==> edges@[k] == edge_spec(polygon.vertices@, k),
            forall|a: int, b: int|
                0 <= a && a + 2 <= b < n && a < i && !(a == 0 && b == n - 1)
                    ==> !(intersection_spec(
                    edge_spec(polygon.vertices@, a),
                    edge_spec(polygon.vertices@, b),
                ) is Some),
        decreases n - i,
    {
        let mut j: usize = i + 2;
        while j < n
            invariant
                0 <= i,
                i + 2 <= j <= n,
                n == edges@.len(),
                n == polygon.vertices@.len(),
                polygon.strict_wf(),
                forall|k: int| 0 <= k < n ==> edges@[k] == edge_spec(polygon.vertices@, k),
                forall|a: int, b: int|
                    0 <= a && a + 2 <= b < n && a < i && !(a == 0 && b == n - 1)
                        ==> !(intersection_spec(
                        edge_spec(polygon.vertices@, a),
                        edge_spec(polygon.vertices@, b),
                    ) is Some),
                forall|b: int|
                    i + 2 <= b < j && !(i == 0 && b == n - 1) ==> !(intersection_spec(
                        edge_spec(polygon.vertices@, i as int),
                        edge_spec(polygon.vertices@, b),
                    ) is Some),
            decreases n - j,
        {
            if !(i == 0 && j == n - 1) {
                let a = edges[i];
                let b = edges[j];
                if a.intersection(&b).is_some() {
                    return true;
                }
            }
            j += 1;
        }
        i += 1;
    }
    false
}

/// Twice the signed area of the closed polygon over the first `i` edges:
/// the shoelace sum of cross products of consecutive vertex positions.
pub open spec fn shoelace_upto(s: Seq<P2>, i: int) -> int
    decreases i,
{
    if i <= 0 {
        0
    } else {
        let p = s[i - 1];
        let q = s[if i == s.len() { 0int } else { i }];
        shoelace_upto(s, i - 1) + (p.x * q.y - q.x * p.y)
    }
}

/// The x numerator of the shoelace centroid over the first `i` edges.
pub open spec fn centroid_x_upto(s: Seq<P2>, i: int) -> int
    decreases i,
{
    if i <= 0 {
        0
    } else {
        let p = s[i - 1];
        let q = s[if i == s.len() { 0int } else { i }];
        centroid_x_upto(s, i - 1) + (p.x + q.x) * (p.x * q.y - q.x * p.y)
    }
}

/// The y numerator of the shoelace centroid over the first `i` edges.
pub open spec fn centroid_y_upto(s: Seq<P2>, i: int) -> int
    decreases i,
{
    if i <= 0 {
        0
    } else {
        let p = s[i - 1];
        let q = s[if i == s.len() { 0int } else { i }];
        centroid_y_upto(s, i - 1) + (p.y + q.y) * (p.x * q.y - q.x * p.y)
    }
}

/// The signed-area-weighted centroid of the polygon, by the shoelace
/// formula, with each coordinate rounded toward zero.
///
/// `None` when the signed area is zero (a degenerate polygon), or when the
/// rounded centroid leaves the coordinate range (possible only for
/// self-intersecting polygons: the centroid of a simple polygon lies inside
/// its convex hull).
pub open spec fn centroid_spec(s: Seq<P2>) -> Option<P2> {
    let a2 = shoelace_upto(s, s.len() as int);
    if a2 == 0 {
        None
    } else {
        let d = 3 * a2;
        let dd = if d > 0 {
            d
        } else {
            -d
        };
        let mx = if d > 0 {
            centroid_x_upto(s, s.len() as int)
        } else {
            -centroid_x_upto(s, s.len() as int)
        };
        let my = if d > 0 {
            centroid_y_upto(s, s.len() as int)
        } else {
            -centroid_y_upto(s, s.len() as int)
        };
        let cx = trunc_div(mx, dd);
        let cy = trunc_div(my, dd);
        if valid_coord(cx) && valid_coord(cy) {
            Some(P2 { x: cx as i64, y: cy as i64 })
        } else {
            None
        }
    }
}

/// Truncating division of wide values, with a positive divisor.
fn div_trunc_i128(n: i128, d: i128) -> (r: i128)
    requires
        0 < d,
        -0x100_0000_0000_0000_0000_0000_0000_0000 <= n <= 0x100_0000_0000_0000_0000_0000_0000_0000,
    ensures
        r as int == trunc_div(n as int, d as int),
        coord_in(r as int, 0x100_0000_0000_0000_0000_0000_0000_0000),
{
    proof {
        if n >= 0 {
            vstd::arithmetic::div_mod::lemma_div_nonincreasing(n as int, d as int);
            vstd::arithmetic::div_mod::lemma_div_pos_is_pos(n as int, d as int);
        } else {
            vstd::arithmetic::div_mod::lemma_div_nonincreasing(-(n as int), d as int);
            vstd::arithmetic::div_mod::lemma_div_pos_is_pos(-(n as int), d as int);
        }
    }
    if n >= 0 {
        (((n as u128) / (d as u128)) as i128)
    } else {
        -((((-n) as u128) / (d as u128)) as i128)
    }
}

impl Polygon {
    /// The signed-area-weighted centroid of the polygon, by the shoelace
    /// formula, with each coordinate rounded toward zero.
    ///
    /// A meaningful centroid needs a simple polygon; for a degenerate
    /// (zero-area) polygon this returns `None`.
    pub fn centroid(&self) -> (r: Option<P2>)
        requires
            self.strict_wf(),
            self.vertices@.len() <= 1000000,
        ensures
            r == centroid_spec(self.vertices@),
    {
        let ghost s = self.vertices@;
        let n = self.vertices.len();
        let mut a2: i128 = 0;
        let mut cxn: i128 = 0;
        let mut cyn: i128 = 0;
        let mut i: usize = 0;
        while i < n
            invariant
                0 <= i <= n,
                n == s.len(),
                n <= 1000000,
                s == self.vertices@,
                self.strict_wf(),
                a2 as int == shoelace_upto(s, i as int),
                cxn as int == centroid_x_upto(s, i as int),
                cyn as int == centroid_y_upto(s, i as int),
                coord_in(a2 as int, (i as int) * 0x1000_0000_0000_0000),
                coord_in(cxn as int, (i as int) * 0x1000_0000_0000_0000_0000_0000),
                coord_in(cyn as int, (i as int) * 0x1000_0000_0000_0000_0000_0000),
            decreases n - i,
        {
            let p = self.vertices[i];
            let j = if i + 1 == n {
                0
            } else {
                i + 1
            };
            let q = self.vertices[j];
            proof {
                assert(coord_in(p.x * q.y, 0x1000_0000_0000_0000) && coord_in(
                    q.x * p.y,
                    0x1000_0000_0000_0000,
                ) && coord_in(p.x * q.y - q.x * p.y, 0x1000_0000_0000_0000) && coord_in(
                    (p.x + q.x) * (p.x * q.y - q.x * p.y),
                    0x1000_0000_0000_0000_0000_0000,
                ) && coord_in(
                    (p.y + q.y) * (p.x * q.y - q.x * p.y),
                    0x1000_0000_0000_0000_0000_0000,
                )) by (nonlinear_arith)
                    requires
                        coord_in(p.x as int, MAX_COORD as int),
                        coord_in(p.y as int, MAX_COORD as int),
                        coord_in(q.x as int, MAX_COORD as int),
                        coord_in(q.y as int, MAX_COORD as int),
                ;
                assert((i + 1) * 0x1000_0000_0000_0000 == (i as int) * 0x1000_0000_0000_0000
                    + 0x1000_0000_0000_0000) by (nonlinear_arith);
                assert((i + 1) * 0x1000_0000_0000_0000_0000_0000 == (i as int)
                    * 0x1000_0000_0000_0000_0000_0000 + 0x1000_0000_0000_0000_0000_0000) by (
                nonlinear_arith);
                assert((i as int) * 0x1000_0000_0000_0000 <= 1000000 * 0x1000_0000_0000_0000)
                    by (nonlinear_arith)
                    requires
                        0 <= i <= 1000000,
                ;
                assert((i as int) * 0x1000_0000_0000_0000_0000_0000 <= 1000000
                    * 0x1000_0000_0000_0000_0000_0000) by (nonlinear_arith)
                    requires
                        0 <= i <= 1000000,
                ;
            }
            let term: i128 = (p.x as i128) * (q.y as i128) - (q.x as i128) * (p.y as i128);
            a2 = a2 + term;
            cxn = cxn + ((p.x as i128) + (q.x as i128)) * term;
            cyn = cyn + ((p.y as i128) + (q.y as i128)) * term;
            i += 1;
        }
        proof {
            assert((n as int) * 0x1000_0000_0000_0000 <= 1000000 * 0x1000_0000_0000_0000) by (
            nonlinear_arith)
                requires
                    0 <= n <= 1000000,
            ;
            assert((n as int) * 0x1000_0000_0000_0000_0000_0000 <= 1000000
                * 0x1000_0000_0000_0000_0000_0000) by (nonlinear_arith)
                requires
                    0 <= n <= 1000000,
            ;
        }
        if a2 == 0 {
            return None;
        }
        let d: i128 = 3 * a2;
        let dd: i128 = if d > 0 {
            d
        } else {
            -d
        };
        let mx: i128 = if d > 0 {
            cxn
        } else {
            -cxn
        };
        let my: i128 = if d > 0 {
            cyn
        } else {
            -cyn
        };
        let cx = div_trunc_i128(mx, dd);
        let cy = div_trunc_i128(my, dd);
        let cx_ok = -MAX_COORD as i128 <= cx && cx <= MAX_COORD as i128;
        let cy_ok = -MAX_COORD as i128 <= cy && cy <= MAX_COORD as i128;
        if cx_ok && cy_ok {
            Some(P2 { x: cx as i64, y: cy as i64 })
        } else {
            None
        }
    }
}

} // verus!
