//! Tests for the geometric primitives: lines, intersections, polygons,
//! bounding boxes and intervals.

use beamline::bbox::Bbox;
use beamline::interval::Interval;
use beamline::line::Line;
use beamline::line::LineError;
use beamline::polygon::Polygon;
use beamline::polygon::Winding;
use beamline::types::ceil_div_u32;
use beamline::types::isqrt;
use beamline::types::v2_rot90_anticlockwise;
use beamline::types::P2;
use beamline::types::V2;

/// Test intersecting two lines where an intersection is known to exist.
#[test]
fn test_line_intersection_exists() {
    let line1 = Line::new(P2::new(0, 1), P2::new(6, 5)).unwrap();
    let line2 = Line::new(P2::new(2, 6), P2::new(4, 0)).unwrap();

    let intersection = line1.intersection(&line2);
    let expected = P2::new(3, 3);
    assert_eq!(intersection, Some(expected));
}

/// Test intersecting two lines where there is no intersection.
#[test]
fn test_line_intersection_does_not_exist() {
    let line1 = Line::new(P2::new(2, 0), P2::new(0, 6)).unwrap();
    let line2 = Line::new(P2::new(2, 6), P2::new(4, 0)).unwrap();

    let intersection = line1.intersection(&line2);
    assert_eq!(intersection, None);
}

/// A square should be a simple polygon. Coordinates are in units of a
/// thousandth of the original shape edge, so the closeness tolerance of
/// one thousandth squared becomes 1000 square units.
#[test]
fn test_square_is_simple_polygon() {
    let square = Polygon::new(vec![
        P2::new(0, 0),
        P2::new(1000, 0),
        P2::new(1000, 1000),
        P2::new(0, 1000),
    ]);
    assert!(square.is_simple(1000))
}

/// A "bowtie" should not be a simple polygon.
#[test]
fn test_bowtie_is_not_simple_polygon() {
    let bowtie = Polygon::new(vec![
        P2::new(0, 0),
        P2::new(1000, 0),
        P2::new(0, 1000),
        P2::new(1000, 1000),
    ]);
    assert!(!bowtie.is_simple(1000))
}

/// A polygon with coincident points should not be a simple polygon.
/// Coordinates are in units of a ten-thousandth of the shape edge, so two
/// vertices one unit apart fall well inside the closeness tolerance.
#[test]
fn test_coincident_points_not_simple_polygon() {
    let coincident = Polygon::new(vec![
        P2::new(0, 0),
        P2::new(10000, 0),
        P2::new(10001, 0),
        P2::new(1, 0),
    ]);
    assert!(!coincident.is_simple(100000))
}

/// Constructing a line from two coincident points must fail; construction
/// from points clearly apart must succeed.
#[test]
fn degenerate_line_rejected() {
    let degenerate = Line::new(P2::new(5, 7), P2::new(5, 7));
    assert_eq!(degenerate, Err(LineError::Degenerate));

    let fine = Line::new(P2::new(5, 7), P2::new(6, 7));
    assert!(fine.is_ok());
    let line = fine.unwrap();
    assert_eq!(line.start(), P2::new(5, 7));
    assert_eq!(line.end(), P2::new(6, 7));
}

/// A unit square (scaled) is simple and convex.
#[test]
fn square_is_convex() {
    let square = Polygon::new(vec![
        P2::new(0, 0),
        P2::new(1000, 0),
        P2::new(1000, 1000),
        P2::new(0, 1000),
    ]);
    assert!(square.is_convex(1000));
}

/// A pentagon with one reflex vertex is simple but not convex.
#[test]
fn reflex_pentagon_is_simple_not_convex() {
    let pentagon = Polygon::new(vec![
        P2::new(0, 0),
        P2::new(4000, 0),
        P2::new(4000, 4000),
        P2::new(2000, 1000),
        P2::new(0, 4000),
    ]);
    assert!(pentagon.is_simple(10));
    assert!(!pentagon.is_convex(10));
}

/// The winding direction is the sign of the turn at a vertex, and is
/// undefined for collinear edges.
#[test]
fn winding_direction_signs() {
    let square = Polygon::new(vec![
        P2::new(0, 0),
        P2::new(10, 0),
        P2::new(10, 10),
        P2::new(0, 10),
    ]);
    assert_eq!(square.winding_direction(0), Some(Winding::Anticlockwise));
    assert_eq!(square.winding_direction(2), Some(Winding::Anticlockwise));

    let clockwise = Polygon::new(vec![
        P2::new(0, 0),
        P2::new(0, 10),
        P2::new(10, 10),
        P2::new(10, 0),
    ]);
    assert_eq!(clockwise.winding_direction(1), Some(Winding::Clockwise));

    let collinear = Polygon::new(vec![
        P2::new(0, 0),
        P2::new(5, 0),
        P2::new(10, 0),
        P2::new(10, 10),
    ]);
    assert_eq!(collinear.winding_direction(1), None);
}

/// Evaluating a line at rational parameters yields the exact points.
#[test]
fn eval_param_points() {
    let line = Line::new(P2::new(0, 0), P2::new(10, 10)).unwrap();
    assert_eq!(line.eval_param(0, 2), P2::new(0, 0));
    assert_eq!(line.eval_param(1, 2), P2::new(5, 5));
    assert_eq!(line.eval_param(2, 2), P2::new(10, 10));
    assert_eq!(line.eval_param(3, 2), P2::new(15, 15));
    assert_eq!(line.eval_param(-1, 1), P2::new(-10, -10));
    // The parameter is not clamped: far extrapolations stay exact.
    assert_eq!(line.eval_param(1000000, 1), P2::new(10000000, 10000000));
    assert_eq!(line.ab_vec(), V2::new(10, 10));
}

/// Bounding boxes grow monotonically and report exact bounds.
#[test]
fn bbox_extending_and_bounds() {
    let none = Bbox::extending(&vec![]);
    assert!(none.is_none());

    let points = vec![P2::new(3, -2), P2::new(-1, 7), P2::new(4, 0)];
    let bbox = Bbox::extending(&points).unwrap();
    assert_eq!(bbox.min_x(), -1);
    assert_eq!(bbox.max_x(), 4);
    assert_eq!(bbox.min_y(), -2);
    assert_eq!(bbox.max_y(), 7);
    assert!(bbox.contains(P2::new(0, 0)));
    assert!(!bbox.contains(P2::new(5, 0)));

    let other = Bbox::singleton(P2::new(10, 10));
    assert!(bbox.disjoint(&other));
    assert!(!bbox.overlaps(&other));
}

/// Intervals support extension, containment and overlap tests.
#[test]
fn interval_operations() {
    let mut interval = Interval::singleton(4);
    assert_eq!(interval.min(), 4);
    assert_eq!(interval.max(), 4);
    interval.extend(-3);
    interval.extend(9);
    assert_eq!(interval.min(), -3);
    assert_eq!(interval.max(), 9);
    assert!(interval.contains(0));
    assert!(!interval.contains(10));

    let other = Interval::new(10, 12);
    assert!(interval.disjoint(&other));
    let touching = Interval::new(9, 12);
    assert!(interval.overlaps(&touching));
}

/// Ceiling division and the integer square root produce exact values.
#[test]
fn arithmetic_helpers() {
    assert_eq!(ceil_div_u32(100, 50), 2);
    assert_eq!(ceil_div_u32(101, 50), 3);
    assert_eq!(ceil_div_u32(0, 7), 0);
    assert_eq!(ceil_div_u32(1, 7), 1);

    assert_eq!(isqrt(0), 0);
    assert_eq!(isqrt(1), 1);
    assert_eq!(isqrt(80 * 80), 80);
    assert_eq!(isqrt(99), 9);
    assert_eq!(isqrt(u64::MAX), 4294967295);

    assert_eq!(v2_rot90_anticlockwise(V2::new(3, 4)), V2::new(-4, 3));
}

/// The shoelace centroid of a square is its center; a degenerate polygon
/// has no centroid.
#[test]
fn centroid_of_square() {
    let square = Polygon::new(vec![
        P2::new(0, 0),
        P2::new(1000, 0),
        P2::new(1000, 1000),
        P2::new(0, 1000),
    ]);
    assert_eq!(square.centroid(), Some(P2::new(500, 500)));

    let triangle = Polygon::new(vec![P2::new(0, 0), P2::new(300, 0), P2::new(0, 300)]);
    assert_eq!(triangle.centroid(), Some(P2::new(100, 100)));

    let flat = Polygon::new(vec![P2::new(0, 0), P2::new(10, 0), P2::new(20, 0)]);
    assert_eq!(flat.centroid(), None);
}

/// The polygon edge list wraps the last vertex back to the first.
#[test]
fn polygon_edges_wrap() {
    let triangle = Polygon::new(vec![P2::new(0, 0), P2::new(10, 0), P2::new(0, 10)]);
    let edges = triangle.edges();
    assert_eq!(edges.len(), 3);
    assert_eq!(edges[0].start(), P2::new(0, 0));
    assert_eq!(edges[0].end(), P2::new(10, 0));
    assert_eq!(edges[2].start(), P2::new(0, 10));
    assert_eq!(edges[2].end(), P2::new(0, 0));
}
