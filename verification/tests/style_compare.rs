//! Tests for line styles, bounding polygons, and approximate comparison.

use beamline::compare::close;
use beamline::compare::close_artol;
use beamline::compare::close_atol;
use beamline::compare::close_default_tol;
use beamline::compare::close_option;
use beamline::compare::close_p2;
use beamline::compare::close_rtol;
use beamline::compare::close_v2;
use beamline::compare::delta_abs;
use beamline::compare::rabs;
use beamline::compare::rmax;
use beamline::compare::Tol;
use beamline::line::Line;
use beamline::style::Color;
use beamline::style::LineCap;
use beamline::style::LineStyle;
use beamline::style::StyledLine;
use beamline::types::P2;
use beamline::types::V2;

fn horizontal(width: i64, cap: LineCap) -> StyledLine {
    StyledLine {
        line: Line::new(P2::new(10, 10), P2::new(90, 10)).unwrap(),
        style: LineStyle { width, cap, color: Color::new(1, 2, 3, 4) },
    }
}

/// A butt-capped horizontal line extrudes to a thin axis-aligned
/// rectangle with no longitudinal extension.
#[test]
fn bounding_polygon_butt() {
    let quad = horizontal(4, LineCap::Butt).bounding_polygon();
    assert_eq!(
        quad.vertices,
        vec![P2::new(10, 8), P2::new(10, 12), P2::new(90, 12), P2::new(90, 8)]
    );
}

/// Square and round caps extend both ends longitudinally by half the
/// width.
#[test]
fn bounding_polygon_square_and_round() {
    let square = horizontal(4, LineCap::Square).bounding_polygon();
    assert_eq!(
        square.vertices,
        vec![P2::new(8, 8), P2::new(8, 12), P2::new(92, 12), P2::new(92, 8)]
    );
    let round = horizontal(4, LineCap::Round).bounding_polygon();
    assert_eq!(round.vertices, square.vertices);
}

/// A diagonal line's extrusion offsets are rounded to the nearest unit.
#[test]
fn bounding_polygon_diagonal() {
    let sl = StyledLine {
        line: Line::new(P2::new(0, 0), P2::new(100, 100)).unwrap(),
        style: LineStyle { width: 10, cap: LineCap::Butt, color: Color::new(0, 0, 0, 255) },
    };
    let quad = sl.bounding_polygon().vertices;
    // The perpendicular half-width offset of a 45-degree line of width 10
    // is about 3.5 units per component, rounded to 4.
    assert_eq!(
        quad,
        vec![P2::new(4, -4), P2::new(-4, 4), P2::new(96, 104), P2::new(104, 96)]
    );
}

/// A sub-unit effective width still extrudes to a proper quadrilateral:
/// the dominant perpendicular offset component is rounded outward to one
/// unit, so the polygon is simple and convex even for width 1.
#[test]
fn bounding_polygon_thin_line_not_degenerate() {
    let sl = StyledLine {
        line: Line::new(P2::new(0, 0), P2::new(3, 4)).unwrap(),
        style: LineStyle { width: 1, cap: LineCap::Butt, color: Color::new(0, 0, 0, 255) },
    };
    let quad = sl.bounding_polygon();
    assert_eq!(
        quad.vertices,
        vec![P2::new(1, 0), P2::new(-1, 0), P2::new(2, 4), P2::new(4, 4)]
    );
    assert!(quad.is_simple(0));
    assert!(quad.is_convex(0));
}

/// The color components come back in RGBA order.
#[test]
fn color_as_array() {
    let c = Color::new(11, 22, 33, 44);
    assert_eq!(c.as_array(), [11, 22, 33, 44]);
    assert_eq!(c.red, 11);
    assert_eq!(c.alpha, 44);
}

/// Absolute-tolerance closeness is a bound on the difference.
#[test]
fn close_absolute() {
    assert!(close_atol(5, 10, 15));
    assert!(close_atol(5, 15, 10));
    assert!(!close_atol(4, 10, 15));
    assert!(close(Tol::abs(5), 10, 15));
    assert!(!close(Tol::abs(-4), 10, 15));
}

/// Relative-tolerance closeness scales with the larger magnitude.
#[test]
fn close_relative() {
    // |100 - 99| = 1 <= 1 * max(100, 99)
    assert!(close_rtol(1, 100, 99));
    assert!(!close_rtol(0, 100, 99));
    // |10 - (-10)| = 20 <= 2 * 10
    assert!(close_rtol(2, 10, -10));
    assert!(close(Tol::rel(1), 100, 99));
}

/// The combined tolerance passes when either component does.
#[test]
fn close_combined() {
    assert!(close_artol(5, 0, 10, 15));
    assert!(close_artol(0, 1, 100, 99));
    assert!(!close_artol(0, 0, 100, 99));
    assert!(close(Tol::absrel(5, 0), 10, 15));
}

/// Optional values are close when both are absent or both present and
/// close; points and vectors are close when their distance is within the
/// tolerance.
#[test]
fn close_compound_values() {
    assert!(close_option(Tol::abs(5), None, None));
    assert!(close_option(Tol::abs(5), Some(10), Some(14)));
    assert!(!close_option(Tol::abs(5), Some(10), Some(16)));
    assert!(!close_option(Tol::abs(5), Some(10), None));
    assert!(!close_option(Tol::abs(5), None, Some(10)));

    // Distance 5 between (0, 0) and (3, 4).
    assert!(close_p2(Tol::abs(5), P2::new(0, 0), P2::new(3, 4)));
    assert!(!close_p2(Tol::abs(4), P2::new(0, 0), P2::new(3, 4)));
    assert!(close_v2(Tol::abs(0), V2::new(7, 7), V2::new(7, 7)));
    assert!(!close_v2(Tol::abs(0), V2::new(7, 7), V2::new(7, 8)));
}

/// The default tolerance for exact integer coordinates is equality.
#[test]
fn close_default_is_equality() {
    assert!(close_default_tol(42, 42));
    assert!(!close_default_tol(42, 43));
    assert_eq!(Tol::default(), Tol::Abs(0));
}

/// Scaling multiplies each stored tolerance.
#[test]
fn tol_scale() {
    assert_eq!(Tol::abs(5).scale(3), Tol::Abs(15));
    assert_eq!(Tol::rel(2).scale(4), Tol::Rel(8));
    assert_eq!(Tol::absrel(5, 2).scale(2), Tol::AbsRel { atol: 10, rtol: 4 });
}

/// The comparison helpers compute magnitude, difference and maximum.
#[test]
fn comparison_helpers() {
    assert_eq!(delta_abs(3, 10), 7);
    assert_eq!(delta_abs(10, 3), 7);
    assert_eq!(rabs(-9), 9);
    assert_eq!(rabs(9), 9);
    assert_eq!(rmax(3, 10), 10);
    assert_eq!(rmax(10, 3), 10);
}
