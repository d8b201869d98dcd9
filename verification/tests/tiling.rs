//! Tests for the tiler: scenario checks, output invariants, and
//! brute-force coverage checks against an independent overlap test.

use beamline::line::Line;
use beamline::style::Color;
use beamline::style::LineCap;
use beamline::style::LineStyle;
use beamline::style::StyledLine;
use beamline::tiler::n_tiles;
use beamline::tiler::TileInfo;
use beamline::tiler::Tiler;
use beamline::tiler::TilesIntersection;
use beamline::types::P2;

fn styled(ax: i64, ay: i64, bx: i64, by: i64, width: i64, cap: LineCap, id: u8) -> StyledLine {
    StyledLine {
        line: Line::new(P2::new(ax, ay), P2::new(bx, by)).unwrap(),
        style: LineStyle { width, cap, color: Color::new(id, 0, 0, 255) },
    }
}

/// Concrete scenario: a 100 by 100 area with 50 by 50 tiles makes a 2 by 2
/// grid; a horizontal butt-capped line through the top row lands in tiles
/// (0,0) and (1,0) only, once each.
#[test]
fn horizontal_line_two_tiles() {
    let sl = styled(10, 10, 90, 10, 4, LineCap::Butt, 1);

    // Its bounding polygon is a thin rectangle spanning x in [10, 90] and
    // y in [8, 12].
    let quad = sl.bounding_polygon();
    let bbox = quad.bbox();
    assert_eq!(bbox.min_x(), 10);
    assert_eq!(bbox.max_x(), 90);
    assert_eq!(bbox.min_y(), 8);
    assert_eq!(bbox.max_y(), 12);

    let mut tiler = Tiler::new(100, 100, 50, 50);
    tiler.add(sl);
    let (infos, lines) = tiler.drain();

    assert_eq!(infos.len(), 2);
    assert_eq!(
        infos[0],
        TileInfo { tile_x: 0, tile_y: 0, start_index: 0, n_lines: 1 }
    );
    assert_eq!(
        infos[1],
        TileInfo { tile_x: 1, tile_y: 0, start_index: 1, n_lines: 1 }
    );
    assert_eq!(lines.len(), 2);
    assert_eq!(lines[0], sl);
    assert_eq!(lines[1], sl);
}

/// Resize clears state: lines added before a resize are discarded.
#[test]
fn resize_clears_state() {
    let mut tiler = Tiler::new(100, 100, 50, 50);
    tiler.add(styled(10, 10, 90, 10, 4, LineCap::Butt, 1));
    tiler.add(styled(5, 5, 95, 95, 6, LineCap::Round, 2));
    tiler.add(styled(20, 80, 80, 20, 2, LineCap::Square, 3));
    tiler.resize(200, 150);
    let (infos, lines) = tiler.drain();
    assert_eq!(infos.len(), 0);
    assert_eq!(lines.len(), 0);
}

/// Idempotent tiling of a static scene: the same lines added to two
/// freshly-constructed tilers with identical grid parameters drain to
/// identical output pairs.
#[test]
fn identical_tilers_identical_output() {
    let scene = vec![
        styled(10, 10, 90, 10, 4, LineCap::Butt, 1),
        styled(5, 5, 195, 145, 6, LineCap::Round, 2),
        styled(20, 80, 80, 20, 2, LineCap::Square, 3),
        styled(-50, -50, 30, 30, 8, LineCap::Butt, 4),
    ];

    let mut t1 = Tiler::new(200, 150, 50, 50);
    let mut t2 = Tiler::new(200, 150, 50, 50);
    for sl in &scene {
        t1.add(*sl);
        t2.add(*sl);
    }
    let (i1, l1) = t1.drain();
    let (i2, l2) = t2.drain();
    assert_eq!(i1, i2);
    assert_eq!(l1, l2);
}

/// A line whose bounding box lies fully outside the grid contributes no
/// assignments.
#[test]
fn line_outside_grid_is_dropped() {
    let mut tiler = Tiler::new(100, 100, 50, 50);
    tiler.add(styled(200, 200, 300, 300, 4, LineCap::Butt, 1));
    tiler.add(styled(10, -90, 90, -60, 4, LineCap::Butt, 2));
    let (infos, lines) = tiler.drain();
    assert_eq!(infos.len(), 0);
    assert_eq!(lines.len(), 0);
}

/// A drained tiler can be reused for the next frame.
#[test]
fn tiler_reuse_after_drain() {
    let mut tiler = Tiler::new(100, 100, 50, 50);
    tiler.add(styled(10, 10, 90, 10, 4, LineCap::Butt, 1));
    let _ = tiler.drain();

    tiler.add(styled(10, 60, 40, 90, 4, LineCap::Butt, 2));
    let (infos, lines) = tiler.drain();
    assert_eq!(infos.len(), 1);
    assert_eq!(
        infos[0],
        TileInfo { tile_x: 0, tile_y: 1, start_index: 0, n_lines: 1 }
    );
    assert_eq!(lines.len(), 1);
}

/// The candidate rectangle helpers compute truncating tile coordinates and
/// clip them against the grid.
#[test]
fn tiles_intersection_from_bbox_and_clip() {
    let sl = styled(10, 10, 90, 10, 4, LineCap::Butt, 1);
    let bbox = sl.bounding_polygon().bbox();
    let ti = TilesIntersection::from_bbox(50, 50, &bbox);
    assert_eq!(ti.x_tiles(), (0, 1));
    assert_eq!(ti.y_tiles(), (0, 0));

    let clipped = ti.clip_to_area(1, 1).unwrap();
    assert_eq!(clipped.x_tiles(), (0, 0));
    assert_eq!(clipped.y_tiles(), (0, 0));

    let far = TilesIntersection::from_bbox(50, 50, &styled(400, 10, 500, 10, 4, LineCap::Butt, 2)
        .bounding_polygon()
        .bbox());
    assert!(far.clip_to_area(2, 2).is_none());

    assert_eq!(n_tiles(100, 100, 50, 50), (2, 2));
    assert_eq!(n_tiles(101, 100, 50, 50), (3, 2));
}

// ---- Brute-force coverage checks -----------------------------------------
//
// The checks below compare the tiler's assignments against an independent
// polygon-rectangle overlap test built from orientation predicates, not
// from the separating-axis projection the tiler itself uses.

fn orient(p: P2, q: P2, r: P2) -> i128 {
    let qx = (q.x - p.x) as i128;
    let qy = (q.y - p.y) as i128;
    let rx = (r.x - p.x) as i128;
    let ry = (r.y - p.y) as i128;
    qx * ry - qy * rx
}

fn on_segment(p: P2, q: P2, r: P2) -> bool {
    r.x >= p.x.min(q.x) && r.x <= p.x.max(q.x) && r.y >= p.y.min(q.y) && r.y <= p.y.max(q.y)
}

fn segments_touch(a: P2, b: P2, c: P2, d: P2) -> bool {
    let d1 = orient(c, d, a);
    let d2 = orient(c, d, b);
    let d3 = orient(a, b, c);
    let d4 = orient(a, b, d);
    if ((d1 > 0 && d2 < 0) || (d1 < 0 && d2 > 0)) && ((d3 > 0 && d4 < 0) || (d3 < 0 && d4 > 0)) {
        return true;
    }
    (d1 == 0 && on_segment(c, d, a))
        || (d2 == 0 && on_segment(c, d, b))
        || (d3 == 0 && on_segment(a, b, c))
        || (d4 == 0 && on_segment(a, b, d))
}

fn point_in_convex(poly: &[P2], p: P2) -> bool {
    let n = poly.len();
    let mut pos = false;
    let mut neg = false;
    for i in 0..n {
        let o = orient(poly[i], poly[(i + 1) % n], p);
        if o > 0 {
            pos = true;
        }
        if o < 0 {
            neg = true;
        }
    }
    !(pos && neg)
}

fn convex_polys_overlap(a: &[P2], b: &[P2]) -> bool {
    if a.iter().any(|p| point_in_convex(b, *p)) {
        return true;
    }
    if b.iter().any(|p| point_in_convex(a, *p)) {
        return true;
    }
    let na = a.len();
    let nb = b.len();
    for i in 0..na {
        for j in 0..nb {
            if segments_touch(a[i], a[(i + 1) % na], b[j], b[(j + 1) % nb]) {
                return true;
            }
        }
    }
    false
}

fn tile_corners(tw: i64, th: i64, tx: i64, ty: i64) -> [P2; 4] {
    [
        P2::new(tx * tw, ty * th),
        P2::new((tx + 1) * tw, ty * th),
        P2::new((tx + 1) * tw, (ty + 1) * th),
        P2::new(tx * tw, (ty + 1) * th),
    ]
}

/// Collect the tile assignment set of one line on a fresh grid, as pairs of
/// tile coordinates.
fn assignments_of(sl: StyledLine, aw: u32, ah: u32, tw: u32, th: u32) -> Vec<(u32, u32)> {
    let mut tiler = Tiler::new(aw, ah, tw, th);
    tiler.add(sl);
    let (infos, _lines) = tiler.drain();
    let mut r = Vec::new();
    for info in infos {
        assert_eq!(info.n_lines, 1);
        r.push((info.tile_x, info.tile_y));
    }
    r
}

fn brute_force_check(sl: StyledLine, aw: u32, ah: u32, tw: u32, th: u32) {
    let assigned = assignments_of(sl, aw, ah, tw, th);
    let quad = sl.bounding_polygon().vertices;
    let (nx, ny) = n_tiles(aw, ah, tw, th);

    // Soundness: every assigned tile truly overlaps the bounding polygon.
    for (tx, ty) in &assigned {
        let corners = tile_corners(tw as i64, th as i64, *tx as i64, *ty as i64);
        assert!(
            convex_polys_overlap(&corners, &quad),
            "tile ({}, {}) was assigned but does not overlap",
            tx,
            ty
        );
    }

    // Completeness within the candidate rectangle: every candidate tile
    // that truly overlaps the bounding polygon is assigned.
    let bbox = sl.bounding_polygon().bbox();
    let cand = TilesIntersection::from_bbox(tw, th, &bbox);
    if let Some(c) = cand.clip_to_area(nx, ny) {
        let (x0, x1) = c.x_tiles();
        let (y0, y1) = c.y_tiles();
        for ty in y0..=y1 {
            for tx in x0..=x1 {
                let corners = tile_corners(tw as i64, th as i64, tx as i64, ty as i64);
                if convex_polys_overlap(&corners, &quad) {
                    assert!(
                        assigned.contains(&(tx, ty)),
                        "tile ({}, {}) overlaps but was not assigned",
                        tx,
                        ty
                    );
                }
            }
        }
    }
}

/// Tile coverage soundness and completeness, checked against the
/// independent overlap test for a variety of lines.
#[test]
fn coverage_against_brute_force() {
    let cases = vec![
        styled(10, 10, 90, 10, 4, LineCap::Butt, 1),
        styled(5, 5, 195, 145, 6, LineCap::Round, 2),
        styled(20, 80, 80, 20, 2, LineCap::Square, 3),
        styled(-50, -50, 130, 170, 8, LineCap::Butt, 4),
        styled(3, 190, 190, 8, 14, LineCap::Round, 5),
        styled(60, 20, 61, 180, 10, LineCap::Square, 6),
        styled(0, 0, 199, 1, 1, LineCap::Butt, 7),
    ];
    for sl in cases {
        brute_force_check(sl, 200, 200, 50, 50);
        brute_force_check(sl, 200, 200, 64, 32);
        brute_force_check(sl, 120, 180, 30, 60);
    }
}

/// The candidate rectangle deliberately truncates at tile boundaries,
/// matching the reference behavior: a bounding polygon that only touches
/// the edge of a tile row from outside is not assigned to that row, even
/// though the closed-set overlap test alone would accept it.
#[test]
fn boundary_touch_stays_in_candidate_rows() {
    // The bounding polygon spans y in [50, 54]: it touches row 0 (tiles
    // covering y in [0, 50]) only along the shared edge y = 50.
    let sl = styled(10, 52, 90, 52, 4, LineCap::Butt, 1);
    let bbox = sl.bounding_polygon().bbox();
    assert_eq!(bbox.min_y(), 50);
    assert_eq!(bbox.max_y(), 54);

    let assigned = assignments_of(sl, 100, 100, 50, 50);
    assert!(assigned.contains(&(0, 1)));
    assert!(assigned.contains(&(1, 1)));
    assert!(!assigned.iter().any(|(_x, y)| *y == 0));
}

/// A width-1 line is still assigned to the tiles it crosses.
#[test]
fn thin_line_is_tiled() {
    let mut tiler = Tiler::new(100, 100, 50, 50);
    tiler.add(styled(10, 10, 13, 14, 1, LineCap::Butt, 1));
    let (infos, lines) = tiler.drain();
    assert_eq!(infos.len(), 1);
    assert_eq!(
        infos[0],
        TileInfo { tile_x: 0, tile_y: 0, start_index: 0, n_lines: 1 }
    );
    assert_eq!(lines.len(), 1);
}

/// Sorted/grouped output invariant: strictly increasing row-major tile
/// order, chained start offsets, and counts that sum to the total number
/// of assignments.
#[test]
fn drain_output_grouped_and_sorted() {
    let scene = vec![
        styled(10, 10, 190, 10, 4, LineCap::Butt, 1),
        styled(5, 5, 195, 145, 6, LineCap::Round, 2),
        styled(20, 80, 80, 20, 2, LineCap::Square, 3),
        styled(10, 100, 190, 100, 30, LineCap::Round, 4),
        styled(100, 5, 100, 145, 12, LineCap::Butt, 5),
    ];
    let mut tiler = Tiler::new(200, 150, 50, 50);
    let mut added = 0u32;
    for sl in &scene {
        tiler.add(*sl);
    }
    // Count total assignments independently, one fresh tiler per line.
    for sl in &scene {
        added += assignments_of(*sl, 200, 150, 50, 50).len() as u32;
    }

    let (infos, lines) = tiler.drain();
    let nx = 4u32;

    let mut sum = 0u32;
    for (i, info) in infos.iter().enumerate() {
        assert!(info.n_lines >= 1);
        if i == 0 {
            assert_eq!(info.start_index, 0);
        } else {
            let prev = &infos[i - 1];
            assert_eq!(info.start_index, prev.start_index + prev.n_lines);
            let prev_ix = prev.tile_y * nx + prev.tile_x;
            let cur_ix = info.tile_y * nx + info.tile_x;
            assert!(prev_ix < cur_ix, "tile order not strictly increasing");
        }
        sum += info.n_lines;
    }
    assert_eq!(sum, added);
    assert_eq!(lines.len() as u32, added);
}
