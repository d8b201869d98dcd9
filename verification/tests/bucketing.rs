//! Tests for the bucketer: bounds, grid intersection, line splitting and
//! bucket population.

use beamline::bucketer::Bucketer;
use beamline::bucketer::Line;
use beamline::bucketer::AABB;
use beamline::types::P2;

fn line(ax: i64, ay: i64, bx: i64, by: i64, width: i64) -> Line {
    Line { start: P2::new(ax, ay), end: P2::new(bx, by), width }
}

#[test]
fn aabb_all_covers_points() {
    assert!(AABB::all(&vec![]).is_none());

    let pts = vec![P2::new(5, 1), P2::new(-3, 8), P2::new(0, -2)];
    let bb = AABB::all(&pts).unwrap();
    assert_eq!(bb.min, P2::new(-3, -2));
    assert_eq!(bb.max, P2::new(5, 8));
}

#[test]
fn grid_intersect_rounds_and_clamps() {
    let bb = AABB { min: P2::new(-30, 10), max: P2::new(130, 95) };
    let gi = bb.grid_intersect(50, 50);
    assert_eq!(gi.min_x, 0); // clamped below zero
    assert_eq!(gi.max_x, 3); // ceiling of 130 / 50
    assert_eq!(gi.min_y, 0); // floor of 10 / 50
    assert_eq!(gi.max_y, 2); // ceiling of 95 / 50

    let aligned = AABB { min: P2::new(50, 50), max: P2::new(100, 100) };
    let gj = aligned.grid_intersect(50, 50);
    assert_eq!(gj.min_x, 1);
    assert_eq!(gj.max_x, 2);
}

#[test]
fn bound_covers_width() {
    // A horizontal line of width 4: the bound extends 2 units on each
    // side perpendicular to the line.
    let bb = line(10, 10, 90, 10, 4).bound();
    assert_eq!(bb.min, P2::new(10, 8));
    assert_eq!(bb.max, P2::new(90, 12));
}

#[test]
fn split_produces_chunks_in_order() {
    let l = line(0, 0, 100, 0, 2);
    let mut splitter = l.split(30);
    // Length 100 over chunks of at most 30 makes 4 chunks.
    let mut chunks = Vec::new();
    while let Some(c) = splitter.next() {
        chunks.push(c);
    }
    assert_eq!(chunks.len(), 4);
    assert_eq!(chunks[0].start, P2::new(0, 0));
    assert_eq!(chunks[0].end, P2::new(25, 0));
    assert_eq!(chunks[1].end, P2::new(50, 0));
    assert_eq!(chunks[3].end, P2::new(100, 0));
    for c in &chunks {
        assert_eq!(c.width, 2);
    }
}

#[test]
fn short_line_is_one_chunk() {
    let l = line(0, 0, 10, 0, 2);
    let mut splitter = l.split(50);
    let first = splitter.next().unwrap();
    assert_eq!(first.start, P2::new(0, 0));
    assert_eq!(first.end, P2::new(10, 0));
    assert_eq!(splitter.next(), None);
}

#[test]
fn add_line_fills_buckets() {
    let mut bucketer = Bucketer::new(100, 100, 50, 50);
    bucketer.add_line(line(10, 10, 90, 10, 4));

    // All chunks of the line lie near the top row of cells: the generous
    // ceiling-rounded grid intersection may reach one row past the line,
    // and together the top-row cells cover x = 0 and x = 1.
    let buckets = bucketer.buckets();
    assert!(!buckets.is_empty());
    let mut xs: Vec<u64> = Vec::new();
    for (key, lines) in buckets.iter() {
        let y = key / 4294967296;
        let x = key % 4294967296;
        assert!(y <= 1);
        assert!(!lines.is_empty());
        if y == 0 {
            xs.push(x);
        }
    }
    assert!(xs.contains(&0));
    assert!(xs.contains(&1));
}

#[test]
fn add_line_far_outside_adds_nothing() {
    let mut bucketer = Bucketer::new(100, 100, 50, 50);
    bucketer.add_line(line(5000, 5000, 6000, 5000, 4));
    assert!(bucketer.buckets().is_empty());
}
