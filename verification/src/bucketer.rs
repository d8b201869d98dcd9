//! Bucket lines into a regular grid of cells, splitting long lines into
//! roughly cell-sized chunks first.

use std::collections::HashMap;

use vstd::prelude::*;

use crate::bbox::max_x_of;
use crate::bbox::max_y_of;
use crate::bbox::min_x_of;
use crate::bbox::min_y_of;
use crate::line::mul_div_trunc;
use crate::line::trunc_div;
use crate::style::off_comp;
use crate::style::signed_offset;
use crate::types::ceil_div_spec;
use crate::types::ceil_div_u32;
use crate::types::coord_in;
use crate::types::isqrt;
use crate::types::sqrt_floor;
use crate::types::P2;
use crate::types::MAX_COORD;

verus! {

broadcast use vstd::std_specs::hash::group_hash_axioms;

/// A line to be placed into buckets: two end points and a width.
#[derive(Debug, Clone, Copy, PartialEq, Eq, Structural)]
pub struct Line {
    /// Start coordinate of the line.
    pub start: P2,
    /// End coordinate of the line.
    pub end: P2,
    /// Width of the line.
    pub width: i64,
}

/// Describes the intersection of an [`AABB`] with a regular grid.
#[derive(Debug, Clone, Copy, PartialEq, Eq, Structural)]
pub struct GridIntersection {
    pub min_x: u32,
    pub max_x: u32,
    pub min_y: u32,
    pub max_y: u32,
}

/// The grid cell under a coordinate, rounding down and clamping below zero.
pub open spec fn floor_cell(v: int, d: int) -> int
    recommends
        d > 0,
{
    if v / d < 0 {
        0
    } else {
        v / d
    }
}

/// The grid cell just past a coordinate, rounding up and clamping below
/// zero.
pub open spec fn ceil_cell(v: int, d: int) -> int
    recommends
        d > 0,
{
    if (v + d - 1) / d < 0 {
        0
    } else {
        (v + d - 1) / d
    }
}

/// Axis-aligned bounding box.
#[derive(Debug, Clone, Copy, PartialEq, Eq, Structural)]
pub struct AABB {
    /// Minimum corner.
    pub min: P2,
    /// Maximum corner.
    pub max: P2,
}

impl AABB {
    /// Create a new axis-aligned bounding box to encompass all supplied
    /// points.
    ///
    /// # Parameters
    ///
    /// - `pts`: The points to cover.
    ///
    /// # Returns
    ///
    /// - `None`: if the vector is empty.
    /// - `Some(_)`: if the vector contains at least one point.
    pub fn all(pts: &Vec<P2>) -> (r: Option<AABB>)
        ensures
            r is Some <==> pts@.len() >= 1,
            r is Some ==> r->Some_0 == (AABB {
                min: P2 { x: min_x_of(pts@) as i64, y: min_y_of(pts@) as i64 },
                max: P2 { x: max_x_of(pts@) as i64, y: max_y_of(pts@) as i64 },
            }),
    {
        if pts.len() == 0 {
            return None;
        }
        let mut min = pts[0];
        let mut max = pts[0];
        let mut i: usize = 1;
        while i < pts.len()
            invariant
                1 <= i <= pts@.len(),
                min.x == min_x_of(pts@.subrange(0, i as int)),
                min.y == min_y_of(pts@.subrange(0, i as int)),
                max.x == max_x_of(pts@.subrange(0, i as int)),
                max.y == max_y_of(pts@.subrange(0, i as int)),
            decreases pts@.len() - i,
        {
            proof {
                assert(pts@.subrange(0, i + 1).drop_last() =~= pts@.subrange(0, i as int));
            }
            let p = pts[i];
            if p.x < min.x {
                min.x = p.x;
            } else if p.x > max.x {
                max.x = p.x;
            }
            if p.y < min.y {
                min.y = p.y;
            } else if p.y > max.y {
                max.y = p.y;
            }
            i += 1;
        }
        proof {
            assert(pts@.subrange(0, pts@.len() as int) =~= pts@);
        }
        Some(AABB { min, max })
    }

    /// Intersect an axis-aligned bounding box with a regular grid.
    ///
    /// The grid has lines that pass through the origin and a fixed cell
    /// size. The minimum corner rounds down and the maximum corner rounds
    /// up, both clamped to cell zero on the low side.
    ///
    /// # Parameters
    ///
    /// - `cell_size_x`: Size of the grid cells along the x direction.
    /// - `cell_size_y`: Size of the grid cells along the y direction.
    ///
    /// # Returns
    ///
    /// Intersection rectangle, describing which cells (both ends included)
    /// the axis-aligned bounding box intersects.
    pub fn grid_intersect(&self, cell_size_x: u32, cell_size_y: u32) -> (r: GridIntersection)
        requires
            cell_size_x > 0,
            cell_size_y > 0,
            coord_in(self.min.x as int, 4 * (MAX_COORD as int)),
            coord_in(self.min.y as int, 4 * (MAX_COORD as int)),
            coord_in(self.max.x as int, 4 * (MAX_COORD as int)),
            coord_in(self.max.y as int, 4 * (MAX_COORD as int)),
        ensures
            r.min_x == floor_cell(self.min.x as int, cell_size_x as int),
            r.max_x == ceil_cell(self.max.x as int, cell_size_x as int),
            r.min_y == floor_cell(self.min.y as int, cell_size_y as int),
            r.max_y == ceil_cell(self.max.y as int, cell_size_y as int),
    {
        let min_x = floor_cell_exec(self.min.x, cell_size_x);
        let max_x = ceil_cell_exec(self.max.x, cell_size_x);
        let min_y = floor_cell_exec(self.min.y, cell_size_y);
        let max_y = ceil_cell_exec(self.max.y, cell_size_y);
        GridIntersection { min_x, max_x, min_y, max_y }
    }
}

/// A negative value divided by a positive divisor is negative.
proof fn lemma_div_neg(v: int, d: int)
    requires
        v < 0,
        d > 0,
    ensures
        v / d < 0,
{
    vstd::arithmetic::div_mod::lemma_fundamental_div_mod(v, d);
    vstd::arithmetic::div_mod::lemma_mod_division_less_than_divisor(v, d);
    assert(v / d < 0) by (nonlinear_arith)
        requires
            v == d * (v / d) + v % d,
            0 <= v % d,
            v < 0,
            d > 0,
    ;
}

/// The ceiling quotient never exceeds a positive dividend.
proof fn lemma_ceil_div_le(a: int, t: int)
    requires
        1 <= a,
        1 <= t,
    ensures
        1 <= ceil_div_spec(a, t) <= a,
{
    crate::tiler::lemma_ceil_div_bounds(a, t);
    let q = ceil_div_spec(a, t);
    assert(q <= a) by (nonlinear_arith)
        requires
            q * t <= a + t - 1,
            1 <= a,
            1 <= t,
            1 <= q,
    ;
}

/// Every split point of a well-formed line has valid coordinates.
proof fn lemma_seg_point_valid(line: Line, n: int, i: int)
    requires
        line.wf(),
        n >= 1,
        0 <= i <= n,
    ensures
        line.seg_point_spec(n, i).valid(),
{
    crate::line::lemma_trunc_div_between(i, n, line.end.x - line.start.x);
    crate::line::lemma_trunc_div_between(i, n, line.end.y - line.start.y);
}

/// A cell under a lower coordinate is no later than the cell past a higher
/// coordinate.
proof fn lemma_floor_le_ceil(v1: int, v2: int, d: int)
    requires
        v1 <= v2,
        d > 0,
    ensures
        floor_cell(v1, d) <= ceil_cell(v2, d),
{
    vstd::arithmetic::div_mod::lemma_div_is_ordered(v1, v2 + d - 1, d);
}

/// Compute `floor_cell` without signed division.
fn floor_cell_exec(v: i64, d: u32) -> (r: u32)
    requires
        d > 0,
        coord_in(v as int, 4 * (MAX_COORD as int)),
    ensures
        r == floor_cell(v as int, d as int),
{
    if v < 0 {
        proof {
            lemma_div_neg(v as int, d as int);
        }
        0
    } else {
        proof {
            vstd::arithmetic::div_mod::lemma_div_pos_is_pos(v as int, d as int);
            vstd::arithmetic::div_mod::lemma_div_nonincreasing(v as int, d as int);
        }
        ((v as u64) / (d as u64)) as u32
    }
}

/// Compute `ceil_cell` without signed division.
fn ceil_cell_exec(v: i64, d: u32) -> (r: u32)
    requires
        d > 0,
        coord_in(v as int, 4 * (MAX_COORD as int)),
    ensures
        r == ceil_cell(v as int, d as int),
{
    if v <= 0 {
        proof {
            if v + d - 1 >= 0 {
                vstd::arithmetic::div_mod::lemma_basic_div(v + d - 1, d as int);
            } else {
                lemma_div_neg(v + d - 1, d as int);
            }
        }
        0
    } else {
        proof {
            vstd::arithmetic::div_mod::lemma_div_plus_one(v - 1, d as int);
            vstd::arithmetic::div_mod::lemma_div_pos_is_pos(v - 1, d as int);
            vstd::arithmetic::div_mod::lemma_div_nonincreasing(v - 1, d as int);
            assert(v + d - 1 == d + (v - 1));
        }
        (((v - 1) as u64) / (d as u64) + 1) as u32
    }
}

impl Line {
    /// All coordinates in range, distinct end points, positive width.
    pub open spec fn wf(self) -> bool {
        &&& self.start.valid()
        &&& self.end.valid()
        &&& self.start != self.end
        &&& 0 < self.width <= MAX_COORD
    }

    /// Length of the line, rounded down to an integer.
    pub open spec fn len_floor(self) -> int {
        sqrt_floor(crate::types::sqdist_spec(self.start, self.end) as nat) as int
    }

    /// The number of chunks the line is split into for a maximum chunk
    /// length.
    pub open spec fn seg_count_spec(self, length: int) -> int {
        ceil_div_spec(self.len_floor(), length)
    }

    /// The `i`-th split point: the exact rational point at parameter
    /// `i / n`, with each coordinate rounded toward the start.
    pub open spec fn seg_point_spec(self, n: int, i: int) -> P2
        recommends
            n >= 1,
    {
        P2 {
            x: (self.start.x + trunc_div(i * (self.end.x - self.start.x), n)) as i64,
            y: (self.start.y + trunc_div(i * (self.end.y - self.start.y), n)) as i64,
        }
    }

    /// The `i`-th chunk of the line when split into `n` chunks.
    pub open spec fn segment_spec(self, n: int, i: int) -> Line
        recommends
            n >= 1,
    {
        Line {
            start: self.seg_point_spec(n, i),
            end: self.seg_point_spec(n, i + 1),
            width: self.width,
        }
    }

    /// Split a line into chunks of a given maximum length.
    ///
    /// # Parameters
    ///
    /// - `length`: the maximum length of a chunk.
    ///
    /// # Returns
    ///
    /// A [`LineSplitter`] that produces the chunks in order.
    pub fn split(&self, length: i64) -> (r: LineSplitter)
        requires
            self.wf(),
            1 <= length <= MAX_COORD,
        ensures
            r == (LineSplitter {
                line: *self,
                n_steps: self.seg_count_spec(length as int) as u32,
                i: 0,
            }),
            r.n_steps as int == self.seg_count_spec(length as int),
            r.wf(),
    {
        let sq = sqdist_exec(self.start, self.end);
        let l: u64 = isqrt(sq);
        proof {
            if l == 0 {
                assert(sq < 1) by (nonlinear_arith)
                    requires
                        l == 0,
                        sq < (l + 1) * (l + 1),
                ;
                let dx = self.end.x - self.start.x;
                let dy = self.end.y - self.start.y;
                assert(dx == 0 && dy == 0) by (nonlinear_arith)
                    requires
                        dx as int == self.end.x - self.start.x,
                        dy as int == self.end.y - self.start.y,
                        (self.end.x - self.start.x) * (self.end.x - self.start.x) + (self.end.y
                            - self.start.y) * (self.end.y - self.start.y) == 0,
                ;
                assert(false);
            }
            assert(l < 0x1_0000_0000) by {
                if l >= 0x1_0000_0000 {
                    assert(l * l >= 0x1_0000_0000 * 0x1_0000_0000) by (nonlinear_arith)
                        requires
                            l >= 0x1_0000_0000,
                    ;
                }
            }
        }
        let n32: u32 = ceil_div_u32(l as u32, length as u32);
        proof {
            crate::tiler::lemma_ceil_div_bounds(l as int, length as int);
            vstd::arithmetic::div_mod::lemma_div_nonincreasing(
                l + length - 1,
                length as int,
            );
        }
        LineSplitter { line: *self, n_steps: n32, i: 0 }
    }

    /// The axis-aligned bound of the line, width included.
    ///
    /// The line is widened by half its width on each side (perpendicular
    /// offsets rounded to the nearest unit), and the bound covers the four
    /// corners of the resulting shape.
    pub open spec fn bound_corners(self) -> Seq<P2> {
        let vx = self.end.x - self.start.x;
        let vy = self.end.y - self.start.y;
        let l = self.len_floor();
        let px = signed_offset(self.width as int, vy, l);
        let py = signed_offset(self.width as int, vx, l);
        seq![
            P2 { x: (self.start.x + px) as i64, y: (self.start.y + py) as i64 },
            P2 { x: (self.start.x - px) as i64, y: (self.start.y - py) as i64 },
            P2 { x: (self.end.x + px) as i64, y: (self.end.y + py) as i64 },
            P2 { x: (self.end.x - px) as i64, y: (self.end.y - py) as i64 },
        ]
    }

    /// The axis-aligned bound of the widened line, as the cover of its
    /// four corners.
    pub open spec fn bound_spec(self) -> AABB {
        let corners = self.bound_corners();
        AABB {
            min: P2 { x: min_x_of(corners) as i64, y: min_y_of(corners) as i64 },
            max: P2 { x: max_x_of(corners) as i64, y: max_y_of(corners) as i64 },
        }
    }

    /// Compute the axis-aligned bound of the line, width included.
    pub fn bound(&self) -> (r: AABB)
        requires
            self.wf(),
        ensures
            r == self.bound_spec(),
            coord_in(r.min.x as int, 2 * (MAX_COORD as int)),
            coord_in(r.min.y as int, 2 * (MAX_COORD as int)),
            coord_in(r.max.x as int, 2 * (MAX_COORD as int)),
            coord_in(r.max.y as int, 2 * (MAX_COORD as int)),
            r.min.x <= r.max.x,
            r.min.y <= r.max.y,
    {
        let vx = self.end.x - self.start.x;
        let vy = self.end.y - self.start.y;
        let sq = sqdist_exec(self.start, self.end);
        let l: u64 = isqrt(sq);
        proof {
            assert(sq == vx * vx + vy * vy);
            assert(vx * vx <= sq && vy * vy <= sq) by (nonlinear_arith)
                requires
                    sq == vx * vx + vy * vy,
            ;
            if l == 0 {
                assert(sq < 1) by (nonlinear_arith)
                    requires
                        l == 0,
                        sq < (l + 1) * (l + 1),
                ;
                assert(vx == 0 && vy == 0) by (nonlinear_arith)
                    requires
                        vx * vx + vy * vy == 0,
                ;
                assert(false);
            }
            assert(l < 0x1_0000_0000) by {
                if l >= 0x1_0000_0000 {
                    assert(l * l >= 0x1_0000_0000 * 0x1_0000_0000) by (nonlinear_arith)
                        requires
                            l >= 0x1_0000_0000,
                    ;
                }
            }
            assert(vx * vx <= l * l + 2 * l) by (nonlinear_arith)
                requires
                    vx * vx <= sq,
                    sq < (l + 1) * (l + 1),
            ;
            assert(coord_in(vx as int, l as int)) by (nonlinear_arith)
                requires
                    vx * vx <= l * l + 2 * l,
                    l >= 1,
            ;
            assert(vy * vy <= l * l + 2 * l) by (nonlinear_arith)
                requires
                    vy * vy <= sq,
                    sq < (l + 1) * (l + 1),
            ;
            assert(coord_in(vy as int, l as int)) by (nonlinear_arith)
                requires
                    vy * vy <= l * l + 2 * l,
                    l >= 1,
            ;
        }
        proof {
            assert(l as int == self.len_floor());
        }
        let px = off_comp(self.width, vy, l);
        let py = off_comp(self.width, vx, l);
        let mut corners: Vec<P2> = Vec::new();
        corners.push(P2 { x: self.start.x + px, y: self.start.y + py });
        corners.push(P2 { x: self.start.x - px, y: self.start.y - py });
        corners.push(P2 { x: self.end.x + px, y: self.end.y + py });
        corners.push(P2 { x: self.end.x - px, y: self.end.y - py });
        proof {
            assert(corners@ =~= self.bound_corners());
            crate::bbox::lemma_bbox_bounds(corners@, 2 * (MAX_COORD as int));
            crate::bbox::lemma_min_le_max(corners@);
        }
        let r = AABB::all(&corners).unwrap();
        r
    }
}

/// Squared distance between two points, computed without overflow.
fn sqdist_exec(a: P2, b: P2) -> (r: u64)
    requires
        a.valid(),
        b.valid(),
    ensures
        r as int == crate::types::sqdist_spec(a, b),
        r as int == (b.x - a.x) * (b.x - a.x) + (b.y - a.y) * (b.y - a.y),
{
    let dx = b.x - a.x;
    let dy = b.y - a.y;
    proof {
        assert(0 <= dx * dx + dy * dy <= 0x2000_0000_0000_0000 && 0 <= dx * dx && 0 <= dy * dy
            && dx * dx + dy * dy == (a.x - b.x) * (a.x - b.x) + (a.y - b.y) * (a.y - b.y)) by (
        nonlinear_arith)
            requires
                dx as int == b.x - a.x,
                dy as int == b.y - a.y,
                coord_in(dx as int, 2 * (MAX_COORD as int)),
                coord_in(dy as int, 2 * (MAX_COORD as int)),
        ;
    }
    ((dx as i128) * (dx as i128) + (dy as i128) * (dy as i128)) as u64
}

/// Iterator-like splitter that produces the chunks of a line in order.
///
/// See [`Line::split`], which produces this splitter.
#[derive(Debug, Clone, Copy, PartialEq, Eq, Structural)]
pub struct LineSplitter {
    /// The line being split.
    pub line: Line,
    /// Total number of chunks.
    pub n_steps: u32,
    /// Index of the next chunk to produce.
    pub i: u32,
}

impl LineSplitter {
    /// The line is well formed and the cursor is within the chunk range.
    pub open spec fn wf(self) -> bool {
        self.line.wf() && 1 <= self.n_steps && self.i <= self.n_steps
    }

    /// Produce the next chunk of the line, or `None` when the line is
    /// exhausted.
    pub fn next(&mut self) -> (r: Option<Line>)
        requires
            old(self).wf(),
        ensures
            final(self).wf(),
            final(self).line == old(self).line,
            final(self).n_steps == old(self).n_steps,
            old(self).i < old(self).n_steps ==> r == Some(
                old(self).line.segment_spec(old(self).n_steps as int, old(self).i as int),
            ) && final(self).i == old(self).i + 1,
            old(self).i >= old(self).n_steps ==> r is None && final(self).i == old(self).i,
    {
        if self.i >= self.n_steps {
            return None;
        }
        let p0 = seg_point_exec(&self.line, self.n_steps, self.i);
        let p1 = seg_point_exec(&self.line, self.n_steps, self.i + 1);
        let r = Line { start: p0, end: p1, width: self.line.width };
        self.i = self.i + 1;
        Some(r)
    }
}

/// Compute one split point of a line without overflow.
fn seg_point_exec(line: &Line, n: u32, i: u32) -> (r: P2)
    requires
        line.wf(),
        n >= 1,
        i <= n,
    ensures
        r == line.seg_point_spec(n as int, i as int),
        r.valid(),
{
    let vx = line.end.x - line.start.x;
    let vy = line.end.y - line.start.y;
    let dx = mul_div_trunc(i as i128, vx, n as i128);
    let dy = mul_div_trunc(i as i128, vy, n as i128);
    proof {
        crate::line::lemma_trunc_div_between(i as int, n as int, vx as int);
        crate::line::lemma_trunc_div_between(i as int, n as int, vy as int);
    }
    P2 { x: line.start.x + dx, y: line.start.y + dy }
}

/// The bucket map with one more line appended to one cell's list.
pub open spec fn map_add(m: Map<u64, Seq<Line>>, key: u64, line: Line) -> Map<u64, Seq<Line>> {
    if m.contains_key(key) {
        m.insert(key, m[key].push(line))
    } else {
        m.insert(key, seq![line])
    }
}

/// Key for the cell at `(x, y)`: a single value combining both grid
/// coordinates.
pub open spec fn cell_key_spec(x: int, y: int) -> int {
    y * 0x1_0000_0000 + x
}

/// The bucket map after adding a line to the cells of row `y` with x index
/// in `x0 ..= x - 1`, in increasing x order.
pub open spec fn cells_row_upto(
    m: Map<u64, Seq<Line>>,
    line: Line,
    x0: int,
    x: int,
    y: int,
) -> Map<u64, Seq<Line>>
    decreases x - x0,
{
    if x <= x0 {
        m
    } else {
        map_add(cells_row_upto(m, line, x0, x - 1, y), cell_key_spec(x - 1, y) as u64, line)
    }
}

/// The bucket map after adding a line to the cell rows with y index in
/// `y0 ..= y - 1`, each row covering x indices `x0 ..= x1`.
pub open spec fn cells_rows_upto(
    m: Map<u64, Seq<Line>>,
    line: Line,
    x0: int,
    x1: int,
    y0: int,
    y: int,
) -> Map<u64, Seq<Line>>
    decreases y - y0,
{
    if y <= y0 {
        m
    } else {
        cells_row_upto(cells_rows_upto(m, line, x0, x1, y0, y - 1), line, x0, x1 + 1, y - 1)
    }
}

/// The effect of bucketing one chunk: its widened bound is intersected
/// with the grid; a chunk entirely beyond the cell range is skipped, and
/// the rectangle is otherwise clamped to the cell range and every covered
/// cell receives the chunk. Degenerate chunks (a rounding artifact of
/// very short lines) are skipped.
pub open spec fn segment_effect(
    m: Map<u64, Seq<Line>>,
    bucket_width: u32,
    bucket_height: u32,
    max_x: int,
    max_y: int,
    seg: Line,
) -> Map<u64, Seq<Line>> {
    if seg.start == seg.end {
        m
    } else {
        let bb = seg.bound_spec();
        let gmin_x = floor_cell(bb.min.x as int, bucket_width as int);
        let gmax_x = ceil_cell(bb.max.x as int, bucket_width as int);
        let gmin_y = floor_cell(bb.min.y as int, bucket_height as int);
        let gmax_y = ceil_cell(bb.max.y as int, bucket_height as int);
        if gmin_x > max_x || gmin_y > max_y {
            m
        } else {
            let cmax_x = if gmax_x > max_x {
                max_x
            } else {
                gmax_x
            };
            let cmax_y = if gmax_y > max_y {
                max_y
            } else {
                gmax_y
            };
            cells_rows_upto(m, seg, gmin_x, cmax_x, gmin_y, cmax_y + 1)
        }
    }
}

/// The bucket map after bucketing the first `i` chunks of a line split
/// into `n` chunks.
pub open spec fn segments_upto(
    m: Map<u64, Seq<Line>>,
    bucket_width: u32,
    bucket_height: u32,
    max_x: int,
    max_y: int,
    line: Line,
    n: int,
    i: int,
) -> Map<u64, Seq<Line>>
    decreases i,
{
    if i <= 0 {
        m
    } else {
        segment_effect(
            segments_upto(m, bucket_width, bucket_height, max_x, max_y, line, n, i - 1),
            bucket_width,
            bucket_height,
            max_x,
            max_y,
            line.segment_spec(n, i - 1),
        )
    }
}

/// Assigns lines to a regular grid of cells ("buckets"), splitting each
/// line into roughly cell-sized chunks first.
#[derive(Debug)]
pub struct Bucketer {
    /// Width of the screen.
    pub screen_width: u32,
    /// Height of the screen.
    pub screen_height: u32,
    /// Width of a single bucket.
    pub bucket_width: u32,
    /// Height of a single bucket.
    pub bucket_height: u32,
    /// Map from combined cell keys to the lines the cells contain.
    pub buckets: HashMap<u64, Vec<Line>>,
}

impl Bucketer {
    /// The per-cell line lists, as a map of sequences.
    pub open spec fn bview(self) -> Map<u64, Seq<Line>> {
        self.buckets@.map_values(|v: Vec<Line>| v@)
    }

    /// The chunk length used when splitting lines: the smaller bucket edge.
    pub open spec fn min_edge_spec(self) -> int {
        if self.bucket_width < self.bucket_height {
            self.bucket_width as int
        } else {
            self.bucket_height as int
        }
    }

    /// Positive cell sizes and in-range screen sizes.
    pub open spec fn wf(self) -> bool {
        &&& 1 <= self.bucket_width <= MAX_COORD
        &&& 1 <= self.bucket_height <= MAX_COORD
        &&& 1 <= self.screen_width <= MAX_COORD
        &&& 1 <= self.screen_height <= MAX_COORD
    }

    /// Create a new Bucketer.
    pub fn new(screen_width: u32, screen_height: u32, bucket_width: u32, bucket_height: u32) -> (r:
        Bucketer)
        requires
            1 <= screen_width <= MAX_COORD,
            1 <= screen_height <= MAX_COORD,
            1 <= bucket_width <= MAX_COORD,
            1 <= bucket_height <= MAX_COORD,
        ensures
            r.wf(),
            r.screen_width == screen_width,
            r.screen_height == screen_height,
            r.bucket_width == bucket_width,
            r.bucket_height == bucket_height,
            r.bview() =~= Map::<u64, Seq<Line>>::empty(),
    {
        Bucketer {
            screen_width,
            screen_height,
            bucket_width,
            bucket_height,
            buckets: HashMap::new(),
        }
    }

    /// Return a reference to the bucket map, from combined cell keys to the
    /// lines each cell contains.
    pub fn buckets(&self) -> (r: &HashMap<u64, Vec<Line>>)
        ensures
            r == &self.buckets,
    {
        &self.buckets
    }

    /// Bucket a line.
    ///
    /// This splits the supplied `line` up into small chunks that are
    /// approximately the size of a cell. Then all chunks which intersect
    /// each cell are added to the buckets.
    ///
    /// # Parameters
    ///
    /// - `line`: Line to add to buckets.
    pub fn add_line(&mut self, line: Line)
        requires
            old(self).wf(),
            line.wf(),
        ensures
            final(self).wf(),
            final(self).screen_width == old(self).screen_width,
            final(self).screen_height == old(self).screen_height,
            final(self).bucket_width == old(self).bucket_width,
            final(self).bucket_height == old(self).bucket_height,
            final(self).bview() =~= segments_upto(
                old(self).bview(),
                old(self).bucket_width,
                old(self).bucket_height,
                ceil_div_spec(old(self).screen_width as int, old(self).bucket_width as int),
                ceil_div_spec(old(self).screen_height as int, old(self).bucket_height as int),
                line,
                line.seg_count_spec(old(self).min_edge_spec()),
                line.seg_count_spec(old(self).min_edge_spec()),
            ),
    {
        let max_x = ceil_div_u32(self.screen_width, self.bucket_width);
        let max_y = ceil_div_u32(self.screen_height, self.bucket_height);
        proof {
            lemma_ceil_div_le(self.screen_width as int, self.bucket_width as int);
            lemma_ceil_div_le(self.screen_height as int, self.bucket_height as int);
        }

        let min_edge = if self.bucket_width < self.bucket_height {
            self.bucket_width
        } else {
            self.bucket_height
        };
        let ghost bw = self.bucket_width;
        let ghost bh = self.bucket_height;
        let ghost base = self.bview();
        let mut splitter = line.split(min_edge as i64);
        let ghost n = splitter.n_steps as int;
        loop
            invariant
                self.wf(),
                self.screen_width == old(self).screen_width,
                self.screen_height == old(self).screen_height,
                self.bucket_width == bw,
                self.bucket_height == bh,
                bw == old(self).bucket_width,
                bh == old(self).bucket_height,
                max_x == ceil_div_spec(self.screen_width as int, bw as int),
                max_y == ceil_div_spec(self.screen_height as int, bh as int),
                max_x <= MAX_COORD,
                max_y <= MAX_COORD,
                splitter.wf(),
                splitter.line == line,
                splitter.n_steps as int == n,
                line.wf(),
                base == old(self).bview(),
                self.bview() =~= segments_upto(
                    base,
                    bw,
                    bh,
                    max_x as int,
                    max_y as int,
                    line,
                    n,
                    splitter.i as int,
                ),
            ensures
                self.bview() =~= segments_upto(
                    base,
                    bw,
                    bh,
                    max_x as int,
                    max_y as int,
                    line,
                    n,
                    n,
                ),
                self.wf(),
                self.screen_width == old(self).screen_width,
                self.screen_height == old(self).screen_height,
                self.bucket_width == old(self).bucket_width,
                self.bucket_height == old(self).bucket_height,
            decreases splitter.n_steps - splitter.i,
        {
            let ghost prev_i = splitter.i as int;
            let opt = splitter.next();
            let sub_line = match opt {
                None => {
                    break ;
                },
                Some(s) => s,
            };
            proof {
                lemma_seg_point_valid(line, n, prev_i);
                lemma_seg_point_valid(line, n, prev_i + 1);
            }
            self.add_segment(sub_line, max_x, max_y);
        }
    }

    /// Bucket one chunk of a line.
    fn add_segment(&mut self, seg: Line, max_x: u32, max_y: u32)
        requires
            old(self).wf(),
            seg.start.valid(),
            seg.end.valid(),
            0 < seg.width <= MAX_COORD,
            max_x <= MAX_COORD,
            max_y <= MAX_COORD,
        ensures
            final(self).wf(),
            final(self).screen_width == old(self).screen_width,
            final(self).screen_height == old(self).screen_height,
            final(self).bucket_width == old(self).bucket_width,
            final(self).bucket_height == old(self).bucket_height,
            final(self).bview() =~= segment_effect(
                old(self).bview(),
                old(self).bucket_width,
                old(self).bucket_height,
                max_x as int,
                max_y as int,
                seg,
            ),
    {
        if seg.start.x == seg.end.x && seg.start.y == seg.end.y {
            return ;
        }
        let bb = seg.bound();
        let intersection = bb.grid_intersect(self.bucket_width, self.bucket_height);

        if intersection.min_x > max_x || intersection.min_y > max_y {
            return ;
        }
        let cmax_x = if intersection.max_x > max_x {
            max_x
        } else {
            intersection.max_x
        };
        let cmax_y = if intersection.max_y > max_y {
            max_y
        } else {
            intersection.max_y
        };
        let x0 = intersection.min_x;
        let y0 = intersection.min_y;
        proof {
            lemma_floor_le_ceil(bb.min.x as int, bb.max.x as int, self.bucket_width as int);
            lemma_floor_le_ceil(bb.min.y as int, bb.max.y as int, self.bucket_height as int);
        }

        let ghost base = self.bview();
        let ghost bw = self.bucket_width;
        let ghost bh = self.bucket_height;
        let mut cell_y = y0;
        while cell_y <= cmax_y
            invariant
                self.wf(),
                self.screen_width == old(self).screen_width,
                self.screen_height == old(self).screen_height,
                self.bucket_width == bw,
                self.bucket_height == bh,
                y0 <= cell_y <= cmax_y + 1,
                x0 <= cmax_x,
                cmax_y <= MAX_COORD,
                cmax_x <= MAX_COORD,
                base == old(self).bview(),
                self.bview() =~= cells_rows_upto(
                    base,
                    seg,
                    x0 as int,
                    cmax_x as int,
                    y0 as int,
                    cell_y as int,
                ),
            decreases cmax_y + 1 - cell_y,
        {
            let mut cell_x = x0;
            while cell_x <= cmax_x
                invariant
                    self.wf(),
                    self.screen_width == old(self).screen_width,
                    self.screen_height == old(self).screen_height,
                    self.bucket_width == bw,
                    self.bucket_height == bh,
                    y0 <= cell_y <= cmax_y,
                    x0 <= cell_x <= cmax_x + 1,
                    cmax_y <= MAX_COORD,
                    cmax_x <= MAX_COORD,
                    base == old(self).bview(),
                    self.bview() =~= cells_row_upto(
                        cells_rows_upto(
                            base,
                            seg,
                            x0 as int,
                            cmax_x as int,
                            y0 as int,
                            cell_y as int,
                        ),
                        seg,
                        x0 as int,
                        cell_x as int,
                        cell_y as int,
                    ),
                decreases cmax_x + 1 - cell_x,
            {
                let key: u64 = (cell_y as u64) * 4294967296 + (cell_x as u64);
                self.add_line_to_cell(key, seg);
                cell_x += 1;
            }
            cell_y += 1;
        }
    }

    /// Add a line to a cell.
    ///
    /// # Parameters
    ///
    /// - `cell_key`: Combined key of the cell to which the line should be
    ///   added.
    /// - `line`: The line to add to the cell.
    fn add_line_to_cell(&mut self, cell_key: u64, line: Line)
        ensures
            final(self).wf() == old(self).wf(),
            final(self).screen_width == old(self).screen_width,
            final(self).screen_height == old(self).screen_height,
            final(self).bucket_width == old(self).bucket_width,
            final(self).bucket_height == old(self).bucket_height,
            final(self).bview() =~= map_add(old(self).bview(), cell_key, line),
    {
        let existing = self.buckets.get(&cell_key);
        match existing {
            None => {
                let mut nv: Vec<Line> = Vec::new();
                nv.push(line);
                self.buckets.insert(cell_key, nv);
            },
            Some(existing_vec) => {
                let mut nv: Vec<Line> = Vec::new();
                let mut i: usize = 0;
                while i < existing_vec.len()
                    invariant
                        0 <= i <= existing_vec@.len(),
                        nv@ =~= existing_vec@.subrange(0, i as int),
                    decreases existing_vec@.len() - i,
                {
                    nv.push(existing_vec[i]);
                    i += 1;
                }
                proof {
                    assert(existing_vec@.subrange(0, existing_vec@.len() as int)
                        =~= existing_vec@);
                }
                nv.push(line);
                self.buckets.insert(cell_key, nv);
            },
        }
    }
}

} // verus!
