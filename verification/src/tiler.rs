//! Assign styled lines to a regular grid of tiles, and compact the
//! assignments into sorted, per-tile runs.

use vstd::prelude::*;

use crate::bbox::Bbox;
use crate::line::Line;
use crate::polygon::is_separating_axis_spec;
use crate::polygon::Polygon;
use crate::style::bounding_quad_spec;
use crate::style::StyledLine;
use crate::types::ceil_div_spec;
use crate::types::ceil_div_u32;
use crate::types::rot90_spec;
use crate::types::sub_pp_spec;
use crate::types::P2;
use crate::types::V2;
use crate::types::MAX_COORD;
use crate::types::VERT_BOUND;

verus! {

/// Information about a tile.
#[derive(Debug, Clone, Copy, PartialEq, Eq, Structural)]
pub struct TileInfo {
    /// X (horizontal) coordinate of the tile.
    pub tile_x: u32,
    /// Y (vertical) coordinate of the tile.
    pub tile_y: u32,
    /// Start index of the tile's lines in the list of lines.
    pub start_index: u32,
    /// Number of lines in the tile.
    pub n_lines: u32,
}

/// Compute the number of required tiles along each axis, using a "ceiling"
/// integer divide.
pub fn n_tiles(area_width: u32, area_height: u32, tile_width: u32, tile_height: u32) -> (r: (
    u32,
    u32,
))
    requires
        tile_width > 0,
        tile_height > 0,
    ensures
        r.0 == ceil_div_spec(area_width as int, tile_width as int),
        r.1 == ceil_div_spec(area_height as int, tile_height as int),
{
    let n_x_tiles = ceil_div_u32(area_width, tile_width);
    let n_y_tiles = ceil_div_u32(area_height, tile_height);
    (n_x_tiles, n_y_tiles)
}

/// The ceiling quotient, multiplied back, does not overshoot by a full
/// divisor, and is at least one for a positive dividend.
pub proof fn lemma_ceil_div_bounds(a: int, t: int)
    requires
        1 <= a,
        1 <= t,
    ensures
        1 <= ceil_div_spec(a, t),
        ceil_div_spec(a, t) * t <= a + t - 1,
{
    let q = ceil_div_spec(a, t);
    vstd::arithmetic::div_mod::lemma_fundamental_div_mod(a + t - 1, t);
    vstd::arithmetic::div_mod::lemma_mod_division_less_than_divisor(a + t - 1, t);
    assert(a + t - 1 == t * q + (a + t - 1) % t);
    vstd::arithmetic::div_mod::lemma_div_by_self(t);
    vstd::arithmetic::div_mod::lemma_div_is_ordered(t, a + t - 1, t);
}

/// The grid cell that a coordinate falls in: truncating division by the
/// tile size, with negative coordinates clamped to cell zero.
pub open spec fn tile_coord_of(v: int, ts: int) -> int
    recommends
        ts > 0,
{
    if v < 0 {
        0
    } else {
        v / ts
    }
}

/// Represents the intersection of something (usually a bounding box) with
/// the tile indices.
#[derive(Debug, Clone, Copy, PartialEq, Eq, Structural)]
pub struct TilesIntersection {
    pub min_x_tile: u32,
    pub max_x_tile: u32,
    pub min_y_tile: u32,
    pub max_y_tile: u32,
}

impl TilesIntersection {
    /// Clipping `self` against an `n_x_tiles` by `n_y_tiles` grid: `None`
    /// when the whole rectangle lies outside the grid, otherwise the
    /// rectangle with its upper corner clamped to the last tile.
    pub open spec fn clip_spec(self, n_x_tiles: u32, n_y_tiles: u32) -> Option<TilesIntersection> {
        if self.min_x_tile >= n_x_tiles || self.min_y_tile >= n_y_tiles {
            None
        } else {
            Some(
                TilesIntersection {
                    min_x_tile: self.min_x_tile,
                    max_x_tile: if self.max_x_tile < (n_x_tiles - 1) as u32 {
                        self.max_x_tile
                    } else {
                        (n_x_tiles - 1) as u32
                    },
                    min_y_tile: self.min_y_tile,
                    max_y_tile: if self.max_y_tile < (n_y_tiles - 1) as u32 {
                        self.max_y_tile
                    } else {
                        (n_y_tiles - 1) as u32
                    },
                },
            )
        }
    }

    /// Construct a tile intersection with a bounding box.
    ///
    /// Both the minimum and the maximum corner are mapped to tile indices by
    /// truncating division; the maximum edge is deliberately not rounded up,
    /// matching the narrowing approximation of the candidate-tile rectangle
    /// that the exact overlap test refines.
    pub fn from_bbox(tile_width: u32, tile_height: u32, bbox: &Bbox) -> (r: TilesIntersection)
        requires
            tile_width > 0,
            tile_height > 0,
            bbox.wf(),
            -4 * (MAX_COORD as int) <= bbox.min_x_spec() <= 4 * (MAX_COORD as int),
            -4 * (MAX_COORD as int) <= bbox.max_x_spec() <= 4 * (MAX_COORD as int),
            -4 * (MAX_COORD as int) <= bbox.min_y_spec() <= 4 * (MAX_COORD as int),
            -4 * (MAX_COORD as int) <= bbox.max_y_spec() <= 4 * (MAX_COORD as int),
        ensures
            r.min_x_tile == tile_coord_of(bbox.min_x_spec(), tile_width as int),
            r.max_x_tile == tile_coord_of(bbox.max_x_spec(), tile_width as int),
            r.min_y_tile == tile_coord_of(bbox.min_y_spec(), tile_height as int),
            r.max_y_tile == tile_coord_of(bbox.max_y_spec(), tile_height as int),
    {
        let min_x_tile = tile_coord(bbox.min_x(), tile_width);
        let max_x_tile = tile_coord(bbox.max_x(), tile_width);
        let min_y_tile = tile_coord(bbox.min_y(), tile_height);
        let max_y_tile = tile_coord(bbox.max_y(), tile_height);
        TilesIntersection { min_x_tile, max_x_tile, min_y_tile, max_y_tile }
    }

    /// Clips a `TilesIntersection` to an area of tiles.
    ///
    /// If the `TilesIntersection` does not intersect the area at all, `None`
    /// is returned.
    pub fn clip_to_area(&self, n_x_tiles: u32, n_y_tiles: u32) -> (r: Option<TilesIntersection>)
        requires
            n_x_tiles > 0,
            n_y_tiles > 0,
        ensures
            r == self.clip_spec(n_x_tiles, n_y_tiles),
    {
        if self.min_x_tile >= n_x_tiles || self.min_y_tile >= n_y_tiles {
            None
        } else {
            Some(
                TilesIntersection {
                    min_x_tile: self.min_x_tile,
                    max_x_tile: if self.max_x_tile < n_x_tiles - 1 {
                        self.max_x_tile
                    } else {
                        n_x_tiles - 1
                    },
                    min_y_tile: self.min_y_tile,
                    max_y_tile: if self.max_y_tile < n_y_tiles - 1 {
                        self.max_y_tile
                    } else {
                        n_y_tiles - 1
                    },
                },
            )
        }
    }

    /// Returns the range of x (horizontal) tile indices, both ends inclusive.
    pub fn x_tiles(&self) -> (r: (u32, u32))
        ensures
            r.0 == self.min_x_tile,
            r.1 == self.max_x_tile,
    {
        (self.min_x_tile, self.max_x_tile)
    }

    /// Returns the range of y (vertical) tile indices, both ends inclusive.
    pub fn y_tiles(&self) -> (r: (u32, u32))
        ensures
            r.0 == self.min_y_tile,
            r.1 == self.max_y_tile,
    {
        (self.min_y_tile, self.max_y_tile)
    }
}

/// Map one coordinate to its grid cell, clamping negatives to cell zero.
fn tile_coord(v: i64, ts: u32) -> (r: u32)
    requires
        ts > 0,
        -4 * (MAX_COORD as int) <= v <= 4 * (MAX_COORD as int),
    ensures
        r == tile_coord_of(v as int, ts as int),
{
    if v < 0 {
        0
    } else {
        proof {
            vstd::arithmetic::div_mod::lemma_div_nonincreasing(v as int, ts as int);
            vstd::arithmetic::div_mod::lemma_div_pos_is_pos(v as int, ts as int);
        }
        ((v as u64) / (ts as u64)) as u32
    }
}

/// The four corners of the tile at grid position `(tx, ty)`, in
/// anti-clockwise order starting from the corner nearest the origin.
pub open spec fn tile_quad_spec(tw: int, th: int, tx: int, ty: int) -> Seq<P2> {
    let min_x = tx * tw;
    let max_x = (tx + 1) * tw;
    let min_y = ty * th;
    let max_y = (ty + 1) * th;
    seq![
        P2 { x: min_x as i64, y: min_y as i64 },
        P2 { x: max_x as i64, y: min_y as i64 },
        P2 { x: max_x as i64, y: max_y as i64 },
        P2 { x: min_x as i64, y: max_y as i64 },
    ]
}

/// Row-major linear index of the tile at `(tx, ty)` in a grid `nx` tiles
/// wide.
pub open spec fn tile_ix_spec(nx: int, tx: int, ty: int) -> int {
    ty * nx + tx
}

/// The separating-axis overlap test between a line's bounding polygon and a
/// tile rectangle, specialized to its four candidate axes: the line's
/// direction, its perpendicular, and the two cardinal directions. The
/// shapes overlap exactly when no candidate axis separates them.
pub open spec fn sat_overlap_spec(tw: int, th: int, tx: int, ty: int, line: Line, poly: Seq<P2>) -> bool {
    let tile = tile_quad_spec(tw, th, tx, ty);
    let v = sub_pp_spec(line.b, line.a);
    let o = P2 { x: 0, y: 0 };
    &&& !is_separating_axis_spec(poly, tile, v, o)
    &&& !is_separating_axis_spec(poly, tile, rot90_spec(v), o)
    &&& !is_separating_axis_spec(poly, tile, V2 { x: 1, y: 0 }, o)
    &&& !is_separating_axis_spec(poly, tile, V2 { x: 0, y: 1 }, o)
}

/// The tile at `(tx, ty)` overlaps the bounding polygon of `sl`.
pub open spec fn tile_overlap_spec(tw: int, th: int, tx: int, ty: int, sl: StyledLine) -> bool {
    sat_overlap_spec(tw, th, tx, ty, sl.line, bounding_quad_spec(sl))
}

/// Tiler: Assigns lines to a regular grid of tiles.
///
/// The intended lifecycle of a `Tiler` is as follows:
///
/// 1. It should be created with [`Tiler::new`] at the start of the renderer,
///    and re-used for each frame.
/// 2. Within a frame, lines should be added to the tiler using [`Tiler::add`].
/// 3. When a frame is to be drawn, [`Tiler::drain`] should be called to
///    produce the necessary rendering structures.
///
/// Re-using the tiler means that the vector containing the styled line
/// information is re-used at its full capacity, and not re-allocated more
/// than necessary.
#[derive(Debug)]
pub struct Tiler {
    pub tile_width: u32,
    pub tile_height: u32,
    pub n_x_tiles: u32,
    pub n_y_tiles: u32,
    /// Vector of tuples containing a linear tile index and a styled line
    /// that has been placed in that tile.
    pub lines: Vec<(usize, StyledLine)>,
}

impl Tiler {
    /// The grid dimensions are consistent: positive tile sizes and tile
    /// counts, grid edges within the derived-coordinate range, and a linear
    /// index range that fits in `usize`.
    pub open spec fn grid_wf(self) -> bool {
        &&& 1 <= self.tile_width <= MAX_COORD
        &&& 1 <= self.tile_height <= MAX_COORD
        &&& 1 <= self.n_x_tiles
        &&& 1 <= self.n_y_tiles
        &&& self.n_x_tiles * self.tile_width <= 2 * (MAX_COORD as int)
        &&& self.n_y_tiles * self.tile_height <= 2 * (MAX_COORD as int)
        &&& self.n_x_tiles * self.n_y_tiles <= usize::MAX
    }

    /// The tiler is well formed: the grid is consistent, the assignment
    /// count fits the output record format, and every recorded assignment
    /// pairs an in-range linear tile index with a well-formed styled line.
    pub open spec fn wf(self) -> bool {
        &&& self.grid_wf()
        &&& self.lines@.len() <= u32::MAX
        &&& forall|k: int|
            0 <= k < self.lines@.len() ==> (#[trigger] self.lines@[k]).0
                < self.n_x_tiles * self.n_y_tiles && self.lines@[k].1.wf()
    }

    /// Creates a new `Tiler` for the specified area and tile sizes.
    ///
    /// All four sizes must be positive and within the coordinate range, and
    /// the resulting grid's linear index range must fit in `usize`.
    pub fn new(area_width: u32, area_height: u32, tile_width: u32, tile_height: u32) -> (r: Tiler)
        requires
            1 <= area_width <= MAX_COORD,
            1 <= area_height <= MAX_COORD,
            1 <= tile_width <= MAX_COORD,
            1 <= tile_height <= MAX_COORD,
            ceil_div_spec(area_width as int, tile_width as int) * ceil_div_spec(
                area_height as int,
                tile_height as int,
            ) <= usize::MAX,
        ensures
            r.wf(),
            r.tile_width == tile_width,
            r.tile_height == tile_height,
            r.n_x_tiles == ceil_div_spec(area_width as int, tile_width as int),
            r.n_y_tiles == ceil_div_spec(area_height as int, tile_height as int),
            r.lines@ =~= Seq::<(usize, StyledLine)>::empty(),
    {
        let (n_x_tiles, n_y_tiles) = n_tiles(area_width, area_height, tile_width, tile_height);
        proof {
            lemma_ceil_div_bounds(area_width as int, tile_width as int);
            lemma_ceil_div_bounds(area_height as int, tile_height as int);
        }
        Tiler { tile_width, tile_height, n_x_tiles, n_y_tiles, lines: Vec::new() }
    }

    /// Resize the tiler to account for a new renderable area.
    ///
    /// This clears the buffer inside the tiler, meaning that it will have no
    /// recorded lines after this operation.
    ///
    /// # Parameters
    ///
    /// - `area_width`: Width of the renderable area.
    /// - `area_height`: Height of the renderable area.
    pub fn resize(&mut self, area_width: u32, area_height: u32)
        requires
            old(self).wf(),
            1 <= area_width <= MAX_COORD,
            1 <= area_height <= MAX_COORD,
            ceil_div_spec(area_width as int, old(self).tile_width as int) * ceil_div_spec(
                area_height as int,
                old(self).tile_height as int,
            ) <= usize::MAX,
        ensures
            final(self).wf(),
            final(self).tile_width == old(self).tile_width,
            final(self).tile_height == old(self).tile_height,
            final(self).n_x_tiles == ceil_div_spec(area_width as int, old(self).tile_width as int),
            final(self).n_y_tiles == ceil_div_spec(
                area_height as int,
                old(self).tile_height as int,
            ),
            final(self).lines@ =~= Seq::<(usize, StyledLine)>::empty(),
    {
        let (n_x_tiles, n_y_tiles) = n_tiles(area_width, area_height, self.tile_width, self.tile_height);
        proof {
            lemma_ceil_div_bounds(area_width as int, self.tile_width as int);
            lemma_ceil_div_bounds(area_height as int, self.tile_height as int);
        }
        self.n_x_tiles = n_x_tiles;
        self.n_y_tiles = n_y_tiles;
        self.lines.clear();
    }

    /// Computes the linear index of a tile.
    ///
    /// # Parameters
    ///
    /// - `tile_x`: The horizontal tile index.
    /// - `tile_y`: The vertical tile index.
    ///
    /// # Returns
    ///
    /// A row-major linear index of the tile.
    fn tile_ix(&self, tile_x: u32, tile_y: u32) -> (r: usize)
        requires
            self.grid_wf(),
            tile_x < self.n_x_tiles,
            tile_y < self.n_y_tiles,
        ensures
            r == tile_ix_spec(self.n_x_tiles as int, tile_x as int, tile_y as int),
            r < self.n_x_tiles * self.n_y_tiles,
    {
        proof {
            assert(self.n_x_tiles * tile_y + tile_x < self.n_x_tiles * self.n_y_tiles
                && self.n_x_tiles * tile_y == tile_y * self.n_x_tiles) by (nonlinear_arith)
                requires
                    0 <= tile_x < self.n_x_tiles,
                    0 <= tile_y < self.n_y_tiles,
            ;
        }
        let ix = self.n_x_tiles as usize * tile_y as usize + tile_x as usize;
        ix
    }

    /// Compute the (x,y) index of a tile from its linear index.
    ///
    /// # Parameters
    ///
    /// - `lindex`: Linear index of the tile.
    ///
    /// # Returns
    ///
    /// A `(tile_x, tile_y)` pair; this is the inverse of the linear
    /// indexing.
    fn tile_unlindex(&self, lindex: usize) -> (r: (u32, u32))
        requires
            self.grid_wf(),
            lindex < self.n_x_tiles * self.n_y_tiles,
        ensures
            r.0 < self.n_x_tiles,
            r.1 < self.n_y_tiles,
            r.0 == lindex as int % self.n_x_tiles as int,
            r.1 == lindex as int / self.n_x_tiles as int,
            tile_ix_spec(self.n_x_tiles as int, r.0 as int, r.1 as int) == lindex,
    {
        proof {
            vstd::arithmetic::div_mod::lemma_fundamental_div_mod(
                lindex as int,
                self.n_x_tiles as int,
            );
            vstd::arithmetic::div_mod::lemma_mod_division_less_than_divisor(
                lindex as int,
                self.n_x_tiles as int,
            );
            vstd::arithmetic::div_mod::lemma_multiply_divide_lt(
                lindex as int,
                self.n_x_tiles as int,
                self.n_y_tiles as int,
            );
        }
        proof {
            assert((lindex as int / self.n_x_tiles as int) * self.n_x_tiles == self.n_x_tiles as int
                * (lindex as int / self.n_x_tiles as int)) by (nonlinear_arith);
        }
        let tile_y = (lindex / self.n_x_tiles as usize) as u32;
        let tile_x = (lindex % self.n_x_tiles as usize) as u32;
        (tile_x, tile_y)
    }

    /// Returns a polygon representing a tile.
    fn tile_polygon(&self, tile_x: u32, tile_y: u32) -> (r: Polygon)
        requires
            self.grid_wf(),
            tile_x < self.n_x_tiles,
            tile_y < self.n_y_tiles,
        ensures
            r.wf(),
            r.vertices@ =~= tile_quad_spec(
                self.tile_width as int,
                self.tile_height as int,
                tile_x as int,
                tile_y as int,
            ),
    {
        proof {
            assert(self.tile_width * tile_x + self.tile_width <= self.n_x_tiles * self.tile_width
                && 0 <= self.tile_width * tile_x && self.tile_width * tile_x == tile_x
                * self.tile_width && (tile_x + 1) * self.tile_width == tile_x * self.tile_width
                + self.tile_width) by (nonlinear_arith)
                requires
                    0 <= tile_x < self.n_x_tiles,
                    self.tile_width >= 1,
            ;
            assert(self.tile_height * tile_y + self.tile_height <= self.n_y_tiles
                * self.tile_height && 0 <= self.tile_height * tile_y && self.tile_height * tile_y
                == tile_y * self.tile_height && (tile_y + 1) * self.tile_height == tile_y
                * self.tile_height + self.tile_height) by (nonlinear_arith)
                requires
                    0 <= tile_y < self.n_y_tiles,
                    self.tile_height >= 1,
            ;
        }
        let twf = self.tile_width as u64;
        let thf = self.tile_height as u64;
        let min_x = (twf * tile_x as u64) as i64;
        let max_x = min_x + self.tile_width as i64;
        let min_y = (thf * tile_y as u64) as i64;
        let max_y = min_y + self.tile_height as i64;
        let mut verts: Vec<P2> = Vec::new();
        verts.push(P2 { x: min_x, y: min_y });
        verts.push(P2 { x: max_x, y: min_y });
        verts.push(P2 { x: max_x, y: max_y });
        verts.push(P2 { x: min_x, y: max_y });
        Polygon::new(verts)
    }

    /// Check if a tile intersects a supplied line.
    ///
    /// The test uses only the four candidate separating axes that matter
    /// for a line's bounding polygon against an axis-aligned rectangle,
    /// doing half the work of a naive separating axis test.
    ///
    /// # Parameters
    ///
    /// - `tile_x`: X coordinate of a tile.
    /// - `tile_y`: Y coordinate of a tile.
    /// - `line`: the line to check.
    /// - `polygon`: the bounding polygon around the line.
    ///
    /// # Returns
    ///
    /// `true` if the tile intersects the line, `false` otherwise.
    fn tile_intersects_line(&self, tile_x: u32, tile_y: u32, line: &Line, polygon: &Polygon) -> (r:
        bool)
        requires
            self.grid_wf(),
            tile_x < self.n_x_tiles,
            tile_y < self.n_y_tiles,
            line.a.valid(),
            line.b.valid(),
            polygon.wf(),
        ensures
            r == sat_overlap_spec(
                self.tile_width as int,
                self.tile_height as int,
                tile_x as int,
                tile_y as int,
                *line,
                polygon.vertices@,
            ),
    {
        let v = line.ab_vec();
        let vp = V2 { x: -v.y, y: v.x };
        let center = P2 { x: 0, y: 0 };
        let tile = self.tile_polygon(tile_x, tile_y);

        if polygon.is_separating_axis(&tile, v, center) {
            return false;
        }
        if polygon.is_separating_axis(&tile, vp, center) {
            return false;
        }
        if polygon.is_separating_axis(&tile, V2 { x: 1, y: 0 }, center) {
            return false;
        }
        if polygon.is_separating_axis(&tile, V2 { x: 0, y: 1 }, center) {
            return false;
        }
        true
    }
}

/// One potential assignment: the pair for tile `(x, y)` when its rectangle
/// overlaps the bounding polygon of `sl`, and nothing otherwise.
pub open spec fn assignment_unit(tw: int, th: int, nx: int, sl: StyledLine, x: int, y: int) -> Seq<
    (usize, StyledLine),
> {
    if sat_overlap_spec(tw, th, x, y, sl.line, bounding_quad_spec(sl)) {
        seq![(tile_ix_spec(nx, x, y) as usize, sl)]
    } else {
        Seq::empty()
    }
}

/// Assignments of row `y` for the tiles with x index in `x0 ..= x - 1`, in
/// increasing x order.
pub open spec fn row_upto(tw: int, th: int, nx: int, sl: StyledLine, x0: int, x: int, y: int) -> Seq<
    (usize, StyledLine),
>
    decreases x - x0,
{
    if x <= x0 {
        Seq::empty()
    } else {
        row_upto(tw, th, nx, sl, x0, x - 1, y) + assignment_unit(tw, th, nx, sl, x - 1, y)
    }
}

/// Assignments of the rows with y index in `y0 ..= y - 1`, each row covering
/// x indices `x0 ..= x1`, in increasing y-then-x order.
pub open spec fn rows_upto(
    tw: int,
    th: int,
    nx: int,
    sl: StyledLine,
    x0: int,
    x1: int,
    y0: int,
    y: int,
) -> Seq<(usize, StyledLine)>
    decreases y - y0,
{
    if y <= y0 {
        Seq::empty()
    } else {
        rows_upto(tw, th, nx, sl, x0, x1, y0, y - 1) + row_upto(tw, th, nx, sl, x0, x1 + 1, y - 1)
    }
}

/// A row of assignments holds at most one pair per tile of the row.
pub proof fn lemma_row_upto_len(tw: int, th: int, nx: int, sl: StyledLine, x0: int, x: int, y: int)
    requires
        x0 <= x,
    ensures
        row_upto(tw, th, nx, sl, x0, x, y).len() <= x - x0,
    decreases x - x0,
{
    if x > x0 {
        lemma_row_upto_len(tw, th, nx, sl, x0, x - 1, y);
    }
}

/// A rectangle of assignments holds at most one pair per tile of the
/// rectangle.
pub proof fn lemma_rows_upto_len(
    tw: int,
    th: int,
    nx: int,
    sl: StyledLine,
    x0: int,
    x1: int,
    y0: int,
    y: int,
)
    requires
        x0 <= x1 + 1,
        y0 <= y,
    ensures
        rows_upto(tw, th, nx, sl, x0, x1, y0, y).len() <= (y - y0) * (x1 + 1 - x0),
    decreases y - y0,
{
    if y > y0 {
        lemma_rows_upto_len(tw, th, nx, sl, x0, x1, y0, y - 1);
        lemma_row_upto_len(tw, th, nx, sl, x0, x1 + 1, y - 1);
        assert((y - 1 - y0) * (x1 + 1 - x0) + (x1 + 1 - x0) == (y - y0) * (x1 + 1 - x0)) by (
        nonlinear_arith);
    }
}

/// All assignments produced for one styled line on the given grid: the
/// candidate tile rectangle of its bounding box, clipped to the grid, with
/// each candidate tile kept exactly when the separating-axis overlap test
/// passes.
pub open spec fn add_assignments_spec(tw: u32, th: u32, nx: u32, ny: u32, sl: StyledLine) -> Seq<
    (usize, StyledLine),
> {
    match add_candidate_rect(tw, th, nx, ny, sl) {
        None => Seq::empty(),
        Some(c) => rows_upto(
            tw as int,
            th as int,
            nx as int,
            sl,
            c.min_x_tile as int,
            c.max_x_tile as int,
            c.min_y_tile as int,
            c.max_y_tile + 1,
        ),
    }
}

/// The candidate tile rectangle that [`Tiler::add`] scans for a styled
/// line: its bounding box's tile rectangle, clipped to the grid.
pub open spec fn add_candidate_rect(tw: u32, th: u32, nx: u32, ny: u32, sl: StyledLine) -> Option<
    TilesIntersection,
> {
    let quad = bounding_quad_spec(sl);
    let cand = TilesIntersection {
        min_x_tile: tile_coord_of(crate::bbox::min_x_of(quad), tw as int) as u32,
        max_x_tile: tile_coord_of(crate::bbox::max_x_of(quad), tw as int) as u32,
        min_y_tile: tile_coord_of(crate::bbox::min_y_of(quad), th as int) as u32,
        max_y_tile: tile_coord_of(crate::bbox::max_y_of(quad), th as int) as u32,
    };
    cand.clip_spec(nx, ny)
}

/// Mapping a coordinate to its grid cell preserves order.
pub proof fn lemma_tile_coord_monotone(v1: int, v2: int, ts: int)
    requires
        v1 <= v2,
        ts > 0,
    ensures
        tile_coord_of(v1, ts) <= tile_coord_of(v2, ts),
{
    if v1 >= 0 {
        vstd::arithmetic::div_mod::lemma_div_is_ordered(v1, v2, ts);
    } else if v2 >= 0 {
        vstd::arithmetic::div_mod::lemma_div_pos_is_pos(v2, ts);
    }
}

impl Tiler {
    /// Add a styled line to the tiler.
    ///
    /// This checks the line against the tiles and adds it into a list of
    /// line-tile allocations: one entry for every tile of the candidate
    /// rectangle whose exact overlap test passes.
    pub fn add(&mut self, styled_line: StyledLine)
        requires
            old(self).wf(),
            styled_line.wf(),
            old(self).lines@.len() + old(self).n_x_tiles * old(self).n_y_tiles <= u32::MAX,
        ensures
            final(self).wf(),
            final(self).tile_width == old(self).tile_width,
            final(self).tile_height == old(self).tile_height,
            final(self).n_x_tiles == old(self).n_x_tiles,
            final(self).n_y_tiles == old(self).n_y_tiles,
            final(self).lines@ =~= old(self).lines@ + add_assignments_spec(
                old(self).tile_width,
                old(self).tile_height,
                old(self).n_x_tiles,
                old(self).n_y_tiles,
                styled_line,
            ),
    {
        // Compute the bounding-polygon and bounding box of the line.
        // These account for the line width and end style information.
        let bounding_polygon = styled_line.bounding_polygon();
        let bounding_box = bounding_polygon.bbox();
        proof {
            crate::bbox::lemma_bbox_bounds(bounding_polygon.vertices@, VERT_BOUND as int);
        }

        // Find the tiles that the line's bounding box intersects.
        let cand = TilesIntersection::from_bbox(self.tile_width, self.tile_height, &bounding_box);
        let opt_tiles_intersection = cand.clip_to_area(self.n_x_tiles, self.n_y_tiles);
        let tiles_intersection = match opt_tiles_intersection {
            // If we clip the tiles intersection to the active area and we
            // find there's no intersection, then the line is not visible
            // and we don't have to do anything.
            None => {
                return ;
            },
            Some(x) => x,
        };
        let (y0, y1) = tiles_intersection.y_tiles();
        let (x0, x1) = tiles_intersection.x_tiles();
        proof {
            lemma_tile_coord_monotone(
                bounding_box.min_x_spec(),
                bounding_box.max_x_spec(),
                self.tile_width as int,
            );
            lemma_tile_coord_monotone(
                bounding_box.min_y_spec(),
                bounding_box.max_y_spec(),
                self.tile_height as int,
            );
        }
        let ghost base = self.lines@;
        let ghost tw = self.tile_width;
        let ghost th = self.tile_height;
        let ghost nx = self.n_x_tiles;
        let ghost ny = self.n_y_tiles;

        // For all tiles in the intersecting area, use a separating axis test
        // to see if each tile intersects the line.
        let mut tile_y = y0;
        while tile_y <= y1
            invariant
                self.wf(),
                self.tile_width == tw,
                self.tile_height == th,
                self.n_x_tiles == nx,
                self.n_y_tiles == ny,
                styled_line.wf(),
                bounding_polygon.wf(),
                bounding_polygon.vertices@ == bounding_quad_spec(styled_line),
                y0 <= tile_y <= y1 + 1,
                x0 <= x1 + 1,
                x1 < nx,
                y1 < ny,
                base == old(self).lines@,
                base.len() + nx * ny <= u32::MAX,
                self.lines@ =~= base + rows_upto(
                    tw as int,
                    th as int,
                    nx as int,
                    styled_line,
                    x0 as int,
                    x1 as int,
                    y0 as int,
                    tile_y as int,
                ),
            decreases y1 + 1 - tile_y,
        {
            let mut tile_x = x0;
            while tile_x <= x1
                invariant
                    self.wf(),
                    self.tile_width == tw,
                    self.tile_height == th,
                    self.n_x_tiles == nx,
                    self.n_y_tiles == ny,
                    styled_line.wf(),
                    bounding_polygon.wf(),
                    bounding_polygon.vertices@ == bounding_quad_spec(styled_line),
                    y0 <= tile_y <= y1,
                    x0 <= tile_x <= x1 + 1,
                    x1 < nx,
                    y1 < ny,
                    base == old(self).lines@,
                    base.len() + nx * ny <= u32::MAX,
                    self.lines@ =~= base + rows_upto(
                        tw as int,
                        th as int,
                        nx as int,
                        styled_line,
                        x0 as int,
                        x1 as int,
                        y0 as int,
                        tile_y as int,
                    ) + row_upto(
                        tw as int,
                        th as int,
                        nx as int,
                        styled_line,
                        x0 as int,
                        tile_x as int,
                        tile_y as int,
                    ),
                decreases x1 + 1 - tile_x,
            {
                proof {
                    lemma_rows_upto_len(
                        tw as int,
                        th as int,
                        nx as int,
                        styled_line,
                        x0 as int,
                        x1 as int,
                        y0 as int,
                        tile_y as int,
                    );
                    lemma_row_upto_len(
                        tw as int,
                        th as int,
                        nx as int,
                        styled_line,
                        x0 as int,
                        tile_x as int,
                        tile_y as int,
                    );
                    assert((tile_y - y0) * (x1 + 1 - x0) + (tile_x - x0) < nx * ny) by (
                    nonlinear_arith)
                        requires
                            0 <= y0 <= tile_y <= y1 < ny,
                            0 <= x0 <= tile_x <= x1 < nx,
                    ;
                }
                if self.tile_intersects_line(tile_x, tile_y, &styled_line.line, &bounding_polygon)
                {
                    let ix = self.tile_ix(tile_x, tile_y);
                    self.lines.push((ix, styled_line));
                }
                tile_x += 1;
            }
            tile_y += 1;
        }
    }
}

/// Assignment pairs sorted by their linear tile index.
pub open spec fn sorted_by_key(s: Seq<(usize, StyledLine)>) -> bool {
    forall|i: int, j: int| 0 <= i < j < s.len() ==> (#[trigger] s[i]).0 <= (#[trigger] s[j]).0
}

/// Insert a pair into a key-sorted sequence, after every pair whose key does
/// not exceed its own (a stable insertion).
pub open spec fn insert_sorted(t: Seq<(usize, StyledLine)>, x: (usize, StyledLine)) -> Seq<
    (usize, StyledLine),
>
    decreases t.len(),
{
    if t.len() == 0 {
        seq![x]
    } else if t.last().0 <= x.0 {
        t.push(x)
    } else {
        insert_sorted(t.drop_last(), x).push(t.last())
    }
}

/// Stable insertion sort of assignment pairs by linear tile index.
pub open spec fn sort_pairs(s: Seq<(usize, StyledLine)>) -> Seq<(usize, StyledLine)>
    decreases s.len(),
{
    if s.len() == 0 {
        Seq::empty()
    } else {
        insert_sorted(sort_pairs(s.drop_last()), s.last())
    }
}

/// Inserting into a key-sorted sequence keeps it sorted, grows it by one
/// pair, and introduces no key or line beyond those already present.
pub proof fn lemma_insert_sorted_props(t: Seq<(usize, StyledLine)>, x: (usize, StyledLine), b: int)
    requires
        sorted_by_key(t),
        forall|i: int| 0 <= i < t.len() ==> (#[trigger] t[i]).0 < b && t[i].1.wf(),
        x.0 < b,
        x.1.wf(),
    ensures
        sorted_by_key(insert_sorted(t, x)),
        insert_sorted(t, x).len() == t.len() + 1,
        forall|i: int|
            0 <= i < insert_sorted(t, x).len() ==> (#[trigger] insert_sorted(t, x)[i]).0 < b
                && insert_sorted(t, x)[i].1.wf(),
    decreases t.len(),
{
    if t.len() == 0 {
    } else if t.last().0 <= x.0 {
    } else {
        lemma_insert_sorted_props(t.drop_last(), x, b);
        let inner = insert_sorted(t.drop_last(), x);
        let res = inner.push(t.last());
        assert forall|i: int, j: int|
            0 <= i < j < res.len() implies (#[trigger] res[i]).0 <= (#[trigger] res[j]).0 by {
            if j == inner.len() {
                lemma_insert_sorted_key_le(t.drop_last(), x, i);
                assert(res[i] == inner[i]);
                assert(res[j] == t.last());
                if inner[i].0 <= x.0 {
                } else {
                    let m = choose|m: int|
                        0 <= m < t.drop_last().len() && inner[i].0 <= #[trigger] t.drop_last()[m].0;
                    assert(t.drop_last()[m] == t[m]);
                    assert(t[m].0 <= t[t.len() - 1].0);
                }
            }
        }
    }
}

/// Every pair of the inserted sequence has a key bounded by the key of the
/// inserted pair or by some key already in the sequence; in particular the
/// keys stay below the greatest key present.
pub proof fn lemma_insert_sorted_key_le(t: Seq<(usize, StyledLine)>, x: (usize, StyledLine), i: int)
    requires
        0 <= i < insert_sorted(t, x).len(),
    ensures
        insert_sorted(t, x)[i].0 <= x.0 || exists|m: int|
            0 <= m < t.len() && insert_sorted(t, x)[i].0 <= (#[trigger] t[m].0),
    decreases t.len(),
{
    if t.len() == 0 {
    } else if t.last().0 <= x.0 {
        if i < t.len() {
            assert(insert_sorted(t, x)[i] == t[i]);
            assert(insert_sorted(t, x)[i].0 <= t[i].0);
        }
    } else {
        let inner = insert_sorted(t.drop_last(), x);
        if i < inner.len() {
            lemma_insert_sorted_key_le(t.drop_last(), x, i);
            assert(insert_sorted(t, x)[i] == inner[i]);
            if !(inner[i].0 <= x.0) {
                let m = choose|m: int|
                    0 <= m < t.drop_last().len() && inner[i].0 <= #[trigger] t.drop_last()[m].0;
                assert(t.drop_last()[m] == t[m]);
            }
        } else {
            assert(insert_sorted(t, x)[i] == t.last());
            assert(t.last() == t[t.len() - 1]);
        }
    }
}

/// Sorting keeps the length, sortedness, and the key bound and line
/// well-formedness of every pair.
pub proof fn lemma_sort_pairs_props(s: Seq<(usize, StyledLine)>, b: int)
    requires
        forall|i: int| 0 <= i < s.len() ==> (#[trigger] s[i]).0 < b && s[i].1.wf(),
    ensures
        sorted_by_key(sort_pairs(s)),
        sort_pairs(s).len() == s.len(),
        forall|i: int|
            0 <= i < sort_pairs(s).len() ==> (#[trigger] sort_pairs(s)[i]).0 < b && sort_pairs(
                s,
            )[i].1.wf(),
    decreases s.len(),
{
    if s.len() > 0 {
        lemma_sort_pairs_props(s.drop_last(), b);
        lemma_insert_sorted_props(sort_pairs(s.drop_last()), s.last(), b);
    }
}

/// Run-length encoding of a key sequence: one `(key, count)` pair per
/// maximal run of equal adjacent keys.
pub open spec fn rle(ks: Seq<usize>) -> Seq<(usize, nat)>
    decreases ks.len(),
{
    if ks.len() == 0 {
        Seq::empty()
    } else {
        let prev = rle(ks.drop_last());
        let k = ks.last();
        if prev.len() > 0 && prev.last().0 == k {
            prev.update(prev.len() - 1, (k, (prev.last().1 + 1) as nat))
        } else {
            prev.push((k, 1nat))
        }
    }
}

/// Sum of the counts of a run-length encoding.
pub open spec fn rle_total(g: Seq<(usize, nat)>) -> nat
    decreases g.len(),
{
    if g.len() == 0 {
        0
    } else {
        rle_total(g.drop_last()) + g.last().1
    }
}

/// The last run of a non-empty key sequence carries its last key.
pub proof fn lemma_rle_last(ks: Seq<usize>)
    requires
        ks.len() > 0,
    ensures
        rle(ks).len() > 0,
        rle(ks).last().0 == ks.last(),
    decreases ks.len(),
{
    if ks.len() > 1 {
        lemma_rle_last(ks.drop_last());
    }
}

/// The counts of the run-length encoding sum to the length of the keys.
pub proof fn lemma_rle_total(ks: Seq<usize>)
    ensures
        rle_total(rle(ks)) == ks.len(),
    decreases ks.len(),
{
    if ks.len() > 0 {
        lemma_rle_total(ks.drop_last());
        let prev = rle(ks.drop_last());
        let k = ks.last();
        if prev.len() > 0 && prev.last().0 == k {
            let upd = prev.update(prev.len() - 1, (k, (prev.last().1 + 1) as nat));
            assert(rle(ks) =~= upd);
            assert(upd.drop_last() =~= prev.drop_last());
            assert(upd.last() == (k, (prev.last().1 + 1) as nat));
            assert(rle_total(upd) == rle_total(upd.drop_last()) + upd.last().1);
            assert(rle_total(prev) == rle_total(prev.drop_last()) + prev.last().1);
        } else {
            let pushed = prev.push((k, 1nat));
            assert(rle(ks) =~= pushed);
            assert(pushed.drop_last() =~= prev);
            assert(rle_total(pushed) == rle_total(pushed.drop_last()) + pushed.last().1);
        }
    }
}

/// The tile-info records for a run-length encoding of keys: one record per
/// run, with the tile coordinates decoded from the run's key, a start
/// offset equal to the total count of the preceding runs, and the run's
/// own count.
pub open spec fn infos_of(g: Seq<(usize, nat)>, nx: int) -> Seq<TileInfo>
    decreases g.len(),
{
    if g.len() == 0 {
        Seq::empty()
    } else {
        infos_of(g.drop_last(), nx).push(
            TileInfo {
                tile_x: (g.last().0 as int % nx) as u32,
                tile_y: (g.last().0 as int / nx) as u32,
                start_index: rle_total(g.drop_last()) as u32,
                n_lines: g.last().1 as u32,
            },
        )
    }
}

impl Tiler {
    /// Drain the tiler to collect all tiles and the lines they contain.
    ///
    /// This empties the `Tiler`.
    ///
    /// It returns two components:
    ///
    /// 1. A vector of `TileInfo`, which indicates, for each tile location
    ///    that received at least one line, the start index in the
    ///    `StyledLine` vector and the number of lines the tile contains,
    ///    with the entries in increasing row-major tile order.
    /// 2. A vector of `StyledLine`, which is the list of lines grouped by
    ///    tile.
    ///
    /// This has the complexity of a sort over the lines, coupled with a
    /// linear pass over the sorted lines.
    pub fn drain(&mut self) -> (r: (Vec<TileInfo>, Vec<StyledLine>))
        requires
            old(self).wf(),
        ensures
            final(self).wf(),
            final(self).tile_width == old(self).tile_width,
            final(self).tile_height == old(self).tile_height,
            final(self).n_x_tiles == old(self).n_x_tiles,
            final(self).n_y_tiles == old(self).n_y_tiles,
            final(self).lines@ =~= Seq::<(usize, StyledLine)>::empty(),
            r.1@ =~= sort_pairs(old(self).lines@).map_values(|p: (usize, StyledLine)| p.1),
            r.0@ =~= infos_of(
                rle(sort_pairs(old(self).lines@).map_values(|p: (usize, StyledLine)| p.0)),
                old(self).n_x_tiles as int,
            ),
    {
        let ghost bound = self.n_x_tiles * self.n_y_tiles;
        proof {
            lemma_sort_pairs_props(self.lines@, bound);
        }

        // Sort the lines according to their linear index, with a stable
        // insertion sort.
        let n = self.lines.len();
        let mut sorted_vec: Vec<(usize, StyledLine)> = Vec::new();
        let mut i: usize = 0;
        while i < n
            invariant
                0 <= i <= n,
                n == self.lines@.len(),
                self.wf(),
                self == old(self),
                sorted_vec@ =~= sort_pairs(self.lines@.subrange(0, i as int)),
            decreases n - i,
        {
            let x = self.lines[i];
            let ghost s = sorted_vec@;
            proof {
                assert(s.subrange(0, s.len() as int) =~= s);
                assert(insert_sorted(s.subrange(s.len() as int, s.len() as int), x)
                    =~= seq![x]);
                assert(insert_sorted(s, x) =~= insert_sorted(s.subrange(0, s.len() as int), x)
                    + s.subrange(s.len() as int, s.len() as int));
            }
            let mut pos: usize = sorted_vec.len();
            while pos > 0 && sorted_vec[pos - 1].0 > x.0
                invariant
                    0 <= pos <= s.len(),
                    sorted_vec@ == s,
                    insert_sorted(s, x) =~= insert_sorted(s.subrange(0, pos as int), x)
                        + s.subrange(pos as int, s.len() as int),
                decreases pos,
            {
                proof {
                    let pre = s.subrange(0, pos as int);
                    assert(pre.last() == s[pos - 1]);
                    assert(pre.drop_last() =~= s.subrange(0, pos - 1));
                    assert(insert_sorted(pre, x) =~= insert_sorted(s.subrange(0, pos - 1), x)
                        .push(s[pos - 1]));
                    assert(insert_sorted(s.subrange(0, pos - 1), x).push(s[pos - 1]) + s.subrange(
                        pos as int,
                        s.len() as int,
                    ) =~= insert_sorted(s.subrange(0, pos - 1), x) + s.subrange(
                        pos - 1,
                        s.len() as int,
                    ));
                }
                pos -= 1;
            }
            proof {
                let pre = s.subrange(0, pos as int);
                if pos == 0 {
                    assert(pre =~= Seq::<(usize, StyledLine)>::empty());
                    assert(insert_sorted(pre, x) =~= pre.push(x));
                } else {
                    assert(pre.last() == s[pos - 1]);
                    assert(s[pos - 1].0 <= x.0);
                    assert(insert_sorted(pre, x) =~= pre.push(x));
                }
                assert(insert_sorted(s, x) =~= s.insert(pos as int, x));
                assert(self.lines@.subrange(0, i + 1).drop_last() =~= self.lines@.subrange(
                    0,
                    i as int,
                ));
            }
            sorted_vec.insert(pos, x);
            i += 1;
        }
        proof {
            assert(self.lines@.subrange(0, n as int) =~= self.lines@);
        }
        let ghost sorted = sorted_vec@;
        let ghost keys = sorted.map_values(|p: (usize, StyledLine)| p.0);
        proof {
            assert(sorted =~= sort_pairs(old(self).lines@));
            assert(keys.len() == sorted.len());
        }
        self.lines.clear();

        // Process the sorted lines to group them by tile and find the tile
        // offsets.
        let mut tile_infos: Vec<TileInfo> = Vec::new();
        let mut lines_vec: Vec<StyledLine> = Vec::new();
        let mut j: usize = 0;
        while j < n
            invariant
                0 <= j <= n,
                n == sorted.len(),
                sorted_vec@ == sorted,
                keys == sorted.map_values(|p: (usize, StyledLine)| p.0),
                sorted_by_key(sorted),
                forall|k: int|
                    0 <= k < sorted.len() ==> (#[trigger] sorted[k]).0 < bound,
                bound == self.n_x_tiles * self.n_y_tiles,
                self.wf(),
                self.lines@.len() == 0,
                self.tile_width == old(self).tile_width,
                self.tile_height == old(self).tile_height,
                self.n_x_tiles == old(self).n_x_tiles,
                self.n_y_tiles == old(self).n_y_tiles,
                n <= u32::MAX,
                j == n || j == 0 || keys[j as int] != keys[j - 1],
                lines_vec@ =~= sorted.subrange(0, j as int).map_values(
                    |p: (usize, StyledLine)| p.1,
                ),
                tile_infos@ =~= infos_of(
                    rle(keys.subrange(0, j as int)),
                    self.n_x_tiles as int,
                ),
            decreases n - j,
        {
            let k = sorted_vec[j].0;
            let (tx, ty) = self.tile_unlindex(k);
            let start = j as u32;
            let ghost gstart = j;
            let ghost base_rle = rle(keys.subrange(0, gstart as int));
            let mut cnt: u32 = 0;
            while j < n && sorted_vec[j].0 == k
                invariant
                    0 <= gstart <= j <= n,
                    gstart < n,
                    n <= u32::MAX,
                    n == sorted.len(),
                    sorted_vec@ == sorted,
                    keys == sorted.map_values(|p: (usize, StyledLine)| p.0),
                    cnt == j - gstart,
                    k == keys[gstart as int],
                    gstart == 0 || keys[gstart as int] != keys[gstart - 1],
                    base_rle == rle(keys.subrange(0, gstart as int)),
                    forall|t: int| gstart <= t < j ==> keys[t] == k,
                    j > gstart ==> rle(keys.subrange(0, j as int)) =~= base_rle.push(
                        (k, (j - gstart) as nat),
                    ),
                    lines_vec@ =~= sorted.subrange(0, j as int).map_values(
                        |p: (usize, StyledLine)| p.1,
                    ),
                decreases n - j,
            {
                proof {
                    let pref = keys.subrange(0, j + 1);
                    assert(pref.drop_last() =~= keys.subrange(0, j as int));
                    assert(pref.last() == keys[j as int]);
                    let prev = rle(keys.subrange(0, j as int));
                    if j == gstart {
                        if gstart > 0 {
                            lemma_rle_last(keys.subrange(0, gstart as int));
                            assert(keys.subrange(0, gstart as int).last() == keys[gstart - 1]);
                        }
                        assert(rle(pref) =~= base_rle.push((k, 1nat)));
                    } else {
                        assert(prev =~= base_rle.push((k, (j - gstart) as nat)));
                        assert(prev.len() > 0 && prev.last().0 == k);
                        assert(rle(pref) =~= prev.update(
                            prev.len() - 1,
                            (k, (prev.last().1 + 1) as nat),
                        ));
                        assert(prev.update(prev.len() - 1, (k, (prev.last().1 + 1) as nat))
                            =~= base_rle.push((k, (j + 1 - gstart) as nat)));
                    }
                    assert(sorted.subrange(0, j + 1).drop_last() =~= sorted.subrange(0, j as int));
                }
                lines_vec.push(sorted_vec[j].1);
                j += 1;
                cnt += 1;
            }
            tile_infos.push(TileInfo { tile_x: tx, tile_y: ty, start_index: start, n_lines: cnt });
            proof {
                let g = rle(keys.subrange(0, j as int));
                assert(g =~= base_rle.push((k, (j - gstart) as nat)));
                assert(g.drop_last() =~= base_rle);
                lemma_rle_total(keys.subrange(0, gstart as int));
                assert(rle_total(base_rle) == gstart);
                assert(infos_of(g, self.n_x_tiles as int) =~= infos_of(
                    base_rle,
                    self.n_x_tiles as int,
                ).push(
                    TileInfo {
                        tile_x: (g.last().0 as int % self.n_x_tiles as int) as u32,
                        tile_y: (g.last().0 as int / self.n_x_tiles as int) as u32,
                        start_index: rle_total(base_rle) as u32,
                        n_lines: g.last().1 as u32,
                    },
                ));
            }
        }
        proof {
            assert(keys.subrange(0, n as int) =~= keys);
            assert(sorted.subrange(0, n as int) =~= sorted);
        }
        (tile_infos, lines_vec)
    }
}

/// Tiling a static scene is deterministic: two tilers holding the same grid
/// parameters and the same recorded assignments drain to identical
/// tile-info and line arrays. Together with [`lemma_add_deterministic`],
/// adding the same set of styled lines to two freshly-constructed tilers
/// with identical grid parameters and draining both produces identical
/// output pairs.
pub proof fn lemma_drain_deterministic(t1: Tiler, t2: Tiler)
    requires
        t1.tile_width == t2.tile_width,
        t1.tile_height == t2.tile_height,
        t1.n_x_tiles == t2.n_x_tiles,
        t1.n_y_tiles == t2.n_y_tiles,
        t1.lines@ == t2.lines@,
    ensures
        sort_pairs(t1.lines@).map_values(|p: (usize, StyledLine)| p.1) == sort_pairs(
            t2.lines@,
        ).map_values(|p: (usize, StyledLine)| p.1),
        infos_of(
            rle(sort_pairs(t1.lines@).map_values(|p: (usize, StyledLine)| p.0)),
            t1.n_x_tiles as int,
        ) == infos_of(
            rle(sort_pairs(t2.lines@).map_values(|p: (usize, StyledLine)| p.0)),
            t2.n_x_tiles as int,
        ),
{
}

/// Adding the same styled line to two tilers holding the same grid
/// parameters appends the same assignments to both.
pub proof fn lemma_add_deterministic(t1: Tiler, t2: Tiler, sl: StyledLine)
    requires
        t1.tile_width == t2.tile_width,
        t1.tile_height == t2.tile_height,
        t1.n_x_tiles == t2.n_x_tiles,
        t1.n_y_tiles == t2.n_y_tiles,
        t1.lines@ == t2.lines@,
    ensures
        t1.lines@ + add_assignments_spec(
            t1.tile_width,
            t1.tile_height,
            t1.n_x_tiles,
            t1.n_y_tiles,
            sl,
        ) == t2.lines@ + add_assignments_spec(
            t2.tile_width,
            t2.tile_height,
            t2.n_x_tiles,
            t2.n_y_tiles,
            sl,
        ),
{
}

/// Every pair of a row of assignments names a tile of that row whose
/// rectangle overlaps the line's bounding polygon.
pub proof fn lemma_row_upto_sound(
    tw: int,
    th: int,
    nx: int,
    sl: StyledLine,
    x0: int,
    x: int,
    y: int,
    i: int,
)
    requires
        0 <= x0,
        0 <= i < row_upto(tw, th, nx, sl, x0, x, y).len(),
    ensures
        exists|xt: int|
            x0 <= xt < x && #[trigger] tile_overlap_spec(tw, th, xt, y, sl) && row_upto(
                tw,
                th,
                nx,
                sl,
                x0,
                x,
                y,
            )[i] == (tile_ix_spec(nx, xt, y) as usize, sl),
    decreases x - x0,
{
    let row = row_upto(tw, th, nx, sl, x0, x, y);
    let prev = row_upto(tw, th, nx, sl, x0, x - 1, y);
    if i < prev.len() {
        lemma_row_upto_sound(tw, th, nx, sl, x0, x - 1, y, i);
        let xt = choose|xt: int|
            x0 <= xt < x - 1 && #[trigger] tile_overlap_spec(tw, th, xt, y, sl) && prev[i] == (
            tile_ix_spec(nx, xt, y) as usize,
            sl,
            );
        assert(row[i] == prev[i]);
        assert(x0 <= xt < x && tile_overlap_spec(tw, th, xt, y, sl) && row[i] == (
        tile_ix_spec(nx, xt, y) as usize,
        sl,
        ));
    } else {
        assert(tile_overlap_spec(tw, th, x - 1, y, sl));
        assert(row[i] == (tile_ix_spec(nx, x - 1, y) as usize, sl));
    }
}

/// Tile coverage soundness: every assignment that [`Tiler::add`] records
/// names a tile inside the grid whose rectangle passes the exact
/// separating-axis overlap test against the styled line's bounding polygon.
pub proof fn lemma_assignments_sound(tw: u32, th: u32, nx: u32, ny: u32, sl: StyledLine, i: int)
    requires
        nx >= 1,
        ny >= 1,
        0 <= i < add_assignments_spec(tw, th, nx, ny, sl).len(),
    ensures
        exists|xt: int, yt: int|
            0 <= xt < nx && 0 <= yt < ny && #[trigger] tile_overlap_spec(
                tw as int,
                th as int,
                xt,
                yt,
                sl,
            ) && add_assignments_spec(tw, th, nx, ny, sl)[i] == (
                tile_ix_spec(nx as int, xt, yt) as usize,
                sl,
            ),
{
    let c = add_candidate_rect(tw, th, nx, ny, sl)->Some_0;
    lemma_rows_upto_sound(
        tw as int,
        th as int,
        nx as int,
        ny as int,
        sl,
        c.min_x_tile as int,
        c.max_x_tile as int,
        c.min_y_tile as int,
        c.max_y_tile + 1,
        i,
    );
}

/// Every pair of a rectangle of assignments names an in-range tile whose
/// rectangle overlaps the line's bounding polygon.
pub proof fn lemma_rows_upto_sound(
    tw: int,
    th: int,
    nx: int,
    ny: int,
    sl: StyledLine,
    x0: int,
    x1: int,
    y0: int,
    y: int,
    i: int,
)
    requires
        0 <= x0,
        x1 < nx,
        0 <= y0,
        y <= ny,
        0 <= i < rows_upto(tw, th, nx, sl, x0, x1, y0, y).len(),
    ensures
        exists|xt: int, yt: int|
            0 <= xt < nx && 0 <= yt < ny && #[trigger] tile_overlap_spec(tw, th, xt, yt, sl)
                && rows_upto(tw, th, nx, sl, x0, x1, y0, y)[i] == (
                tile_ix_spec(nx, xt, yt) as usize,
                sl,
            ),
    decreases y - y0,
{
    let rows = rows_upto(tw, th, nx, sl, x0, x1, y0, y);
    let prev = rows_upto(tw, th, nx, sl, x0, x1, y0, y - 1);
    let row = row_upto(tw, th, nx, sl, x0, x1 + 1, y - 1);
    if i < prev.len() {
        lemma_rows_upto_sound(tw, th, nx, ny, sl, x0, x1, y0, y - 1, i);
        let (xt, yt) = choose|xt: int, yt: int|
            0 <= xt < nx && 0 <= yt < ny && #[trigger] tile_overlap_spec(tw, th, xt, yt, sl)
                && prev[i] == (tile_ix_spec(nx, xt, yt) as usize, sl);
        assert(rows[i] == prev[i]);
        assert(0 <= xt < nx && 0 <= yt < ny && tile_overlap_spec(tw, th, xt, yt, sl) && rows[i]
            == (tile_ix_spec(nx, xt, yt) as usize, sl));
    } else {
        lemma_row_upto_sound(tw, th, nx, sl, x0, x1 + 1, y - 1, i - prev.len());
        let xt = choose|xt: int|
            x0 <= xt < x1 + 1 && #[trigger] tile_overlap_spec(tw, th, xt, y - 1, sl) && row[i
                - prev.len()] == (tile_ix_spec(nx, xt, y - 1) as usize, sl);
        assert(rows[i] == row[i - prev.len()]);
        assert(0 <= xt < nx && 0 <= y - 1 < ny && tile_overlap_spec(tw, th, xt, y - 1, sl)
            && rows[i] == (tile_ix_spec(nx, xt, y - 1) as usize, sl));
    }
}

/// A row of assignments contains the pair for every tile of the row whose
/// rectangle overlaps the line's bounding polygon.
pub proof fn lemma_row_upto_complete(
    tw: int,
    th: int,
    nx: int,
    sl: StyledLine,
    x0: int,
    x: int,
    y: int,
    xt: int,
)
    requires
        x0 <= xt < x,
        tile_overlap_spec(tw, th, xt, y, sl),
    ensures
        row_upto(tw, th, nx, sl, x0, x, y).contains((tile_ix_spec(nx, xt, y) as usize, sl)),
    decreases x - x0,
{
    let row = row_upto(tw, th, nx, sl, x0, x, y);
    let prev = row_upto(tw, th, nx, sl, x0, x - 1, y);
    if xt == x - 1 {
        assert(row[prev.len() as int] == (tile_ix_spec(nx, xt, y) as usize, sl));
    } else {
        lemma_row_upto_complete(tw, th, nx, sl, x0, x - 1, y, xt);
        let i = choose|i: int|
            0 <= i < prev.len() && prev[i] == (tile_ix_spec(nx, xt, y) as usize, sl);
        assert(row[i] == prev[i]);
    }
}

/// Tile coverage completeness, within the documented candidate-rectangle
/// approximation: every tile of the clipped candidate rectangle whose
/// rectangle passes the exact overlap test appears in the recorded
/// assignments.
pub proof fn lemma_assignments_complete(
    tw: u32,
    th: u32,
    nx: u32,
    ny: u32,
    sl: StyledLine,
    xt: int,
    yt: int,
)
    requires
        nx >= 1,
        ny >= 1,
        add_candidate_rect(tw, th, nx, ny, sl) is Some,
        add_candidate_rect(tw, th, nx, ny, sl)->Some_0.min_x_tile <= xt
            <= add_candidate_rect(tw, th, nx, ny, sl)->Some_0.max_x_tile,
        add_candidate_rect(tw, th, nx, ny, sl)->Some_0.min_y_tile <= yt
            <= add_candidate_rect(tw, th, nx, ny, sl)->Some_0.max_y_tile,
        tile_overlap_spec(tw as int, th as int, xt, yt, sl),
    ensures
        add_assignments_spec(tw, th, nx, ny, sl).contains(
            (tile_ix_spec(nx as int, xt, yt) as usize, sl),
        ),
{
    let c = add_candidate_rect(tw, th, nx, ny, sl)->Some_0;
    lemma_rows_upto_complete(
        tw as int,
        th as int,
        nx as int,
        sl,
        c.min_x_tile as int,
        c.max_x_tile as int,
        c.min_y_tile as int,
        c.max_y_tile + 1,
        xt,
        yt,
    );
}

/// A rectangle of assignments contains the pair for every tile of the
/// rectangle whose rectangle overlaps the line's bounding polygon.
pub proof fn lemma_rows_upto_complete(
    tw: int,
    th: int,
    nx: int,
    sl: StyledLine,
    x0: int,
    x1: int,
    y0: int,
    y: int,
    xt: int,
    yt: int,
)
    requires
        x0 <= xt <= x1,
        y0 <= yt < y,
        tile_overlap_spec(tw, th, xt, yt, sl),
    ensures
        rows_upto(tw, th, nx, sl, x0, x1, y0, y).contains((tile_ix_spec(nx, xt, yt) as usize, sl)),
    decreases y - y0,
{
    let rows = rows_upto(tw, th, nx, sl, x0, x1, y0, y);
    let prev = rows_upto(tw, th, nx, sl, x0, x1, y0, y - 1);
    let row = row_upto(tw, th, nx, sl, x0, x1 + 1, y - 1);
    if yt == y - 1 {
        lemma_row_upto_complete(tw, th, nx, sl, x0, x1 + 1, y - 1, xt);
        let i = choose|i: int|
            0 <= i < row.len() && row[i] == (tile_ix_spec(nx, xt, yt) as usize, sl);
        assert(rows[prev.len() + i] == row[i]);
    } else {
        lemma_rows_upto_complete(tw, th, nx, sl, x0, x1, y0, y - 1, xt, yt);
        let i = choose|i: int|
            0 <= i < prev.len() && prev[i] == (tile_ix_spec(nx, xt, yt) as usize, sl);
        assert(rows[i] == prev[i]);
    }
}

/// Each record of `infos_of` decodes its run: tile coordinates from the
/// run's key, start offset from the counts of the preceding runs, and the
/// run's own count.
pub proof fn lemma_infos_of_index(g: Seq<(usize, nat)>, nx: int, i: int)
    requires
        0 <= i < g.len(),
    ensures
        infos_of(g, nx).len() == g.len(),
        infos_of(g, nx)[i] == (TileInfo {
            tile_x: (g[i].0 as int % nx) as u32,
            tile_y: (g[i].0 as int / nx) as u32,
            start_index: rle_total(g.subrange(0, i)) as u32,
            n_lines: g[i].1 as u32,
        }),
    decreases g.len(),
{
    lemma_infos_of_len(g.drop_last(), nx);
    lemma_infos_of_len(g, nx);
    if i == g.len() - 1 {
        assert(g.subrange(0, i) =~= g.drop_last());
    } else {
        lemma_infos_of_index(g.drop_last(), nx, i);
        assert(g.drop_last().subrange(0, i) =~= g.subrange(0, i));
        assert(g.drop_last()[i] == g[i]);
        assert(infos_of(g, nx)[i] == infos_of(g.drop_last(), nx)[i]);
    }
}

/// `infos_of` produces one record per run.
pub proof fn lemma_infos_of_len(g: Seq<(usize, nat)>, nx: int)
    ensures
        infos_of(g, nx).len() == g.len(),
    decreases g.len(),
{
    if g.len() > 0 {
        lemma_infos_of_len(g.drop_last(), nx);
    }
}

/// Every run of a run-length encoding counts at least one key.
pub proof fn lemma_rle_counts(ks: Seq<usize>, i: int)
    requires
        0 <= i < rle(ks).len(),
    ensures
        rle(ks)[i].1 >= 1,
    decreases ks.len(),
{
    if ks.len() > 0 {
        let prev = rle(ks.drop_last());
        if prev.len() > 0 && prev.last().0 == ks.last() {
            if i < prev.len() - 1 {
                lemma_rle_counts(ks.drop_last(), i);
            } else {
                lemma_rle_counts(ks.drop_last(), i);
            }
        } else {
            if i < prev.len() {
                lemma_rle_counts(ks.drop_last(), i);
            }
        }
    }
}

/// Every run key of a sorted key sequence is at most the last key.
pub proof fn lemma_rle_keys_le_last(ks: Seq<usize>, i: int)
    requires
        ks.len() > 0,
        forall|a: int, b: int| 0 <= a < b < ks.len() ==> ks[a] <= ks[b],
        0 <= i < rle(ks).len(),
    ensures
        rle(ks)[i].0 <= ks.last(),
    decreases ks.len(),
{
    let prev = rle(ks.drop_last());
    let k = ks.last();
    if prev.len() > 0 && prev.last().0 == k {
        if i == prev.len() - 1 {
        } else {
            lemma_rle_keys_le_last(ks.drop_last(), i);
            assert(ks.drop_last().last() == ks[ks.len() - 2]);
            assert(ks[ks.len() - 2] <= ks[ks.len() - 1]);
        }
    } else {
        if i == prev.len() {
        } else {
            lemma_rle_keys_le_last(ks.drop_last(), i);
            assert(ks.drop_last().last() == ks[ks.len() - 2]);
            assert(ks[ks.len() - 2] <= ks[ks.len() - 1]);
        }
    }
}

/// The run keys of a sorted key sequence strictly increase.
pub proof fn lemma_rle_strict(ks: Seq<usize>, i: int, j: int)
    requires
        forall|a: int, b: int| 0 <= a < b < ks.len() ==> ks[a] <= ks[b],
        0 <= i < j < rle(ks).len(),
    ensures
        rle(ks)[i].0 < rle(ks)[j].0,
    decreases ks.len(),
{
    let prev = rle(ks.drop_last());
    let k = ks.last();
    if prev.len() > 0 && prev.last().0 == k {
        // The last run was extended; the run keys are unchanged.
        let cur = rle(ks);
        assert(cur.len() == prev.len());
        if j < prev.len() - 1 {
            lemma_rle_strict(ks.drop_last(), i, j);
            assert(cur[i] == prev[i] && cur[j] == prev[j]);
        } else {
            assert(cur[j].0 == prev[j].0);
            if i < prev.len() - 1 {
                lemma_rle_strict(ks.drop_last(), i, j);
                assert(cur[i] == prev[i]);
            }
        }
    } else {
        // A new run was opened for a strictly larger key.
        let cur = rle(ks);
        if j < prev.len() {
            lemma_rle_strict(ks.drop_last(), i, j);
            assert(cur[i] == prev[i] && cur[j] == prev[j]);
        } else {
            assert(cur[j].0 == k);
            assert(cur[i] == prev[i]);
            if ks.len() == 1 {
                assert(prev.len() == 0);
            } else {
                lemma_rle_keys_le_last(ks.drop_last(), i);
                assert(prev[i].0 <= ks.drop_last().last());
                assert(ks.drop_last().last() == ks[ks.len() - 2]);
                assert(ks[ks.len() - 2] <= k);
                if prev[i].0 == k {
                    lemma_rle_last(ks.drop_last());
                    if i < prev.len() - 1 {
                        lemma_rle_strict(ks.drop_last(), i, prev.len() - 1);
                        assert(prev[prev.len() - 1].0 <= ks.drop_last().last()) by {
                            lemma_rle_keys_le_last(ks.drop_last(), prev.len() - 1);
                        }
                        assert(false);
                    } else {
                        assert(prev.last().0 == k);
                        assert(false);
                    }
                }
            }
        }
    }
}

/// Sorted/grouped output invariant of the drained tile infos: for a sorted,
/// in-range key sequence, the records' row-major linear indices strictly
/// increase, the first record starts at offset zero, each later record
/// starts where the previous one ended, every record counts at least one
/// line, and the counts sum to the total number of assignments.
pub proof fn lemma_drain_output_invariant(ks: Seq<usize>, nx: int, ny: int)
    requires
        1 <= nx <= u32::MAX,
        1 <= ny <= u32::MAX,
        ks.len() <= u32::MAX,
        forall|a: int, b: int| 0 <= a < b < ks.len() ==> ks[a] <= ks[b],
        forall|a: int| 0 <= a < ks.len() ==> #[trigger] ks[a] < nx * ny,
    ensures
        infos_of(rle(ks), nx).len() > 0 ==> infos_of(rle(ks), nx)[0].start_index == 0,
        forall|i: int|
            0 <= i < infos_of(rle(ks), nx).len() - 1 ==> (#[trigger] infos_of(rle(ks), nx)[i
                + 1]).start_index == infos_of(rle(ks), nx)[i].start_index + infos_of(rle(ks), nx)[i].n_lines,
        forall|i: int|
            0 <= i < infos_of(rle(ks), nx).len() - 1 ==> tile_ix_spec(
                nx,
                (#[trigger] infos_of(rle(ks), nx)[i]).tile_x as int,
                infos_of(rle(ks), nx)[i].tile_y as int,
            ) < tile_ix_spec(
                nx,
                infos_of(rle(ks), nx)[i + 1].tile_x as int,
                infos_of(rle(ks), nx)[i + 1].tile_y as int,
            ),
        forall|i: int|
            0 <= i < infos_of(rle(ks), nx).len() ==> (#[trigger] infos_of(rle(ks), nx)[i]).n_lines
                >= 1,
        infos_of(rle(ks), nx).len() > 0 ==> infos_of(rle(ks), nx).last().start_index + infos_of(
            rle(ks),
            nx,
        ).last().n_lines == ks.len(),
{
    let g = rle(ks);
    let infos = infos_of(g, nx);
    lemma_infos_of_len(g, nx);
    lemma_rle_le_len(ks);
    assert forall|i: int| 0 <= i < infos.len() implies (#[trigger] infos[i]).n_lines >= 1 by {
        lemma_infos_of_index(g, nx, i);
        lemma_rle_counts(ks, i);
        lemma_rle_count_le(ks, i);
    }
    if infos.len() > 0 {
        lemma_infos_of_index(g, nx, 0);
        assert(g.subrange(0, 0) =~= Seq::<(usize, nat)>::empty());
        lemma_infos_of_index(g, nx, g.len() - 1);
        lemma_rle_total(ks);
        assert(g.subrange(0, g.len() - 1) =~= g.drop_last());
        assert(rle_total(g) == rle_total(g.drop_last()) + g.last().1);
    }
    assert forall|i: int|
        0 <= i < infos.len() - 1 implies (#[trigger] infos[i + 1]).start_index == infos[i].start_index
        + infos[i].n_lines by {
        lemma_infos_of_index(g, nx, i);
        lemma_infos_of_index(g, nx, i + 1);
        assert(g.subrange(0, i + 1).drop_last() =~= g.subrange(0, i));
        assert(g.subrange(0, i + 1).last() == g[i]);
        assert(rle_total(g.subrange(0, i + 1)) == rle_total(g.subrange(0, i)) + g[i].1);
        lemma_rle_prefix_total_le(ks, i + 1);
    }
    assert forall|i: int|
        0 <= i < infos.len() - 1 implies tile_ix_spec(
        nx,
        (#[trigger] infos[i]).tile_x as int,
        infos[i].tile_y as int,
    ) < tile_ix_spec(nx, infos[i + 1].tile_x as int, infos[i + 1].tile_y as int) by {
        lemma_infos_of_index(g, nx, i);
        lemma_infos_of_index(g, nx, i + 1);
        lemma_rle_strict(ks, i, i + 1);
        lemma_rle_key_in_range(ks, i, nx * ny);
        lemma_rle_key_in_range(ks, i + 1, nx * ny);
        vstd::arithmetic::div_mod::lemma_fundamental_div_mod(g[i].0 as int, nx);
        vstd::arithmetic::div_mod::lemma_fundamental_div_mod(g[i + 1].0 as int, nx);
        vstd::arithmetic::div_mod::lemma_mod_division_less_than_divisor(g[i].0 as int, nx);
        vstd::arithmetic::div_mod::lemma_mod_division_less_than_divisor(g[i + 1].0 as int, nx);
        vstd::arithmetic::div_mod::lemma_multiply_divide_lt(g[i].0 as int, nx, ny);
        vstd::arithmetic::div_mod::lemma_multiply_divide_lt(g[i + 1].0 as int, nx, ny);
        assert((g[i].0 as int / nx) * nx == nx * (g[i].0 as int / nx)) by (nonlinear_arith);
        assert((g[i + 1].0 as int / nx) * nx == nx * (g[i + 1].0 as int / nx)) by (
        nonlinear_arith);
        assert(tile_ix_spec(nx, g[i].0 as int % nx, g[i].0 as int / nx) == g[i].0 as int);
        assert(tile_ix_spec(nx, g[i + 1].0 as int % nx, g[i + 1].0 as int / nx) == g[i + 1].0 as int);
    }
}

/// A run-length encoding has no more runs than keys.
pub proof fn lemma_rle_le_len(ks: Seq<usize>)
    ensures
        rle(ks).len() <= ks.len(),
    decreases ks.len(),
{
    if ks.len() > 0 {
        lemma_rle_le_len(ks.drop_last());
    }
}

/// No single run counts more keys than there are.
pub proof fn lemma_rle_count_le(ks: Seq<usize>, i: int)
    requires
        0 <= i < rle(ks).len(),
    ensures
        rle(ks)[i].1 <= ks.len(),
    decreases ks.len(),
{
    if ks.len() > 0 {
        let prev = rle(ks.drop_last());
        if prev.len() > 0 && prev.last().0 == ks.last() {
            if i < prev.len() - 1 {
                lemma_rle_count_le(ks.drop_last(), i);
            } else {
                lemma_rle_count_le(ks.drop_last(), i);
            }
        } else {
            if i < prev.len() {
                lemma_rle_count_le(ks.drop_last(), i);
            }
        }
    }
}

/// The counts of a prefix of the runs never exceed the number of keys.
pub proof fn lemma_rle_prefix_total_le(ks: Seq<usize>, n: int)
    requires
        0 <= n <= rle(ks).len(),
    ensures
        rle_total(rle(ks).subrange(0, n)) <= ks.len(),
{
    lemma_rle_total(ks);
    lemma_rle_total_sub(rle(ks), n);
}

/// A prefix of runs counts no more than all runs.
pub proof fn lemma_rle_total_sub(g: Seq<(usize, nat)>, n: int)
    requires
        0 <= n <= g.len(),
    ensures
        rle_total(g.subrange(0, n)) <= rle_total(g),
    decreases g.len() - n,
{
    if n == g.len() {
        assert(g.subrange(0, n) =~= g);
    } else {
        lemma_rle_total_sub(g, n + 1);
        assert(g.subrange(0, n + 1).drop_last() =~= g.subrange(0, n));
        assert(rle_total(g.subrange(0, n + 1)) == rle_total(g.subrange(0, n)) + g[n].1);
    }
}

/// Every run key stays within the key bound of the sequence.
pub proof fn lemma_rle_key_in_range(ks: Seq<usize>, i: int, b: int)
    requires
        0 <= i < rle(ks).len(),
        forall|a: int| 0 <= a < ks.len() ==> #[trigger] ks[a] < b,
    ensures
        rle(ks)[i].0 < b,
    decreases ks.len(),
{
    if ks.len() > 0 {
        let prev = rle(ks.drop_last());
        if prev.len() > 0 && prev.last().0 == ks.last() {
            if i == prev.len() - 1 {
                assert(ks.last() == ks[ks.len() - 1]);
            } else {
                lemma_rle_key_in_range(ks.drop_last(), i, b);
            }
        } else {
            if i == prev.len() {
                assert(ks.last() == ks[ks.len() - 1]);
            } else {
                lemma_rle_key_in_range(ks.drop_last(), i, b);
            }
        }
    }
}

/// Projected onto the upward direction through the origin, a point set's
/// projection interval is exactly its y extent.
proof fn lemma_proj_is_y(s: Seq<P2>)
    requires
        s.len() >= 1,
    ensures
        crate::polygon::min_proj_of(s, P2 { x: 0, y: 0 }, V2 { x: 0, y: 1 }) == crate::bbox::min_y_of(
            s,
        ),
        crate::polygon::max_proj_of(s, P2 { x: 0, y: 0 }, V2 { x: 0, y: 1 }) == crate::bbox::max_y_of(
            s,
        ),
    decreases s.len(),
{
    let o = P2 { x: 0, y: 0 };
    let d = V2 { x: 0, y: 1 };
    assert(crate::polygon::proj_spec(s[0], o, d) == s[0].y);
    assert(crate::polygon::proj_spec(s.last(), o, d) == s.last().y);
    if s.len() > 1 {
        lemma_proj_is_y(s.drop_last());
    }
}

/// Projected onto the leftward direction through the origin, a point set's
/// projection interval is exactly its negated x extent.
proof fn lemma_proj_is_neg_x(s: Seq<P2>)
    requires
        s.len() >= 1,
    ensures
        crate::polygon::min_proj_of(s, P2 { x: 0, y: 0 }, V2 { x: -1i64, y: 0 })
            == -crate::bbox::max_x_of(s),
        crate::polygon::max_proj_of(s, P2 { x: 0, y: 0 }, V2 { x: -1i64, y: 0 })
            == -crate::bbox::min_x_of(s),
    decreases s.len(),
{
    let o = P2 { x: 0, y: 0 };
    let d = V2 { x: -1i64, y: 0 };
    assert(crate::polygon::proj_spec(s[0], o, d) == -(s[0].x as int));
    assert(crate::polygon::proj_spec(s.last(), o, d) == -(s.last().x as int));
    if s.len() > 1 {
        lemma_proj_is_neg_x(s.drop_last());
    }
}

/// Tile coverage soundness, geometric form: when no candidate axis
/// separates a tile's rectangle from a bounding polygon, the rectangle
/// overlaps the polygon's axis-aligned bounding box. In particular, every
/// tile that [`Tiler::add`] assigns a line to (see
/// [`lemma_assignments_sound`]) meets the line's bounding box.
pub proof fn lemma_sat_overlap_meets_bbox(
    tw: int,
    th: int,
    tx: int,
    ty: int,
    line: Line,
    poly: Seq<P2>,
)
    requires
        1 <= tw,
        1 <= th,
        0 <= tx,
        0 <= ty,
        (tx + 1) * tw <= 2 * (MAX_COORD as int),
        (ty + 1) * th <= 2 * (MAX_COORD as int),
        poly.len() >= 1,
        sat_overlap_spec(tw, th, tx, ty, line, poly),
    ensures
        crate::bbox::min_x_of(poly) <= (tx + 1) * tw,
        tx * tw <= crate::bbox::max_x_of(poly),
        crate::bbox::min_y_of(poly) <= (ty + 1) * th,
        ty * th <= crate::bbox::max_y_of(poly),
{
    let tile = tile_quad_spec(tw, th, tx, ty);
    assert(tile.len() == 4);
    assert(tx * tw <= (tx + 1) * tw && ty * th <= (ty + 1) * th) by (nonlinear_arith)
        requires
            1 <= tw,
            1 <= th,
            0 <= tx,
            0 <= ty,
    ;
    assert(0 <= tx * tw && 0 <= ty * th && (tx + 1) * tw <= tx * tw + tw && tx * tw + tw <= (tx
        + 1) * tw && (ty + 1) * th == ty * th + th) by (nonlinear_arith)
        requires
            1 <= tw,
            1 <= th,
            0 <= tx,
            0 <= ty,
    ;
    lemma_proj_is_y(poly);
    lemma_proj_is_y(tile);
    lemma_proj_is_neg_x(poly);
    lemma_proj_is_neg_x(tile);
    assert(crate::bbox::min_y_of(tile) == ty * th && crate::bbox::max_y_of(tile) == (ty + 1) * th
        && crate::bbox::min_x_of(tile) == tx * tw && crate::bbox::max_x_of(tile) == (tx + 1)
        * tw) by {
        reveal_with_fuel(crate::bbox::min_y_of, 5);
        reveal_with_fuel(crate::bbox::max_y_of, 5);
        reveal_with_fuel(crate::bbox::min_x_of, 5);
        reveal_with_fuel(crate::bbox::max_x_of, 5);
        assert(tile.drop_last() =~= tile.subrange(0, 3));
        assert(tile.drop_last().drop_last() =~= tile.subrange(0, 2));
        assert(tile.drop_last().drop_last().drop_last() =~= tile.subrange(0, 1));
    }
    assert(!is_separating_axis_spec(poly, tile, V2 { x: 1, y: 0 }, P2 { x: 0, y: 0 }));
    assert(rot90_spec(V2 { x: 1, y: 0 }) == V2 { x: 0, y: 1 });
    assert(rot90_spec(V2 { x: 0, y: 1 }) == V2 { x: -1i64, y: 0 });
}

/// How many times a pair occurs in an assignment sequence.
pub open spec fn pair_count(s: Seq<(usize, StyledLine)>, p: (usize, StyledLine)) -> nat
    decreases s.len(),
{
    if s.len() == 0 {
        0
    } else {
        pair_count(s.drop_last(), p) + (if s.last() == p {
            1nat
        } else {
            0nat
        })
    }
}

/// Occurrence counts add up over concatenation.
pub proof fn lemma_pair_count_concat(
    s1: Seq<(usize, StyledLine)>,
    s2: Seq<(usize, StyledLine)>,
    p: (usize, StyledLine),
)
    ensures
        pair_count(s1 + s2, p) == pair_count(s1, p) + pair_count(s2, p),
    decreases s2.len(),
{
    if s2.len() == 0 {
        assert(s1 + s2 =~= s1);
    } else {
        lemma_pair_count_concat(s1, s2.drop_last(), p);
        assert((s1 + s2).drop_last() =~= s1 + s2.drop_last());
        assert((s1 + s2).last() == s2.last());
    }
}

/// Row-major linear tile indices are injective over in-range tiles.
pub proof fn lemma_tile_ix_injective(nx: int, x1: int, y1: int, x2: int, y2: int)
    requires
        0 <= x1 < nx,
        0 <= x2 < nx,
        0 <= y1,
        0 <= y2,
        tile_ix_spec(nx, x1, y1) == tile_ix_spec(nx, x2, y2),
    ensures
        x1 == x2,
        y1 == y2,
{
    assert(x1 == x2 && y1 == y2) by (nonlinear_arith)
        requires
            0 <= x1 < nx,
            0 <= x2 < nx,
            0 <= y1,
            0 <= y2,
            y1 * nx + x1 == y2 * nx + x2,
    ;
}

/// A row of assignments holds the pair of an in-range tile exactly once
/// when the tile lies in the row and its overlap test passes, and not at
/// all otherwise.
pub proof fn lemma_row_upto_count(
    tw: int,
    th: int,
    nx: int,
    ny: int,
    sl: StyledLine,
    x0: int,
    x: int,
    y: int,
    xt: int,
    yt: int,
)
    requires
        0 <= x0,
        x <= nx,
        0 <= y < ny,
        0 <= xt < nx,
        0 <= yt < ny,
        nx * ny <= usize::MAX,
    ensures
        pair_count(row_upto(tw, th, nx, sl, x0, x, y), (tile_ix_spec(nx, xt, yt) as usize, sl))
            == if x0 <= xt < x && yt == y && tile_overlap_spec(tw, th, xt, yt, sl) {
            1int
        } else {
            0int
        },
    decreases x - x0,
{
    let p = (tile_ix_spec(nx, xt, yt) as usize, sl);
    if x <= x0 {
        assert(row_upto(tw, th, nx, sl, x0, x, y).len() == 0);
    } else {
        lemma_row_upto_count(tw, th, nx, ny, sl, x0, x - 1, y, xt, yt);
        let prev = row_upto(tw, th, nx, sl, x0, x - 1, y);
        let unit = assignment_unit(tw, th, nx, sl, x - 1, y);
        lemma_pair_count_concat(prev, unit, p);
        assert(0 <= tile_ix_spec(nx, xt, yt) < nx * ny && 0 <= tile_ix_spec(nx, x - 1, y) < nx
            * ny) by (nonlinear_arith)
            requires
                0 <= xt < nx,
                0 <= yt < ny,
                0 <= x - 1 < nx,
                0 <= y < ny,
        ;
        if sat_overlap_spec(tw, th, x - 1, y, sl.line, bounding_quad_spec(sl)) {
            assert(unit =~= seq![(tile_ix_spec(nx, x - 1, y) as usize, sl)]);
            assert(unit.drop_last() =~= Seq::<(usize, StyledLine)>::empty());
            assert(pair_count(unit.drop_last(), p) == 0);
            assert(pair_count(unit, p) == if unit.last() == p {
                1int
            } else {
                0int
            });
            if unit.last() == p {
                lemma_tile_ix_injective(nx, xt, yt, x - 1, y);
            }
            if xt == x - 1 && yt == y {
                assert(unit.last() == p);
            }
        } else {
            assert(unit.len() == 0);
            assert(pair_count(unit, p) == 0);
        }
    }
}

/// A rectangle of assignments holds the pair of an in-range tile exactly
/// once when the tile lies in the rectangle and its overlap test passes,
/// and not at all otherwise.
pub proof fn lemma_rows_upto_count(
    tw: int,
    th: int,
    nx: int,
    ny: int,
    sl: StyledLine,
    x0: int,
    x1: int,
    y0: int,
    y: int,
    xt: int,
    yt: int,
)
    requires
        0 <= x0,
        x1 < nx,
        0 <= y0,
        y <= ny,
        0 <= xt < nx,
        0 <= yt < ny,
        nx * ny <= usize::MAX,
    ensures
        pair_count(
            rows_upto(tw, th, nx, sl, x0, x1, y0, y),
            (tile_ix_spec(nx, xt, yt) as usize, sl),
        ) == if x0 <= xt <= x1 && y0 <= yt < y && tile_overlap_spec(tw, th, xt, yt, sl) {
            1int
        } else {
            0int
        },
    decreases y - y0,
{
    let p = (tile_ix_spec(nx, xt, yt) as usize, sl);
    if y <= y0 {
        assert(rows_upto(tw, th, nx, sl, x0, x1, y0, y).len() == 0);
    } else {
        lemma_rows_upto_count(tw, th, nx, ny, sl, x0, x1, y0, y - 1, xt, yt);
        lemma_row_upto_count(tw, th, nx, ny, sl, x0, x1 + 1, y - 1, xt, yt);
        lemma_pair_count_concat(
            rows_upto(tw, th, nx, sl, x0, x1, y0, y - 1),
            row_upto(tw, th, nx, sl, x0, x1 + 1, y - 1),
            p,
        );
    }
}

/// Tile coverage completeness with multiplicity, within the documented
/// candidate-rectangle approximation: an in-grid tile of the clipped
/// candidate rectangle receives exactly one assignment when its overlap
/// test passes, and no assignment otherwise. Together with
/// [`lemma_assignments_sound`], which shows every recorded pair names an
/// overlapping in-grid tile, this pins the whole assignment multiset of
/// one [`Tiler::add`] call.
pub proof fn lemma_assignments_exactly_once(
    tw: u32,
    th: u32,
    nx: u32,
    ny: u32,
    sl: StyledLine,
    xt: int,
    yt: int,
)
    requires
        nx >= 1,
        ny >= 1,
        nx * ny <= usize::MAX,
        0 <= xt < nx,
        0 <= yt < ny,
        add_candidate_rect(tw, th, nx, ny, sl) is Some,
    ensures
        pair_count(
            add_assignments_spec(tw, th, nx, ny, sl),
            (tile_ix_spec(nx as int, xt, yt) as usize, sl),
        ) == if add_candidate_rect(tw, th, nx, ny, sl)->Some_0.min_x_tile <= xt
            <= add_candidate_rect(tw, th, nx, ny, sl)->Some_0.max_x_tile && add_candidate_rect(
            tw,
            th,
            nx,
            ny,
            sl,
        )->Some_0.min_y_tile <= yt <= add_candidate_rect(tw, th, nx, ny, sl)->Some_0.max_y_tile
            && tile_overlap_spec(tw as int, th as int, xt, yt, sl) {
            1int
        } else {
            0int
        },
{
    let c = add_candidate_rect(tw, th, nx, ny, sl)->Some_0;
    lemma_rows_upto_count(
        tw as int,
        th as int,
        nx as int,
        ny as int,
        sl,
        c.min_x_tile as int,
        c.max_x_tile as int,
        c.min_y_tile as int,
        c.max_y_tile + 1,
        xt,
        yt,
    );
}

} // verus!
