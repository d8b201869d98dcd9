//! Common types for the renderer: 2D points and vectors over exact integer
//! coordinates, and small arithmetic helpers.

use vstd::prelude::*;

verus! {

/// Largest magnitude allowed for a line-endpoint coordinate, a direction
/// component or a line width.
///
/// Keeping input coordinates within this bound guarantees that every
/// intermediate value computed by the geometric predicates (dot products,
/// cross products, separating-axis projections) fits in an `i64` without
/// overflow.
pub const MAX_COORD: i64 = 536870912;

/// Largest magnitude allowed for a polygon vertex coordinate.
///
/// Derived polygons (styled-line extrusions, tile rectangles) may reach twice
/// the input coordinate bound, plus a little rounding slack; this constant is
/// two and a half times [`MAX_COORD`].
pub const VERT_BOUND: i64 = 1342177280;

/// A value has magnitude at most `bound`.
pub open spec fn coord_in(x: int, bound: int) -> bool {
    -bound <= x <= bound
}

/// An input coordinate is valid when its magnitude is at most [`MAX_COORD`].
pub open spec fn valid_coord(x: int) -> bool {
    coord_in(x, MAX_COORD as int)
}

/// 2D point with exact integer coordinates.
#[derive(Debug, Clone, Copy, PartialEq, Eq, Structural)]
pub struct P2 {
    pub x: i64,
    pub y: i64,
}

/// 2D vector with exact integer components.
#[derive(Debug, Clone, Copy, PartialEq, Eq, Structural)]
pub struct V2 {
    pub x: i64,
    pub y: i64,
}

impl P2 {
    /// Both coordinates are within the valid input coordinate range.
    pub open spec fn valid(self) -> bool {
        valid_coord(self.x as int) && valid_coord(self.y as int)
    }

    /// Both coordinates are within the polygon vertex range.
    pub open spec fn vertex_ok(self) -> bool {
        coord_in(self.x as int, VERT_BOUND as int) && coord_in(self.y as int, VERT_BOUND as int)
    }

    pub fn new(x: i64, y: i64) -> (r: P2)
        ensures
            r == (P2 { x, y }),
    {
        P2 { x, y }
    }
}

impl V2 {
    /// Both components are within the valid input coordinate range.
    pub open spec fn valid(self) -> bool {
        valid_coord(self.x as int) && valid_coord(self.y as int)
    }

    /// Both components are within the polygon vertex range.
    pub open spec fn vertex_ok(self) -> bool {
        coord_in(self.x as int, VERT_BOUND as int) && coord_in(self.y as int, VERT_BOUND as int)
    }

    pub fn new(x: i64, y: i64) -> (r: V2)
        ensures
            r == (V2 { x, y }),
    {
        V2 { x, y }
    }
}

/// Vector from point `a` to point `b`.
pub open spec fn sub_pp_spec(b: P2, a: P2) -> V2 {
    V2 { x: (b.x - a.x) as i64, y: (b.y - a.y) as i64 }
}

/// Specification of the 90-degree anti-clockwise rotation.
pub open spec fn rot90_spec(v: V2) -> V2 {
    V2 { x: -v.y as i64, y: v.x }
}

/// Rotate a [`V2`] vector 90 degrees anti-clockwise (in a y-up frame).
pub fn v2_rot90_anticlockwise(v: V2) -> (r: V2)
    requires
        v.vertex_ok(),
    ensures
        r == rot90_spec(v),
        r.vertex_ok(),
{
    V2 { x: -v.y, y: v.x }
}

/// Dot product of two vectors, as a mathematical integer.
pub open spec fn dot_spec(a: V2, b: V2) -> int {
    a.x * b.x + a.y * b.y
}

/// Cross product (z component) of two vectors, as a mathematical integer.
pub open spec fn cross_spec(a: V2, b: V2) -> int {
    a.x * b.y - a.y * b.x
}

/// Squared distance between two points, as a mathematical integer.
pub open spec fn sqdist_spec(a: P2, b: P2) -> int {
    (a.x - b.x) * (a.x - b.x) + (a.y - b.y) * (a.y - b.y)
}

/// Compute "ceiling division" for `u32` values: `ceil(a / b)`.
pub fn ceil_div_u32(a: u32, b: u32) -> (r: u32)
    requires
        b > 0,
    ensures
        r == ceil_div_spec(a as int, b as int),
{
    if a == 0 {
        assert(ceil_div_spec(0, b as int) == 0) by {
            vstd::arithmetic::div_mod::lemma_basic_div(b - 1, b as int);
        }
        0
    } else {
        proof {
            vstd::arithmetic::div_mod::lemma_div_plus_one(a - 1, b as int);
            vstd::arithmetic::div_mod::lemma_div_nonincreasing(a - 1, b as int);
            vstd::arithmetic::div_mod::lemma_div_pos_is_pos(a - 1, b as int);
            assert(1 + (a - 1) / (b as int) == (b + (a - 1)) / (b as int));
            assert(b + (a - 1) == a + b - 1);
        }
        (a - 1) / b + 1
    }
}

/// Specification of ceiling division on non-negative integers.
pub open spec fn ceil_div_spec(a: int, b: int) -> int
    recommends
        b > 0,
{
    (a + b - 1) / b
}

/// Largest integer whose square does not exceed `n`.
pub open spec fn sqrt_floor(n: nat) -> nat
    decreases n,
{
    if n == 0 {
        0
    } else {
        let r = sqrt_floor((n - 1) as nat);
        if (r + 1) * (r + 1) <= n {
            r + 1
        } else {
            r
        }
    }
}

/// `sqrt_floor(n)` is the floor of the real square root of `n`.
pub proof fn lemma_sqrt_floor_bounds(n: nat)
    ensures
        sqrt_floor(n) * sqrt_floor(n) <= n,
        n < (sqrt_floor(n) + 1) * (sqrt_floor(n) + 1),
    decreases n,
{
    let s = sqrt_floor(n);
    if n == 0 {
        assert(s == 0);
        assert(n < (s + 1) * (s + 1)) by (nonlinear_arith)
            requires
                n == 0,
                s == 0,
        ;
    } else {
        lemma_sqrt_floor_bounds((n - 1) as nat);
        let r = sqrt_floor((n - 1) as nat);
        assert(r * r <= n - 1);
        assert(n - 1 < (r + 1) * (r + 1));
        if (r + 1) * (r + 1) <= n {
            assert(s == r + 1);
            assert(n <= (r + 1) * (r + 1));
            assert(n < (s + 1) * (s + 1)) by (nonlinear_arith)
                requires
                    s == r + 1,
                    n <= (r + 1) * (r + 1),
            ;
        } else {
            assert(s == r);
        }
    }
}

/// Any value meeting the square-root window equals `sqrt_floor(n)`.
pub proof fn lemma_sqrt_floor_unique(n: nat, r: nat)
    requires
        r * r <= n,
        n < (r + 1) * (r + 1),
    ensures
        r == sqrt_floor(n),
{
    lemma_sqrt_floor_bounds(n);
    let s = sqrt_floor(n);
    if r < s {
        assert((r + 1) * (r + 1) <= s * s) by (nonlinear_arith)
            requires
                r + 1 <= s,
        ;
    }
    if s < r {
        assert((s + 1) * (s + 1) <= r * r) by (nonlinear_arith)
            requires
                s + 1 <= r,
        ;
    }
}

/// Integer square root, rounded down.
pub fn isqrt(n: u64) -> (r: u64)
    ensures
        r as nat == sqrt_floor(n as nat),
        r * r <= n,
        n < (r + 1) * (r + 1),
{
    let mut lo: u64 = 0;
    let mut hi: u64 = 4294967295;
    proof {
        assert((hi + 1) * (hi + 1) > n as int) by (nonlinear_arith)
            requires
                hi == 4294967295,
                n <= u64::MAX,
        ;
    }
    while lo < hi
        invariant
            lo <= hi <= 4294967295,
            lo * lo <= n,
            n < (hi + 1) * (hi + 1),
        decreases hi - lo,
    {
        let mid: u64 = lo + (hi - lo + 1) / 2;
        proof {
            assert(mid * mid <= 4294967295u64 * 4294967295u64) by (nonlinear_arith)
                requires
                    mid <= 4294967295,
            ;
        }
        let sq: u64 = mid * mid;
        if sq <= n {
            lo = mid;
        } else {
            hi = mid - 1;
        }
    }
    proof {
        lemma_sqrt_floor_unique(n as nat, lo as nat);
    }
    lo
}

} // verus!
