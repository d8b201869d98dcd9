//! Approximate comparison of scalar values, with configurable tolerances.
//!
//! Coordinates in this crate are exact integers, so the default tolerance
//! is exact equality; explicit absolute and relative tolerances support
//! callers that accumulate rounding from repeated scaling.

use vstd::prelude::*;

use crate::types::coord_in;
use crate::types::isqrt;
use crate::types::sqdist_spec;
use crate::types::sqrt_floor;
use crate::types::P2;
use crate::types::V2;
use crate::types::MAX_COORD;

verus! {

/// Magnitude of an integer.
pub open spec fn abs_spec(a: int) -> int {
    if a >= 0 {
        a
    } else {
        -a
    }
}

/// The larger of two integers.
pub open spec fn max_spec(a: int, b: int) -> int {
    if a >= b {
        a
    } else {
        b
    }
}

/// Two values are close under an absolute tolerance: `|a - b| <= atol`.
pub open spec fn close_atol_spec(atol: int, a: int, b: int) -> bool {
    abs_spec(a - b) <= atol
}

/// Two values are close under a relative tolerance:
/// `|a - b| <= rtol * max(|a|, |b|)`.
pub open spec fn close_rtol_spec(rtol: int, a: int, b: int) -> bool {
    abs_spec(a - b) <= rtol * max_spec(abs_spec(a), abs_spec(b))
}

/// Tolerance to use when performing approximate comparisons.
#[derive(Debug, Clone, Copy, PartialEq, Eq, Structural)]
pub enum Tol {
    /// Absolute tolerance.
    Abs(i64),
    /// Relative tolerance.
    Rel(i64),
    /// Both absolute and relative tolerance.
    AbsRel { atol: i64, rtol: i64 },
}

/// Two values are close under a [`Tol`] tolerance.
pub open spec fn tol_close_spec(tol: Tol, a: int, b: int) -> bool {
    match tol {
        Tol::Abs(atol) => close_atol_spec(atol as int, a, b),
        Tol::Rel(rtol) => close_rtol_spec(rtol as int, a, b),
        Tol::AbsRel { atol, rtol } => close_atol_spec(atol as int, a, b) || close_rtol_spec(
            rtol as int,
            a,
            b,
        ),
    }
}

impl Tol {
    /// Every tolerance stored is non-negative and within the coordinate
    /// range.
    pub open spec fn wf(self) -> bool {
        match self {
            Tol::Abs(atol) => 0 <= atol <= MAX_COORD,
            Tol::Rel(rtol) => 0 <= rtol <= MAX_COORD,
            Tol::AbsRel { atol, rtol } => 0 <= atol <= MAX_COORD && 0 <= rtol <= MAX_COORD,
        }
    }

    /// Create a new absolute tolerance.
    pub fn abs(atol: i64) -> (r: Tol)
        requires
            coord_in(atol as int, MAX_COORD as int),
        ensures
            r == Tol::Abs(abs_spec(atol as int) as i64),
            r.wf(),
    {
        Tol::Abs(rabs(atol))
    }

    /// Create a new relative tolerance.
    pub fn rel(rtol: i64) -> (r: Tol)
        requires
            coord_in(rtol as int, MAX_COORD as int),
        ensures
            r == Tol::Rel(abs_spec(rtol as int) as i64),
            r.wf(),
    {
        Tol::Rel(rabs(rtol))
    }

    /// Create a new tolerance with absolute and relative components.
    pub fn absrel(atol: i64, rtol: i64) -> (r: Tol)
        requires
            coord_in(atol as int, MAX_COORD as int),
            coord_in(rtol as int, MAX_COORD as int),
        ensures
            r == (Tol::AbsRel {
                atol: abs_spec(atol as int) as i64,
                rtol: abs_spec(rtol as int) as i64,
            }),
            r.wf(),
    {
        Tol::AbsRel { atol: rabs(atol), rtol: rabs(rtol) }
    }

    /// Scale each component of the tolerance by a non-negative factor.
    pub fn scale(&self, factor: i64) -> (r: Tol)
        requires
            self.wf(),
            0 <= factor <= MAX_COORD,
        ensures
            r == match *self {
                Tol::Abs(atol) => Tol::Abs((factor * atol) as i64),
                Tol::Rel(rtol) => Tol::Rel((factor * rtol) as i64),
                Tol::AbsRel { atol, rtol } => Tol::AbsRel {
                    atol: (factor * atol) as i64,
                    rtol: (factor * rtol) as i64,
                },
            },
    {
        proof {
            assert(forall|t: int|
                0 <= t <= MAX_COORD ==> 0 <= #[trigger] (factor * t) <= MAX_COORD * MAX_COORD)
                by (nonlinear_arith)
                requires
                    0 <= factor <= MAX_COORD,
            ;
        }
        match self {
            Tol::Abs(atol) => Tol::Abs(factor * *atol),
            Tol::Rel(rtol) => Tol::Rel(factor * *rtol),
            Tol::AbsRel { atol, rtol } => Tol::AbsRel {
                atol: factor * *atol,
                rtol: factor * *rtol,
            },
        }
    }

    /// The default tolerance: exact equality, since coordinates in this
    /// crate are exact integers.
    pub fn default() -> (r: Tol)
        ensures
            r == Tol::Abs(0),
            r.wf(),
    {
        Tol::Abs(0)
    }
}

/// Closeness test.
///
/// # Parameters
///
/// - `tol`: Tolerance to use.
/// - `a`: One value to compare.
/// - `b`: The other value to compare.
///
/// # Returns
///
/// - `true` if the values are sufficiently close.
/// - `false` if the values are not sufficiently close.
pub fn close(tol: Tol, a: i64, b: i64) -> (r: bool)
    requires
        tol.wf(),
        coord_in(a as int, MAX_COORD as int),
        coord_in(b as int, MAX_COORD as int),
    ensures
        r == tol_close_spec(tol, a as int, b as int),
{
    match tol {
        Tol::Abs(atol) => close_atol(atol, a, b),
        Tol::Rel(rtol) => close_rtol(rtol, a, b),
        Tol::AbsRel { atol, rtol } => close_artol(atol, rtol, a, b),
    }
}

/// Closeness test with the default tolerance, which for exact integer
/// values is equality.
pub fn close_default_tol(a: i64, b: i64) -> (r: bool)
    requires
        coord_in(a as int, MAX_COORD as int),
        coord_in(b as int, MAX_COORD as int),
    ensures
        r == tol_close_spec(Tol::Abs(0), a as int, b as int),
        r == (a == b),
{
    let tol = Tol::default();
    close(tol, a, b)
}

/// Check if two numbers are close using both absolute and relative
/// tolerance.
///
/// This implements:
///
/// `(|a - b| <= atol) || (|a - b| <= rtol * max(|a|, |b|))`
pub fn close_artol(atol: i64, rtol: i64, a: i64, b: i64) -> (r: bool)
    requires
        0 <= atol <= MAX_COORD,
        0 <= rtol <= MAX_COORD,
        coord_in(a as int, MAX_COORD as int),
        coord_in(b as int, MAX_COORD as int),
    ensures
        r == (close_atol_spec(atol as int, a as int, b as int) || close_rtol_spec(
            rtol as int,
            a as int,
            b as int,
        )),
{
    close_atol(atol, a, b) || close_rtol(rtol, a, b)
}

/// Check if two numbers are close using absolute tolerance.
///
/// This implements:
///
/// `|a - b| <= atol`
pub fn close_atol(atol: i64, a: i64, b: i64) -> (r: bool)
    requires
        coord_in(a as int, MAX_COORD as int),
        coord_in(b as int, MAX_COORD as int),
    ensures
        r == close_atol_spec(atol as int, a as int, b as int),
{
    delta_abs(a, b) <= atol
}

/// Check if two numbers are close using relative tolerance.
///
/// This implements:
///
/// `|a - b| <= rtol * max(|a|, |b|)`
pub fn close_rtol(rtol: i64, a: i64, b: i64) -> (r: bool)
    requires
        0 <= rtol <= MAX_COORD,
        coord_in(a as int, MAX_COORD as int),
        coord_in(b as int, MAX_COORD as int),
    ensures
        r == close_rtol_spec(rtol as int, a as int, b as int),
{
    proof {
        assert(0 <= rtol * max_spec(abs_spec(a as int), abs_spec(b as int)) <= MAX_COORD
            * MAX_COORD) by (nonlinear_arith)
            requires
                0 <= rtol <= MAX_COORD,
                0 <= max_spec(abs_spec(a as int), abs_spec(b as int)) <= MAX_COORD,
        ;
    }
    delta_abs(a, b) <= rtol * rmax(rabs(a), rabs(b))
}

/// Return the absolute value of the difference between two values.
///
/// This is equal to `|a - b|`, computed without a separate magnitude step.
pub fn delta_abs(a: i64, b: i64) -> (r: i64)
    requires
        coord_in(a as int, MAX_COORD as int),
        coord_in(b as int, MAX_COORD as int),
    ensures
        r == abs_spec(a - b),
{
    if a >= b {
        a - b
    } else {
        b - a
    }
}

/// Return the magnitude of a value.
pub fn rabs(a: i64) -> (r: i64)
    requires
        coord_in(a as int, MAX_COORD as int),
    ensures
        r == abs_spec(a as int),
        0 <= r <= MAX_COORD,
{
    if a >= 0 {
        a
    } else {
        -a
    }
}

/// Return the maximum of two values.
pub fn rmax(a: i64, b: i64) -> (r: i64)
    ensures
        r == max_spec(a as int, b as int),
{
    if a >= b {
        a
    } else {
        b
    }
}

/// Two optional values are close when both are absent, or both are present
/// and close.
pub open spec fn option_close_spec(tol: Tol, a: Option<i64>, b: Option<i64>) -> bool {
    match (a, b) {
        (Option::None, Option::None) => true,
        (Option::Some(x), Option::Some(y)) => tol_close_spec(tol, x as int, y as int),
        _ => false,
    }
}

/// Closeness test for optional values: both absent, or both present and
/// close.
pub fn close_option(tol: Tol, a: Option<i64>, b: Option<i64>) -> (r: bool)
    requires
        tol.wf(),
        a is Some ==> coord_in(a->0 as int, MAX_COORD as int),
        b is Some ==> coord_in(b->0 as int, MAX_COORD as int),
    ensures
        r == option_close_spec(tol, a, b),
{
    match (a, b) {
        (Option::None, Option::None) => true,
        (Option::Some(x), Option::Some(y)) => close(tol, x, y),
        _ => false,
    }
}

/// The distance between two points, rounded down to an integer.
pub open spec fn dist_floor_spec(a: P2, b: P2) -> int {
    sqrt_floor(sqdist_spec(a, b) as nat) as int
}

/// The length of the difference of two vectors, rounded down to an integer.
pub open spec fn vdist_floor_spec(a: V2, b: V2) -> int {
    sqrt_floor(((a.x - b.x) * (a.x - b.x) + (a.y - b.y) * (a.y - b.y)) as nat) as int
}

/// Closeness test for points: their distance, rounded down, is close to
/// zero.
pub fn close_p2(tol: Tol, a: P2, b: P2) -> (r: bool)
    requires
        tol.wf(),
        a.valid(),
        b.valid(),
    ensures
        r == tol_close_spec(tol, dist_floor_spec(a, b), 0),
{
    let d = dist_floor(a.x, a.y, b.x, b.y);
    proof {
        assert(sqdist_spec(a, b) == (a.x - b.x) * (a.x - b.x) + (a.y - b.y) * (a.y - b.y));
    }
    close_dist(tol, d)
}

/// Closeness test for vectors: the length of their difference, rounded
/// down, is close to zero.
pub fn close_v2(tol: Tol, a: V2, b: V2) -> (r: bool)
    requires
        tol.wf(),
        a.valid(),
        b.valid(),
    ensures
        r == tol_close_spec(tol, vdist_floor_spec(a, b), 0),
{
    let d = dist_floor(a.x, a.y, b.x, b.y);
    close_dist(tol, d)
}

/// The floor distance between two coordinate pairs, computed without
/// overflow.
fn dist_floor(ax: i64, ay: i64, bx: i64, by: i64) -> (r: u64)
    requires
        coord_in(ax as int, MAX_COORD as int),
        coord_in(ay as int, MAX_COORD as int),
        coord_in(bx as int, MAX_COORD as int),
        coord_in(by as int, MAX_COORD as int),
    ensures
        r as nat == sqrt_floor(((ax - bx) * (ax - bx) + (ay - by) * (ay - by)) as nat),
        r < 0x8000_0000,
{
    let dx = ax - bx;
    let dy = ay - by;
    proof {
        assert(0 <= dx * dx + dy * dy <= 0x2000_0000_0000_0000 && 0 <= dx * dx && 0 <= dy * dy)
            by (nonlinear_arith)
            requires
                coord_in(dx as int, 2 * (MAX_COORD as int)),
                coord_in(dy as int, 2 * (MAX_COORD as int)),
        ;
    }
    let sq: u64 = ((dx as i128) * (dx as i128) + (dy as i128) * (dy as i128)) as u64;
    let d = isqrt(sq);
    proof {
        assert(d < 0x8000_0000) by {
            if d >= 0x8000_0000 {
                assert(d * d >= 0x8000_0000 * 0x8000_0000) by (nonlinear_arith)
                    requires
                        d >= 0x8000_0000,
                ;
            }
        }
    }
    d
}

/// Closeness of a non-negative magnitude to zero, under a tolerance.
fn close_dist(tol: Tol, d: u64) -> (r: bool)
    requires
        tol.wf(),
        d < 0x8000_0000,
    ensures
        r == tol_close_spec(tol, d as int, 0),
{
    let dv = d as i64;
    match tol {
        Tol::Abs(atol) => dv <= atol,
        Tol::Rel(rtol) => {
            proof {
                assert(0 <= rtol * dv <= 0x8000_0000 * (MAX_COORD as int)) by (nonlinear_arith)
                    requires
                        0 <= rtol <= MAX_COORD,
                        0 <= dv < 0x8000_0000,
                ;
            }
            dv <= rtol * dv
        },
        Tol::AbsRel { atol, rtol } => {
            proof {
                assert(0 <= rtol * dv <= 0x8000_0000 * (MAX_COORD as int)) by (nonlinear_arith)
                    requires
                        0 <= rtol <= MAX_COORD,
                        0 <= dv < 0x8000_0000,
                ;
            }
            dv <= atol || dv <= rtol * dv
        },
    }
}

} // verus!
