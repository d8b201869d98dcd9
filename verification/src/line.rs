//! Line segments between two distinct points, and their exact intersection
//! test.

use vstd::prelude::*;

use crate::types::coord_in;
use crate::types::cross_spec;
use crate::types::sub_pp_spec;
use crate::types::P2;
use crate::types::V2;
use crate::types::VERT_BOUND;

verus! {

/// Errors produced when constructing a [`Line`].
#[derive(Debug, Clone, Copy, PartialEq, Eq, Structural)]
pub enum LineError {
    /// The two end points coincide, so the line has no direction.
    Degenerate,
}

/// Line segment.
///
/// To construct a line, use [`Line::new`], which rejects degenerate lines:
/// with exact integer coordinates, two end points within the closeness
/// tolerance of one coordinate unit are the same point.
#[derive(Debug, Clone, Copy, PartialEq, Eq, Structural)]
pub struct Line {
    /// Start point of the line.
    pub a: P2,
    /// End point of the line.
    pub b: P2,
}

/// Truncating division (rounding toward zero) with a positive divisor.
pub open spec fn trunc_div(n: int, d: int) -> int
    recommends
        d > 0,
{
    if n >= 0 {
        n / d
    } else {
        -((-n) / d)
    }
}

/// Exact intersection of two line segments.
///
/// Follows Cramer's rule on the 2x2 system: a zero determinant (parallel or
/// collinear segments) yields no intersection; otherwise the intersection is
/// accepted only if both parameters lie in `[0, 1]`. The returned point is
/// the exact rational intersection with each coordinate rounded toward the
/// first line's start point.
pub open spec fn intersection_spec(l1: Line, l2: Line) -> Option<P2> {
    let v1 = sub_pp_spec(l1.b, l1.a);
    let v2 = sub_pp_spec(l2.b, l2.a);
    let w = sub_pp_spec(l2.a, l1.a);
    let d = cross_spec(v1, v2);
    if d == 0 {
        None
    } else {
        let dd = if d > 0 {
            d
        } else {
            -d
        };
        let m1 = if d > 0 {
            cross_spec(w, v2)
        } else {
            -cross_spec(w, v2)
        };
        let m2 = if d > 0 {
            cross_spec(w, v1)
        } else {
            -cross_spec(w, v1)
        };
        if 0 <= m1 <= dd && 0 <= m2 <= dd {
            Some(
                P2 {
                    x: (l1.a.x + trunc_div(m1 * v1.x, dd)) as i64,
                    y: (l1.a.y + trunc_div(m1 * v1.y, dd)) as i64,
                },
            )
        } else {
            None
        }
    }
}

impl Line {
    /// Both end points are in range and distinct.
    pub open spec fn wf(self) -> bool {
        self.a.valid() && self.b.valid() && self.a != self.b
    }

    /// Create a new line from two points.
    ///
    /// The points must not lie on top of each other: coincident points are a
    /// construction error, since a degenerate line has no direction.
    ///
    /// # Parameters
    ///
    /// - `a`: An end-point of the line.
    /// - `b`: The other end-point of the line.
    ///
    /// # Returns
    ///
    /// The new line, or [`LineError::Degenerate`] when the points coincide.
    pub fn new(a: P2, b: P2) -> (r: Result<Line, LineError>)
        requires
            a.valid(),
            b.valid(),
        ensures
            r is Ok <==> a != b,
            r is Ok ==> r->Ok_0 == (Line { a, b }) && r->Ok_0.wf(),
            r is Err ==> r->Err_0 == LineError::Degenerate,
    {
        if a.x == b.x && a.y == b.y {
            Err(LineError::Degenerate)
        } else {
            Ok(Line { a, b })
        }
    }

    /// Returns the start point of the line.
    pub fn start(&self) -> (r: P2)
        ensures
            r == self.a,
    {
        self.a
    }

    /// Returns the end point of the line.
    pub fn end(&self) -> (r: P2)
        ensures
            r == self.b,
    {
        self.b
    }

    /// Return the vector along the line.
    ///
    /// The returned vector starts from the beginning of the line, and is the
    /// length of the line, in the direction of the end of the line.
    pub fn ab_vec(&self) -> (r: V2)
        requires
            self.a.valid(),
            self.b.valid(),
        ensures
            r == sub_pp_spec(self.b, self.a),
            r.vertex_ok(),
    {
        V2 { x: self.b.x - self.a.x, y: self.b.y - self.a.y }
    }

    /// Evaluate the line at the rational parameter value `t_num / t_den`.
    ///
    /// A value of `t = 0` corresponds to the point `a` at the start of the
    /// line, while `t = 1` corresponds to the point `b` at the end. The
    /// parameter is not clamped to `[0, 1]`: any magnitude up to `2^31` line
    /// lengths evaluates a collinear point beyond either end, the machine
    /// limit that keeps the result within the coordinate type. Each
    /// coordinate of the result is the exact rational value rounded toward
    /// `a`.
    pub fn eval_param(&self, t_num: i64, t_den: i64) -> (r: P2)
        requires
            self.a.valid(),
            self.b.valid(),
            t_den > 0,
            -0x8000_0000 * t_den <= t_num <= 0x8000_0000 * t_den,
        ensures
            r == self.eval_param_spec(t_num as int, t_den as int),
    {
        let vx = self.b.x - self.a.x;
        let vy = self.b.y - self.a.y;
        let dx = mul_div_trunc(t_num as i128, vx, t_den as i128);
        let dy = mul_div_trunc(t_num as i128, vy, t_den as i128);
        proof {
            lemma_trunc_div_scaled(t_num as int, t_den as int, vx as int, 0x8000_0000);
            lemma_trunc_div_scaled(t_num as int, t_den as int, vy as int, 0x8000_0000);
        }
        P2 { x: self.a.x + dx, y: self.a.y + dy }
    }

    /// Parameter zero evaluates to the start point and parameter one to the
    /// end point, exactly.
    pub proof fn lemma_eval_param_endpoints(self, d: int)
        requires
            self.a.valid(),
            self.b.valid(),
            d > 0,
        ensures
            self.eval_param_spec(0, d) == self.a,
            self.eval_param_spec(d, d) == self.b,
    {
        let v = sub_pp_spec(self.b, self.a);
        assert(0 * v.x == 0 && 0 * v.y == 0) by (nonlinear_arith);
        vstd::arithmetic::div_mod::lemma_div_of0(d);
        assert(trunc_div(0, d) == 0);
        assert(trunc_div(d * v.x, d) == v.x) by {
            if v.x >= 0 {
                assert(d * v.x >= 0) by (nonlinear_arith)
                    requires
                        d > 0,
                        v.x >= 0,
                ;
                vstd::arithmetic::div_mod::lemma_div_multiples_vanish(v.x as int, d);
            } else {
                assert(d * v.x < 0 && -(d * v.x) == d * (-v.x)) by (nonlinear_arith)
                    requires
                        d > 0,
                        v.x < 0,
                ;
                vstd::arithmetic::div_mod::lemma_div_multiples_vanish(-(v.x as int), d);
            }
        }
        assert(trunc_div(d * v.y, d) == v.y) by {
            if v.y >= 0 {
                assert(d * v.y >= 0) by (nonlinear_arith)
                    requires
                        d > 0,
                        v.y >= 0,
                ;
                vstd::arithmetic::div_mod::lemma_div_multiples_vanish(v.y as int, d);
            } else {
                assert(d * v.y < 0 && -(d * v.y) == d * (-v.y)) by (nonlinear_arith)
                    requires
                        d > 0,
                        v.y < 0,
                ;
                vstd::arithmetic::div_mod::lemma_div_multiples_vanish(-(v.y as int), d);
            }
        }
    }

    /// The point of the line at rational parameter `t_num / t_den`, rounded
    /// toward the start point.
    pub open spec fn eval_param_spec(self, t_num: int, t_den: int) -> P2
        recommends
            t_den > 0,
    {
        let v = sub_pp_spec(self.b, self.a);
        P2 {
            x: (self.a.x + trunc_div(t_num * v.x, t_den)) as i64,
            y: (self.a.y + trunc_div(t_num * v.y, t_den)) as i64,
        }
    }

    /// Find the intersection point of two line segments.
    ///
    /// # Parameters
    ///
    /// - `line`: A second line to try to intersect this one with.
    ///
    /// # Returns
    ///
    /// An intersection point, if one exists; `None` for parallel or collinear
    /// segments, and for intersections outside either segment.
    pub fn intersection(&self, line: &Line) -> (r: Option<P2>)
        requires
            self.a.valid(),
            self.b.valid(),
            line.a.valid(),
            line.b.valid(),
        ensures
            r == intersection_spec(*self, *line),
    {
        let v1x = self.b.x - self.a.x;
        let v1y = self.b.y - self.a.y;
        let v2x = line.b.x - line.a.x;
        let v2y = line.b.y - line.a.y;
        let wx = line.a.x - self.a.x;
        let wy = line.a.y - self.a.y;

        let d: i128 = cross_vals(v1x, v1y, v2x, v2y);
        if d == 0 {
            return None;
        }
        let n1: i128 = cross_vals(wx, wy, v2x, v2y);
        let n2: i128 = cross_vals(wx, wy, v1x, v1y);

        let dd: i128 = if d > 0 { d } else { -d };
        let m1: i128 = if d > 0 { n1 } else { -n1 };
        let m2: i128 = if d > 0 { n2 } else { -n2 };

        if m1 < 0 || m1 > dd || m2 < 0 || m2 > dd {
            return None;
        }

        let dx = mul_div_trunc(m1, v1x, dd);
        let dy = mul_div_trunc(m1, v1y, dd);
        proof {
            lemma_trunc_div_between(m1 as int, dd as int, v1x as int);
            lemma_trunc_div_between(m1 as int, dd as int, v1y as int);
        }
        Some(P2 { x: self.a.x + dx, y: self.a.y + dy })
    }
}

/// Cross product `ax * by - ay * bx` computed without overflow.
fn cross_vals(ax: i64, ay: i64, bx: i64, by: i64) -> (r: i128)
    requires
        coord_in(ax as int, VERT_BOUND as int),
        coord_in(ay as int, VERT_BOUND as int),
        coord_in(bx as int, VERT_BOUND as int),
        coord_in(by as int, VERT_BOUND as int),
    ensures
        r as int == ax * by - ay * bx,
        coord_in(r as int, 0x8000_0000_0000_0000),
{
    proof {
        assert(coord_in(ax * by, 0x4000_0000_0000_0000) && coord_in(ay * bx, 0x4000_0000_0000_0000)
            && coord_in(ax * by - ay * bx, 0x8000_0000_0000_0000)) by (nonlinear_arith)
            requires
                coord_in(ax as int, VERT_BOUND as int),
                coord_in(ay as int, VERT_BOUND as int),
                coord_in(bx as int, VERT_BOUND as int),
                coord_in(by as int, VERT_BOUND as int),
        ;
    }
    (ax as i128) * (by as i128) - (ay as i128) * (bx as i128)
}

/// Compute `trunc_div(num * comp, den)` without overflow.
///
/// `num / den` is a rational scale factor of magnitude at most `2^31`; the
/// result therefore has magnitude at most `2^31 * |comp|`, which fits `i64`.
pub(crate) fn mul_div_trunc(num: i128, comp: i64, den: i128) -> (r: i64)
    requires
        0 < den <= 0x8000_0000_0000_0000,
        -0x8000_0000 * den <= num <= 0x8000_0000 * den,
        coord_in(comp as int, VERT_BOUND as int),
    ensures
        r as int == trunc_div(num * comp, den as int),
        coord_in(r as int, 0x8000_0000 * (VERT_BOUND as int)),
{
    let cm: u128 = if comp < 0 {
        (-(comp as i128)) as u128
    } else {
        comp as u128
    };
    let nm: u128 = if num < 0 {
        (-num) as u128
    } else {
        num as u128
    };
    proof {
        assert(nm * cm <= (0x8000_0000 * cm) * den) by (nonlinear_arith)
            requires
                0 <= nm <= 0x8000_0000 * den,
                cm >= 0,
                den > 0,
        ;
        assert((0x8000_0000 * cm) * den <= 0x8000_0000 * (VERT_BOUND as int)
            * 0x8000_0000_0000_0000) by (nonlinear_arith)
            requires
                0 < den <= 0x8000_0000_0000_0000,
                0 <= cm <= VERT_BOUND,
        ;
    }
    let mag: u128 = (nm * cm) / (den as u128);
    proof {
        assert(nm * cm <= den * (0x8000_0000 * cm)) by (nonlinear_arith)
            requires
                0 <= nm <= 0x8000_0000 * den,
                cm >= 0,
                den > 0,
        ;
        vstd::arithmetic::div_mod::lemma_div_is_ordered(
            (nm * cm) as int,
            den * (0x8000_0000 * cm),
            den as int,
        );
        vstd::arithmetic::div_mod::lemma_div_multiples_vanish(0x8000_0000 * cm, den as int);
        assert(mag <= 0x8000_0000 * cm);
        assert(0x8000_0000 * cm <= 0x8000_0000 * (VERT_BOUND as int)) by (nonlinear_arith)
            requires
                0 <= cm <= VERT_BOUND,
        ;
        assert(mag <= 0x8000_0000 * (VERT_BOUND as int));
    }
    let neg = (num < 0) != (comp < 0);
    let r: i64 = if neg {
        -(mag as i64)
    } else {
        mag as i64
    };
    proof {
        let p = num * comp;
        vstd::arithmetic::div_mod::lemma_div_of0(den as int);
        if num >= 0 && comp >= 0 {
            assert(nm == num && cm == comp as int);
            assert(p >= 0 && nm * cm == p) by (nonlinear_arith)
                requires
                    num >= 0,
                    comp >= 0,
                    p == num * comp,
                    nm == num,
                    cm == comp as int,
            ;
            assert(r as int == trunc_div(p, den as int));
        } else if num >= 0 && comp < 0 {
            assert(nm == num && cm == -(comp as int));
            assert(p <= 0 && nm * cm == -p) by (nonlinear_arith)
                requires
                    num >= 0,
                    comp < 0,
                    p == num * comp,
                    nm == num,
                    cm == -(comp as int),
            ;
            if p == 0 {
                assert(mag == 0);
            }
            assert(r as int == trunc_div(p, den as int));
        } else if num < 0 && comp >= 0 {
            assert(nm == -num && cm == comp as int);
            assert(p <= 0 && nm * cm == -p) by (nonlinear_arith)
                requires
                    num < 0,
                    comp >= 0,
                    p == num * comp,
                    nm == -num,
                    cm == comp as int,
            ;
            if p == 0 {
                assert(mag == 0);
            }
            assert(r as int == trunc_div(p, den as int));
        } else {
            assert(nm == -num && cm == -(comp as int));
            assert(p >= 0 && nm * cm == p) by (nonlinear_arith)
                requires
                    num < 0,
                    comp < 0,
                    p == num * comp,
                    nm == -num,
                    cm == -(comp as int),
            ;
            assert(r as int == trunc_div(p, den as int));
        }
        assert(coord_in(r as int, 0x8000_0000 * (VERT_BOUND as int)));
    }
    r
}

/// Scaling by a rational factor of magnitude at most `s` keeps a value
/// within `s` times its own magnitude.
pub proof fn lemma_trunc_div_scaled(n: int, d: int, c: int, s: int)
    requires
        -s * d <= n <= s * d,
        d > 0,
        s >= 0,
    ensures
        c >= 0 ==> -(s * c) <= trunc_div(n * c, d) <= s * c,
        c < 0 ==> s * c <= trunc_div(n * c, d) <= -(s * c),
{
    let cm = if c >= 0 {
        c
    } else {
        -c
    };
    let p = n * c;
    let pm = if p >= 0 {
        p
    } else {
        -p
    };
    assert(pm <= d * (s * cm)) by (nonlinear_arith)
        requires
            -s * d <= n <= s * d,
            d > 0,
            s >= 0,
            cm == if c >= 0 { c } else { -c },
            pm == if n * c >= 0 { n * c } else { -(n * c) },
    ;
    assert(0 <= s * cm && s * cm == (if c >= 0 {
        s * c
    } else {
        -(s * c)
    })) by (nonlinear_arith)
        requires
            s >= 0,
            cm == if c >= 0 { c } else { -c },
    ;
    if p >= 0 {
        vstd::arithmetic::div_mod::lemma_div_is_ordered(p, d * (s * cm), d);
        vstd::arithmetic::div_mod::lemma_div_multiples_vanish(s * cm, d);
        vstd::arithmetic::div_mod::lemma_div_pos_is_pos(p, d);
    } else {
        vstd::arithmetic::div_mod::lemma_div_is_ordered(-p, d * (s * cm), d);
        vstd::arithmetic::div_mod::lemma_div_multiples_vanish(s * cm, d);
        vstd::arithmetic::div_mod::lemma_div_pos_is_pos(-p, d);
    }
}

/// Scaling by a rational factor in `[0, 1]` keeps a value between zero and
/// itself.
pub proof fn lemma_trunc_div_between(n: int, d: int, c: int)
    requires
        0 <= n <= d,
        d > 0,
    ensures
        c >= 0 ==> 0 <= trunc_div(n * c, d) <= c,
        c < 0 ==> c <= trunc_div(n * c, d) <= 0,
{
    if c >= 0 {
        assert(0 <= n * c <= d * c) by (nonlinear_arith)
            requires
                0 <= n <= d,
                c >= 0,
        ;
        vstd::arithmetic::div_mod::lemma_div_is_ordered(n * c, d * c, d);
        vstd::arithmetic::div_mod::lemma_div_multiples_vanish(c, d);
        vstd::arithmetic::div_mod::lemma_div_pos_is_pos(n * c, d);
    } else {
        assert(0 <= n * (-c) <= d * (-c)) by (nonlinear_arith)
            requires
                0 <= n <= d,
                c < 0,
        ;
        assert(n * (-c) == -(n * c)) by (nonlinear_arith);
        vstd::arithmetic::div_mod::lemma_div_is_ordered(n * (-c), d * (-c), d);
        vstd::arithmetic::div_mod::lemma_div_multiples_vanish(-c, d);
        vstd::arithmetic::div_mod::lemma_div_pos_is_pos(n * (-c), d);
    }
}

} // verus!
