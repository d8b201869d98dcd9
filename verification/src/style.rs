//! Line styles, and the bounding polygon swept by a styled line.

use vstd::prelude::*;

use crate::compare::abs_spec;
use crate::line::Line;
use crate::polygon::edge_spec;
use crate::polygon::edges_intersect_spec;
use crate::polygon::is_convex_spec;
use crate::polygon::is_simple_spec;
use crate::polygon::points_coincident_spec;
use crate::polygon::winding_spec;
use crate::polygon::Polygon;
use crate::polygon::Winding;
use crate::types::coord_in;
use crate::types::isqrt;
use crate::types::rot90_spec;
use crate::types::sqdist_spec;
use crate::types::sqrt_floor;
use crate::types::cross_spec;
use crate::types::sub_pp_spec;
use crate::types::P2;
use crate::types::V2;
use crate::types::MAX_COORD;

verus! {

/// Describes the cap at the end of lines.
#[derive(Debug, Clone, Copy, PartialEq, Eq, Structural)]
pub enum LineCap {
    /// Squared ends that do not extend beyond the end-point of the line.
    Butt,
    /// Rounded end-points. Each end is a semi-circle with radius equal to
    /// half of the line width.
    Round,
    /// Squared ends that extend beyond the end of the line by half of the
    /// line width.
    Square,
}

/// Color for a line, as 8-bit RGBA components.
#[derive(Debug, Clone, Copy, PartialEq, Eq, Structural)]
pub struct Color {
    pub red: u8,
    pub green: u8,
    pub blue: u8,
    pub alpha: u8,
}

impl Color {
    pub fn new(red: u8, green: u8, blue: u8, alpha: u8) -> (r: Color)
        ensures
            r == (Color { red, green, blue, alpha }),
    {
        Color { red, green, blue, alpha }
    }

    /// Return the color components as an RGBA array.
    pub fn as_array(&self) -> (r: [u8; 4])
        ensures
            r@ =~= seq![self.red, self.green, self.blue, self.alpha],
    {
        [self.red, self.green, self.blue, self.alpha]
    }
}

/// Style attributes of a line.
#[derive(Debug, Clone, Copy, PartialEq, Eq, Structural)]
pub struct LineStyle {
    /// Width of the line, in coordinate units.
    pub width: i64,
    /// Line cap.
    pub cap: LineCap,
    /// Color of the line.
    pub color: Color,
}

impl LineStyle {
    /// The width is positive and within the coordinate range.
    pub open spec fn wf(self) -> bool {
        0 < self.width <= MAX_COORD
    }
}

/// A line with an associated style.
#[derive(Debug, Clone, Copy, PartialEq, Eq, Structural)]
pub struct StyledLine {
    pub line: Line,
    pub style: LineStyle,
}

/// Nearest integer to `a / b` for non-negative `a` and positive `b`, with
/// halves rounded up.
pub open spec fn half_round_div(a: int, b: int) -> int
    recommends
        a >= 0,
        b > 0,
{
    (2 * a + b) / (2 * b)
}

/// Magnitude of one component of a width offset: half the line width,
/// scaled by the component `c` of a direction vector of length about `l`,
/// rounded to the nearest integer.
pub open spec fn scaled_mag(w: int, c: int, l: int) -> int
    recommends
        w >= 1,
        c >= 0,
        l >= 1,
{
    half_round_div(w * c, 2 * l)
}

/// Signed offset component: `scaled_mag` of the magnitude of `c`, with the
/// sign of `c`.
pub open spec fn signed_offset(w: int, c: int, l: int) -> int {
    if c >= 0 {
        scaled_mag(w, c, l)
    } else {
        -scaled_mag(w, -c, l)
    }
}

/// A signed offset component rounded outward: when the nearest-unit offset
/// rounds to zero but the direction component is not zero, one unit in the
/// component's direction is used instead.
pub open spec fn bumped_offset(w: int, c: int, l: int) -> int {
    let s0 = signed_offset(w, c, l);
    if s0 != 0 {
        s0
    } else if c > 0 {
        1
    } else if c < 0 {
        -1
    } else {
        0
    }
}

/// The x component of the perpendicular half-width offset: rounded to the
/// nearest unit, and rounded outward to at least one unit when it is the
/// dominant component, so that the extruded polygon never degenerates.
pub open spec fn perp_offset_x(v: V2, w: int, l: int) -> int {
    let t = rot90_spec(v);
    if abs_spec(t.x as int) > abs_spec(t.y as int) {
        bumped_offset(w, t.x as int, l)
    } else {
        signed_offset(w, t.x as int, l)
    }
}

/// The y component of the perpendicular half-width offset, with the same
/// outward rounding of the dominant component as [`perp_offset_x`].
pub open spec fn perp_offset_y(v: V2, w: int, l: int) -> int {
    let t = rot90_spec(v);
    if abs_spec(t.y as int) >= abs_spec(t.x as int) {
        bumped_offset(w, t.y as int, l)
    } else {
        signed_offset(w, t.y as int, l)
    }
}

/// Length of a line, rounded down to an integer.
pub open spec fn line_len_floor(l: Line) -> int {
    sqrt_floor(sqdist_spec(l.a, l.b) as nat) as int
}

/// The vertices of the bounding quadrilateral of a styled line.
///
/// The quad is the line extruded by half its width perpendicular to its
/// direction; `Round` and `Square` caps also extend both ends
/// longitudinally by half the width, while `Butt` caps add no longitudinal
/// extension. Offsets are exact rationals rounded to the nearest coordinate
/// unit, except that the dominant component of the perpendicular offset is
/// rounded outward to at least one unit, so that the quad is simple and
/// convex for every non-degenerate line and positive width.
pub open spec fn bounding_quad_spec(sl: StyledLine) -> Seq<P2> {
    let a = sl.line.a;
    let b = sl.line.b;
    let v = sub_pp_spec(b, a);
    let l = line_len_floor(sl.line);
    let w = sl.style.width as int;
    let capm: int = if sl.style.cap is Butt {
        0
    } else {
        1
    };
    let ovx = capm * signed_offset(w, v.x as int, l);
    let ovy = capm * signed_offset(w, v.y as int, l);
    let wtx = perp_offset_x(v, w, l);
    let wty = perp_offset_y(v, w, l);
    seq![
        P2 { x: (a.x - (ovx + wtx)) as i64, y: (a.y - (ovy + wty)) as i64 },
        P2 { x: (a.x - (ovx - wtx)) as i64, y: (a.y - (ovy - wty)) as i64 },
        P2 { x: (b.x + (ovx + wtx)) as i64, y: (b.y + (ovy + wty)) as i64 },
        P2 { x: (b.x + (ovx - wtx)) as i64, y: (b.y + (ovy - wty)) as i64 },
    ]
}

impl StyledLine {
    /// The line is well formed and the style has a positive width.
    pub open spec fn wf(self) -> bool {
        self.line.wf() && self.style.wf()
    }

    /// Returns a bounding-polygon describing the line.
    ///
    /// The polygon accounts for the line width and end-cap style, and is
    /// always a simple, convex quadrilateral - the shape class the
    /// separating-axis overlap test is valid for.
    #[verifier::rlimit(100)]
    pub fn bounding_polygon(&self) -> (r: Polygon)
        requires
            self.wf(),
        ensures
            r.wf(),
            r.vertices@ =~= bounding_quad_spec(*self),
            r.vertices@.len() == 4,
            is_simple_spec(r.vertices@, 0),
            is_convex_spec(r.vertices@, 0),
    {
        proof {
            lemma_bounding_quad_simple_convex(*self);
        }
        let a = self.line.a;
        let b = self.line.b;
        let vx = b.x - a.x;
        let vy = b.y - a.y;
        let tx = -vy;
        let ty = vx;

        proof {
            assert(0 <= vx * vx + vy * vy <= 0x2000_0000_0000_0000 && vx * vx <= vx * vx + vy * vy
                && vy * vy <= vx * vx + vy * vy) by (nonlinear_arith)
                requires
                    coord_in(vx as int, 2 * (MAX_COORD as int)),
                    coord_in(vy as int, 2 * (MAX_COORD as int)),
            ;
        }
        let sq: u64 = ((vx as i128) * (vx as i128) + (vy as i128) * (vy as i128)) as u64;
        let l: u64 = isqrt(sq);
        proof {
            assert(sq == vx * vx + vy * vy);
            if l == 0 {
                assert(sq < 1) by (nonlinear_arith)
                    requires
                        l == 0,
                        sq < (l + 1) * (l + 1),
                ;
                assert(vx * vx + vy * vy == 0);
                assert(vx == 0 && vy == 0) by (nonlinear_arith)
                    requires
                        vx * vx + vy * vy == 0,
                ;
                assert(false);
            }
            assert(l < 0x1_0000_0000) by {
                if l >= 0x1_0000_0000 {
                    assert(l * l >= 0x1_0000_0000 * 0x1_0000_0000) by (nonlinear_arith)
                        requires
                            l >= 0x1_0000_0000,
                    ;
                }
            }
            assert(vx * vx <= l * l + 2 * l) by (nonlinear_arith)
                requires
                    vx * vx <= sq,
                    sq < (l + 1) * (l + 1),
            ;
            assert(coord_in(vx as int, l as int)) by (nonlinear_arith)
                requires
                    vx * vx <= l * l + 2 * l,
                    l >= 1,
            ;
            assert(vy * vy <= l * l + 2 * l) by (nonlinear_arith)
                requires
                    vy * vy <= sq,
                    sq < (l + 1) * (l + 1),
            ;
            assert(coord_in(vy as int, l as int)) by (nonlinear_arith)
                requires
                    vy * vy <= l * l + 2 * l,
                    l >= 1,
            ;
        }

        proof {
            assert(sqdist_spec(a, b) == vx * vx + vy * vy) by (nonlinear_arith)
                requires
                    vx as int == b.x - a.x,
                    vy as int == b.y - a.y,
            ;
            assert(l as int == line_len_floor(self.line));
        }

        let w = self.style.width;
        let (wtx, wty) = perp_offsets(vx, vy, w, l);
        proof {
            assert(sub_pp_spec(b, a) == V2 { x: vx, y: vy });
        }
        let (ovx, ovy) = match self.style.cap {
            LineCap::Butt => (0i64, 0i64),
            LineCap::Round => (off_comp(w, vx, l), off_comp(w, vy, l)),
            LineCap::Square => (off_comp(w, vx, l), off_comp(w, vy, l)),
        };

        let ovpx = ovx + wtx;
        let ovpy = ovy + wty;
        let ovnx = ovx - wtx;
        let ovny = ovy - wty;

        proof {
            assert(-(w + 1) <= ovpx <= w + 1 && -(w + 1) <= ovpy <= w + 1 && -(w + 1) <= ovnx <= w
                + 1 && -(w + 1) <= ovny <= w + 1);
        }
        let mut verts: Vec<P2> = Vec::new();
        verts.push(P2 { x: a.x - ovpx, y: a.y - ovpy });
        verts.push(P2 { x: a.x - ovnx, y: a.y - ovny });
        verts.push(P2 { x: b.x + ovpx, y: b.y + ovpy });
        verts.push(P2 { x: b.x + ovnx, y: b.y + ovny });
        proof {
            assert(verts@[0].vertex_ok() && verts@[1].vertex_ok() && verts@[2].vertex_ok()
                && verts@[3].vertex_ok());
        }
        let polygon = Polygon::new(verts);
        proof {
            assert(polygon.vertices@ =~= bounding_quad_spec(*self));
            assert(polygon.vertices@ == bounding_quad_spec(*self));
        }
        polygon
    }
}

/// The perpendicular half-width offset of a line direction, computed
/// without overflow: each component rounded to the nearest unit, the
/// dominant one rounded outward to at least one unit.
fn perp_offsets(vx: i64, vy: i64, w: i64, l: u64) -> (r: (i64, i64))
    requires
        1 <= w <= MAX_COORD,
        1 <= l < 0x1_0000_0000,
        coord_in(vx as int, l as int),
        coord_in(vy as int, l as int),
    ensures
        r.0 as int == perp_offset_x(V2 { x: vx, y: vy }, w as int, l as int),
        r.1 as int == perp_offset_y(V2 { x: vx, y: vy }, w as int, l as int),
        2 * r.0 <= w + 1 && -(w + 1) <= 2 * r.0,
        2 * r.1 <= w + 1 && -(w + 1) <= 2 * r.1,
{
    let tx = -vy;
    let ty = vx;
    let wtx0 = off_comp(w, tx, l);
    let wty0 = off_comp(w, ty, l);
    let atx = if tx >= 0 {
        tx
    } else {
        -tx
    };
    let aty = if ty >= 0 {
        ty
    } else {
        -ty
    };
    let wtx = if atx > aty && wtx0 == 0 {
        if tx > 0 {
            1
        } else if tx < 0 {
            -1
        } else {
            0
        }
    } else {
        wtx0
    };
    let wty = if aty >= atx && wty0 == 0 {
        if ty > 0 {
            1
        } else if ty < 0 {
            -1
        } else {
            0
        }
    } else {
        wty0
    };
    proof {
        let tsp = crate::types::rot90_spec(V2 { x: vx, y: vy });
        assert(tsp.x == tx && tsp.y == ty);
        assert(atx as int == abs_spec(tx as int) && aty as int == abs_spec(ty as int));
        if atx > aty {
            assert(wtx as int == bumped_offset(w as int, tx as int, l as int));
        }
        assert(wtx as int == perp_offset_x(V2 { x: vx, y: vy }, w as int, l as int));
        if aty >= atx {
            assert(wty as int == bumped_offset(w as int, ty as int, l as int));
        }
        assert(wty as int == perp_offset_y(V2 { x: vx, y: vy }, w as int, l as int));
    }
    (wtx, wty)
}

/// One signed component of a width offset, computed without overflow.
///
/// The rational offset is `(w / 2) * (c / l)`, rounded to the nearest
/// integer; its magnitude never exceeds `(w + 1) / 2`.
pub(crate) fn off_comp(w: i64, c: i64, l: u64) -> (r: i64)
    requires
        1 <= w <= MAX_COORD,
        1 <= l < 0x1_0000_0000,
        coord_in(c as int, l as int),
    ensures
        r as int == signed_offset(w as int, c as int, l as int),
        2 * r <= w + 1,
        -(w + 1) <= 2 * r,
{
    let cm: u64 = if c < 0 {
        (-c) as u64
    } else {
        c as u64
    };
    proof {
        assert(w * cm <= MAX_COORD * 0x1_0000_0000) by (nonlinear_arith)
            requires
                0 <= w <= MAX_COORD,
                0 <= cm < 0x1_0000_0000,
        ;
    }
    let p: u128 = (w as u128) * (cm as u128);
    let num: u128 = 2 * p + 2 * (l as u128);
    let den: u128 = 4 * (l as u128);
    let q: u128 = num / den;
    proof {
        assert(num <= den * ((w + 1) as int)) by (nonlinear_arith)
            requires
                p == w * cm,
                0 <= cm <= l,
                1 <= w,
                1 <= l,
                num == 2 * p + 2 * l,
                den == 4 * l,
        ;
        vstd::arithmetic::div_mod::lemma_div_is_ordered(
            num as int,
            den * ((w + 1) as int),
            den as int,
        );
        vstd::arithmetic::div_mod::lemma_div_multiples_vanish((w + 1) as int, den as int);
        assert(q <= w + 1);
        vstd::arithmetic::div_mod::lemma_fundamental_div_mod(num as int, den as int);
        vstd::arithmetic::div_mod::lemma_mod_division_less_than_divisor(num as int, den as int);
        assert(den * q <= num);
        assert(2 * q <= w + 1) by (nonlinear_arith)
            requires
                den == 4 * l,
                num == 2 * (w * cm) + 2 * l,
                den * q <= num,
                0 <= cm <= l,
                1 <= w,
                1 <= l,
                q >= 0,
        ;
        assert(q == scaled_mag(w as int, cm as int, l as int)) by {
            assert(q == num / den);
            assert(num == 2 * (w * cm) + 2 * l);
            assert(den == 2 * (2 * l));
        }
    }
    if c < 0 {
        -(q as i64)
    } else {
        q as i64
    }
}

/// The rounded offset magnitude is non-negative and at most half the width
/// plus a half unit.
pub proof fn lemma_scaled_mag_bounds(w: int, c: int, l: int)
    requires
        1 <= w,
        0 <= c <= l,
        1 <= l,
    ensures
        0 <= scaled_mag(w, c, l),
        2 * scaled_mag(w, c, l) <= w + 1,
{
    let num = 2 * (w * c) + 2 * l;
    let den = 4 * l;
    assert(scaled_mag(w, c, l) == num / den) by {
        assert(den == 2 * (2 * l));
    }
    assert(0 <= num) by (nonlinear_arith)
        requires
            1 <= w,
            0 <= c,
            1 <= l,
            num == 2 * (w * c) + 2 * l,
    ;
    vstd::arithmetic::div_mod::lemma_div_pos_is_pos(num, den);
    vstd::arithmetic::div_mod::lemma_fundamental_div_mod(num, den);
    vstd::arithmetic::div_mod::lemma_mod_division_less_than_divisor(num, den);
    assert(den * (num / den) <= num);
    assert(num <= 2 * l * (w + 1)) by (nonlinear_arith)
        requires
            0 <= c <= l,
            1 <= w,
            1 <= l,
            num == 2 * (w * c) + 2 * l,
    ;
    assert(2 * (num / den) <= w + 1) by (nonlinear_arith)
        requires
            den == 4 * l,
            den * (num / den) <= num,
            num <= 2 * l * (w + 1),
            1 <= l,
            num / den >= 0,
    ;
}

/// The signed offset has the sign of its component, and magnitude at most
/// half the width plus a half unit.
pub proof fn lemma_signed_offset_props(w: int, c: int, l: int)
    requires
        1 <= w,
        1 <= l,
        -l <= c <= l,
    ensures
        c >= 0 ==> 0 <= signed_offset(w, c, l),
        c <= 0 ==> signed_offset(w, c, l) <= 0,
        -(w + 1) <= 2 * signed_offset(w, c, l) <= w + 1,
{
    if c >= 0 {
        lemma_scaled_mag_bounds(w, c, l);
        if c == 0 {
            lemma_signed_offset_zero(w, l);
        }
    } else {
        lemma_scaled_mag_bounds(w, -c, l);
    }
}

/// The signed offset of zero is zero.
pub proof fn lemma_signed_offset_zero(w: int, l: int)
    requires
        1 <= w,
        1 <= l,
    ensures
        signed_offset(w, 0, l) == 0,
{
    vstd::arithmetic::div_mod::lemma_basic_div(2 * l, 4 * l);
    assert(scaled_mag(w, 0, l) == (2 * (w * 0) + 2 * l) / (2 * (2 * l)));
    assert(w * 0 == 0) by (nonlinear_arith);
}

/// The turn cross product shared by all four corners of the bounding
/// quadrilateral: the cross product of the perpendicular offset with the
/// cap-extended line direction.
pub open spec fn quad_cross(sl: StyledLine) -> int {
    let a = sl.line.a;
    let b = sl.line.b;
    let v = sub_pp_spec(b, a);
    let l = line_len_floor(sl.line);
    let w = sl.style.width as int;
    let capm: int = if sl.style.cap is Butt {
        0
    } else {
        1
    };
    let wtx = perp_offset_x(v, w, l);
    let wty = perp_offset_y(v, w, l);
    let dx = v.x + 2 * capm * signed_offset(w, v.x as int, l);
    let dy = v.y + 2 * capm * signed_offset(w, v.y as int, l);
    wtx * dy - wty * dx
}

/// The bounding quadrilateral of any well-formed styled line is a simple,
/// convex polygon: its four vertices are pairwise distinct, no two of its
/// non-adjacent edges intersect, and every corner turns the same
/// (clockwise) way, witnessed by the strictly negative shared corner
/// cross product.
#[verifier::rlimit(100)]
pub proof fn lemma_bounding_quad_simple_convex(sl: StyledLine)
    requires
        sl.wf(),
    ensures
        is_simple_spec(bounding_quad_spec(sl), 0),
        is_convex_spec(bounding_quad_spec(sl), 0),
        quad_cross(sl) <= -1,
{
    let q = bounding_quad_spec(sl);
    let a = sl.line.a;
    let b = sl.line.b;
    let vx = b.x - a.x;
    let vy = b.y - a.y;
    let w = sl.style.width as int;
    let l = line_len_floor(sl.line);
    let sq = sqdist_spec(a, b);
    let capm: int = if sl.style.cap is Butt {
        0
    } else {
        1
    };

    // The floor-length window gives 1 <= l and |vx|, |vy| <= l.
    crate::types::lemma_sqrt_floor_bounds(sq as nat);
    assert(sq == vx * vx + vy * vy && vx * vx <= sq && vy * vy <= sq) by (nonlinear_arith)
        requires
            vx == b.x - a.x,
            vy == b.y - a.y,
            sq == (a.x - b.x) * (a.x - b.x) + (a.y - b.y) * (a.y - b.y),
    ;
    assert(vx != 0 || vy != 0);
    assert(sq >= 1) by (nonlinear_arith)
        requires
            sq == vx * vx + vy * vy,
            vx != 0 || vy != 0,
    ;
    assert(l >= 1) by {
        if l == 0 {
            assert(sq < (l + 1) * (l + 1));
            assert(sq < 1) by (nonlinear_arith)
                requires
                    l == 0,
                    sq < (l + 1) * (l + 1),
            ;
        }
    }
    assert(-l <= vx <= l && -l <= vy <= l) by (nonlinear_arith)
        requires
            vx * vx <= sq,
            vy * vy <= sq,
            l * l <= sq,
            sq < (l + 1) * (l + 1),
            l >= 1,
    ;

    // The longitudinal offset components align with the line direction; the
    // perpendicular ones oppose its rotation; the dominant perpendicular
    // component is at least one unit.
    let px = signed_offset(w, vx, l);
    let py = signed_offset(w, vy, l);
    lemma_signed_offset_props(w, vx, l);
    lemma_signed_offset_props(w, vy, l);
    lemma_signed_offset_zero(w, l);
    let v = sub_pp_spec(b, a);
    assert(v.x == vx && v.y == vy);
    assert(crate::types::rot90_spec(v).x == -vy && crate::types::rot90_spec(v).y == vx);
    let wtx = perp_offset_x(v, w, l);
    let wty = perp_offset_y(v, w, l);
    assert(signed_offset(w, -vy, l) == -py) by {
        if vy == 0 {
        }
    }
    assert(vy > 0 ==> wtx <= 0 && py >= 0);
    assert(vy < 0 ==> wtx >= 0 && py <= 0);
    assert(vy == 0 ==> wtx == 0 && py == 0);
    assert(vx > 0 ==> wty >= 0 && px >= 0);
    assert(vx < 0 ==> wty <= 0 && px <= 0);
    assert(vx == 0 ==> wty == 0 && px == 0);
    assert(-(w + 1) <= 2 * wtx <= w + 1 && -(w + 1) <= 2 * wty <= w + 1) by {
        assert(w + 1 >= 2);
    }
    assert(abs_spec(vx) >= abs_spec(vy) ==> wty != 0 && vx != 0);
    assert(abs_spec(vy) > abs_spec(vx) ==> wtx != 0 && vy != 0);

    // The shared corner cross product is strictly negative: every corner of
    // the quadrilateral turns clockwise.
    let ovx = capm * px;
    let ovy = capm * py;
    assert(ovx == 0 || ovx == px);
    assert(ovy == 0 || ovy == py);
    let dx = vx + 2 * ovx;
    let dy = vy + 2 * ovy;
    let gamma = wtx * dy - wty * dx;
    assert(gamma == quad_cross(sl));
    assert(gamma <= -1) by (nonlinear_arith)
        requires
            gamma == wtx * dy - wty * dx,
            dx == vx + 2 * ovx,
            dy == vy + 2 * ovy,
            ovx == 0 || ovx == px,
            ovy == 0 || ovy == py,
            vx > 0 ==> wty >= 0 && px >= 0,
            vx < 0 ==> wty <= 0 && px <= 0,
            vx == 0 ==> wty == 0 && px == 0,
            vy > 0 ==> wtx <= 0 && py >= 0,
            vy < 0 ==> wtx >= 0 && py <= 0,
            vy == 0 ==> wtx == 0 && py == 0,
            abs_spec(vx) >= abs_spec(vy) ==> wty != 0 && vx != 0,
            abs_spec(vy) > abs_spec(vx) ==> wtx != 0 && vy != 0,
            abs_spec(vx) == if vx >= 0 { vx } else { -vx },
            abs_spec(vy) == if vy >= 0 { vy } else { -vy },
    ;

    // The line direction grows under the longitudinal extension, so the
    // long edge vector is nonzero.
    assert(vx != 0 ==> (vx > 0 ==> dx >= vx) && (vx < 0 ==> dx <= vx));
    assert(vy != 0 ==> (vy > 0 ==> dy >= vy) && (vy < 0 ==> dy <= vy));
    assert(dx != 0 || dy != 0);

    // The four vertices, as exact integer coordinates.
    assert(-(w + 1) <= ovx + wtx <= w + 1 && -(w + 1) <= ovx - wtx <= w + 1 && -(w + 1) <= ovy
        + wty <= w + 1 && -(w + 1) <= ovy - wty <= w + 1);
    assert(q[0] == P2 { x: (a.x - (ovx + wtx)) as i64, y: (a.y - (ovy + wty)) as i64 });
    assert(q[1] == P2 { x: (a.x - (ovx - wtx)) as i64, y: (a.y - (ovy - wty)) as i64 });
    assert(q[2] == P2 { x: (b.x + (ovx + wtx)) as i64, y: (b.y + (ovy + wty)) as i64 });
    assert(q[3] == P2 { x: (b.x + (ovx - wtx)) as i64, y: (b.y + (ovy - wty)) as i64 });
    assert(q[0].x == a.x - (ovx + wtx) && q[0].y == a.y - (ovy + wty));
    assert(q[1].x == a.x - (ovx - wtx) && q[1].y == a.y - (ovy - wty));
    assert(q[2].x == b.x + (ovx + wtx) && q[2].y == b.y + (ovy + wty));
    assert(q[3].x == b.x + (ovx - wtx) && q[3].y == b.y + (ovy - wty));

    // Pairwise distinct vertices: each difference vector is one of
    // (2 wtx, 2 wty), (dx, dy), or their sums and differences, none zero.
    assert(q[1].x - q[0].x == 2 * wtx && q[1].y - q[0].y == 2 * wty);
    assert(q[3].x - q[2].x == -2 * wtx && q[3].y - q[2].y == -2 * wty);
    assert(q[2].x - q[1].x == dx && q[2].y - q[1].y == dy);
    assert(q[3].x - q[0].x == dx && q[3].y - q[0].y == dy);
    assert(q[2].x - q[0].x == dx + 2 * wtx && q[2].y - q[0].y == dy + 2 * wty);
    assert(q[3].x - q[1].x == dx - 2 * wtx && q[3].y - q[1].y == dy - 2 * wty);
    assert(2 * wtx != 0 || 2 * wty != 0);
    assert(!(dx + 2 * wtx == 0 && dy + 2 * wty == 0)) by {
        if dx + 2 * wtx == 0 && dy + 2 * wty == 0 {
            assert(gamma == 0) by (nonlinear_arith)
                requires
                    gamma == wtx * dy - wty * dx,
                    dx == -2 * wtx,
                    dy == -2 * wty,
            ;
        }
    }
    assert(!(dx - 2 * wtx == 0 && dy - 2 * wty == 0)) by {
        if dx - 2 * wtx == 0 && dy - 2 * wty == 0 {
            assert(gamma == 0) by (nonlinear_arith)
                requires
                    gamma == wtx * dy - wty * dx,
                    dx == 2 * wtx,
                    dy == 2 * wty,
            ;
        }
    }
    assert forall|i: int, j: int| 0 <= i < j < 4 implies sqdist_spec(q[i], q[j]) > 0 by {
        let ddx = q[i].x - q[j].x;
        let ddy = q[i].y - q[j].y;
        assert(ddx != 0 || ddy != 0);
        assert(sqdist_spec(q[i], q[j]) > 0) by (nonlinear_arith)
            requires
                sqdist_spec(q[i], q[j]) == ddx * ddx + ddy * ddy,
                ddx != 0 || ddy != 0,
        ;
    }
    assert(!points_coincident_spec(q, 0)) by {
        if points_coincident_spec(q, 0) {
            let (i, j) = choose|i: int, j: int|
                0 <= i < j < q.len() && sqdist_spec(q[i], q[j]) <= 0;
            assert(sqdist_spec(q[i], q[j]) > 0);
        }
    }

    // The two non-adjacent edge pairs are exactly antiparallel, so the
    // intersection determinant is zero and neither pair intersects.
    assert(!edges_intersect_spec(q)) by {
        if edges_intersect_spec(q) {
            let (i, j) = choose|i: int, j: int|
                0 <= i && i + 2 <= j < q.len() && !(i == 0 && j == q.len() - 1)
                    && crate::line::intersection_spec(edge_spec(q, i), edge_spec(q, j)) is Some;
            if i == 0 && j == 2 {
                let e0 = edge_spec(q, 0);
                let e2 = edge_spec(q, 2);
                let v1 = sub_pp_spec(e0.b, e0.a);
                let v2 = sub_pp_spec(e2.b, e2.a);
                assert(v1.x == 2 * wtx && v1.y == 2 * wty);
                assert(v2.x == -2 * wtx && v2.y == -2 * wty);
                assert(cross_spec(v1, v2) == 0) by (nonlinear_arith)
                    requires
                        v1.x == 2 * wtx,
                        v1.y == 2 * wty,
                        v2.x == -2 * wtx,
                        v2.y == -2 * wty,
                        cross_spec(v1, v2) == v1.x * v2.y - v1.y * v2.x,
                ;
            } else {
                assert(i == 1 && j == 3);
                let e1 = edge_spec(q, 1);
                let e3 = edge_spec(q, 3);
                let v1 = sub_pp_spec(e1.b, e1.a);
                let v2 = sub_pp_spec(e3.b, e3.a);
                assert(v1.x == dx && v1.y == dy);
                assert(v2.x == -dx && v2.y == -dy);
                assert(cross_spec(v1, v2) == 0) by (nonlinear_arith)
                    requires
                        v1.x == dx,
                        v1.y == dy,
                        v2.x == -dx,
                        v2.y == -dy,
                        cross_spec(v1, v2) == v1.x * v2.y - v1.y * v2.x,
                ;
            }
        }
    }

    // Every corner turns clockwise: each turn cross product equals twice
    // the shared negative cross product.
    assert forall|i: int| 0 <= i < 4 implies winding_spec(q, i) == Some(Winding::Clockwise) by {
        let p = if i == 0 {
            3int
        } else {
            i - 1
        };
        let n = if i + 1 == 4 {
            0int
        } else {
            i + 1
        };
        let inv = sub_pp_spec(q[i], q[p]);
        let outv = sub_pp_spec(q[n], q[i]);
        if i == 0 {
            assert(inv.x == -dx && inv.y == -dy && outv.x == 2 * wtx && outv.y == 2 * wty);
            assert(cross_spec(inv, outv) == 2 * gamma) by (nonlinear_arith)
                requires
                    inv.x == -dx,
                    inv.y == -dy,
                    outv.x == 2 * wtx,
                    outv.y == 2 * wty,
                    cross_spec(inv, outv) == inv.x * outv.y - inv.y * outv.x,
                    gamma == wtx * dy - wty * dx,
            ;
        } else if i == 1 {
            assert(inv.x == 2 * wtx && inv.y == 2 * wty && outv.x == dx && outv.y == dy);
            assert(cross_spec(inv, outv) == 2 * gamma) by (nonlinear_arith)
                requires
                    inv.x == 2 * wtx,
                    inv.y == 2 * wty,
                    outv.x == dx,
                    outv.y == dy,
                    cross_spec(inv, outv) == inv.x * outv.y - inv.y * outv.x,
                    gamma == wtx * dy - wty * dx,
            ;
        } else if i == 2 {
            assert(inv.x == dx && inv.y == dy && outv.x == -2 * wtx && outv.y == -2 * wty);
            assert(cross_spec(inv, outv) == 2 * gamma) by (nonlinear_arith)
                requires
                    inv.x == dx,
                    inv.y == dy,
                    outv.x == -2 * wtx,
                    outv.y == -2 * wty,
                    cross_spec(inv, outv) == inv.x * outv.y - inv.y * outv.x,
                    gamma == wtx * dy - wty * dx,
            ;
        } else {
            assert(inv.x == -2 * wtx && inv.y == -2 * wty && outv.x == -dx && outv.y == -dy);
            assert(cross_spec(inv, outv) == 2 * gamma) by (nonlinear_arith)
                requires
                    inv.x == -2 * wtx,
                    inv.y == -2 * wty,
                    outv.x == -dx,
                    outv.y == -dy,
                    cross_spec(inv, outv) == inv.x * outv.y - inv.y * outv.x,
                    gamma == wtx * dy - wty * dx,
            ;
        }
        assert(cross_spec(inv, outv) < 0);
    }
    assert(!(exists|i: int, j: int|
        0 <= i < q.len() && 0 <= j < q.len() && winding_spec(q, i) == Some(Winding::Clockwise)
            && winding_spec(q, j) == Some(Winding::Anticlockwise))) by {
        if exists|i: int, j: int|
            0 <= i < q.len() && 0 <= j < q.len() && winding_spec(q, i) == Some(Winding::Clockwise)
                && winding_spec(q, j) == Some(Winding::Anticlockwise) {
            let (i, j) = choose|i: int, j: int|
                0 <= i < q.len() && 0 <= j < q.len() && winding_spec(q, i) == Some(
                    Winding::Clockwise,
                ) && winding_spec(q, j) == Some(Winding::Anticlockwise);
            assert(winding_spec(q, j) == Some(Winding::Clockwise));
        }
    }
}

} // verus!
