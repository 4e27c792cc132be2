//! Circle outlines by parametric sampling: one pixel per angular step, the
//! step chosen so the sample count grows with the circumference.
//!
//! All arithmetic is integer-exact. The full turn `2*pi` is taken as the
//! rational `6283185307179586 / 10^15`, and the sine quarter-wave as the
//! rational approximation `sin(u*pi/2) ~ 4u(2-u) / (5 - u(2-u))` for
//! `u` in `[0, 1]`, which is exact at both ends of the quadrant. This is a
//! sampling approximation, not a true digital circle: it guarantees neither
//! 8-connectivity nor pixel uniqueness.

use vstd::prelude::*;
use vstd::arithmetic::div_mod::lemma_div_is_ordered;
use vstd::arithmetic::div_mod::lemma_div_multiples_vanish_fancy;
use vstd::arithmetic::div_mod::lemma_fundamental_div_mod_converse;
use crate::color::Color;
use crate::color::random_color;
use crate::color::vivid;
use crate::drawable::Drawable;
use crate::line::path_view;
use crate::line::pt;
use crate::point::Point;
use crate::rng::rand_in_range;
use crate::sink::Displayable;
use crate::sink::paint;

verus! {

/// Why a shape's geometry was rejected at construction.
#[derive(Clone, Copy, PartialEq, Eq, Structural, Debug)]
pub enum GeometryError {
    /// A circle needs a radius of at least one pixel.
    NonPositiveRadius,
}

/// How many points a circle of this radius is sampled at: the circumference
/// `radius * 2 * pi`, rounded to the nearest integer.
pub open spec fn spec_num_points(radius: int) -> int {
    (radius * 6283185307179586 + 500000000000000) / 1000000000000000
}

/// The scaled quarter-wave: `radius * sin(u * pi / 2)` rounded to the
/// nearest integer, for the fraction `u = rem / n` of a quadrant, using the
/// rational approximation `4u(2-u) / (5 - u(2-u))` of the sine.
pub open spec fn spec_quarter(r: int, rem: int, n: int) -> int {
    let w = rem * (2 * n - rem);
    let den = 5 * n * n - w;
    (8 * r * w + den) / (2 * den)
}

/// Saturates a coordinate into the pixel range, as casting a rounded
/// floating-point coordinate would.
pub open spec fn clamp_coord(v: int) -> int {
    if v < -0x8000_0000 {
        -0x8000_0000
    } else if v > 0x7fff_ffff {
        0x7fff_ffff
    } else {
        v
    }
}

/// Sample `i` of `n` on the circle of radius `r` around `(cx, cy)`: the
/// angle `2*pi*i/n` is split into a quadrant `q` and the fraction `rem/n`
/// of that quadrant, and both offsets come from the quarter-wave.
pub open spec fn circle_sample(cx: int, cy: int, r: int, i: int, n: int) -> (int, int) {
    let k = 4 * i;
    let q = k / n;
    let rem = k % n;
    let sv = spec_quarter(r, rem, n);
    let cv = spec_quarter(r, n - rem, n);
    let off = if q == 0 {
        (cv, sv)
    } else if q == 1 {
        (-sv, cv)
    } else if q == 2 {
        (-cv, -sv)
    } else {
        (sv, -cv)
    };
    (clamp_coord(cx + off.0), clamp_coord(cy + off.1))
}

/// The exact pixel sequence a circle emits: its samples in angular order,
/// and nothing for a degenerate radius.
pub open spec fn circle_path(cx: int, cy: int, r: int) -> Seq<(int, int)> {
    if r >= 1 {
        Seq::new(spec_num_points(r) as nat, |i: int| circle_sample(cx, cy, r, i, spec_num_points(r)))
    } else {
        Seq::empty()
    }
}

/// A positive radius always yields between 6 and 2^35 samples.
proof fn lemma_num_points_bounds(radius: int)
    requires
        1 <= radius <= 0x7fff_ffff,
    ensures
        6 <= spec_num_points(radius) <= 0x8_0000_0000,
{
    assert(radius * 6283185307179586 >= 1 * 6283185307179586) by (nonlinear_arith)
        requires radius >= 1;
    assert(radius * 6283185307179586 <= 0x7fff_ffff * 6283185307179586) by (nonlinear_arith)
        requires radius <= 0x7fff_ffff;
    let lo: int = 1int * 6283185307179586 + 500000000000000;
    let hi: int = 19342813113834066795298816int;
    lemma_div_is_ordered(lo, radius * 6283185307179586 + 500000000000000, 1000000000000000);
    // 2^84 bounds the largest possible numerator from above.
    lemma_div_is_ordered(radius * 6283185307179586 + 500000000000000, hi, 1000000000000000);
    lemma_fundamental_div_mod_converse(lo, 1000000000000000, 6, 783185307179586);
    lemma_fundamental_div_mod_converse(hi, 1000000000000000, 19342813113, 834066795298816);
}

/// The sample count for a circle of the given radius; the circumference
/// rounded to the nearest integer, so a unit circle is sampled 6 times.
pub fn num_points(radius: i32) -> (n: u64)
    requires
        radius >= 1,
    ensures
        n as int == spec_num_points(radius as int),
        6 <= n <= 0x8_0000_0000,
{
    proof {
        lemma_num_points_bounds(radius as int);
        assert((radius as u128) * 6283185307179586 <= 0x7fff_ffff * 6283185307179586)
            by (nonlinear_arith)
            requires radius as u128 <= 0x7fff_ffff;
    }
    let num: u128 = (radius as u128) * 6283185307179586 + 500000000000000;
    let n: u128 = num / 1000000000000000;
    n as u64
}

/// The scaled quarter-wave of `spec_quarter`, computed exactly; the result
/// never exceeds the radius.
fn quarter_scaled(r: u64, rem: u64, n: u64) -> (v: u64)
    requires
        1 <= n <= 0x8_0000_0000,
        rem <= n,
        1 <= r <= 0x7fff_ffff,
    ensures
        v as int == spec_quarter(r as int, rem as int, n as int),
        v <= r,
{
    let rw: u128 = rem as u128;
    let nw: u128 = n as u128;
    proof {
        assert(rw * (2 * nw - rw) <= nw * nw) by (nonlinear_arith)
            requires rw <= nw;
        assert(nw * nw <= 0x8_0000_0000 * 0x8_0000_0000) by (nonlinear_arith)
            requires nw <= 0x8_0000_0000;
        assert(nw * nw >= 1) by (nonlinear_arith)
            requires nw >= 1;
    }
    let w: u128 = rw * (2 * nw - rw);
    let den: u128 = 5 * (nw * nw) - w;
    proof {
        assert((r as u128) * w <= 0x7fff_ffff * (0x8_0000_0000 * 0x8_0000_0000))
            by (nonlinear_arith)
            requires r as u128 <= 0x7fff_ffff, w <= 0x8_0000_0000 * 0x8_0000_0000;
        // 4w <= den, so the rounded quotient cannot exceed r.
        assert(8 * ((r as u128) * w) + den <= 2 * den * (r as u128) + den) by (nonlinear_arith)
            requires
                r as u128 >= 1,
                w * 4 <= den,
        ;
        lemma_div_is_ordered(
            (8 * ((r as u128) * w) + den) as int,
            (2 * den * (r as u128) + den) as int,
            (2 * den) as int,
        );
        assert(2 * den * (r as u128) + den == (2 * den) * (r as u128) + den) by (nonlinear_arith);
        lemma_div_multiples_vanish_fancy(r as int, den as int, (2 * den) as int);
        // The executable grouping of the products matches the specification's.
        assert(8 * ((r as int) * (w as int)) == 8 * (r as int) * (w as int)) by (nonlinear_arith);
        assert(5 * ((nw as int) * (nw as int)) == 5 * (nw as int) * (nw as int))
            by (nonlinear_arith);
    }
    let v: u128 = (8 * ((r as u128) * w) + den) / (2 * den);
    v as u64
}

/// Saturates a wide coordinate into the pixel range.
fn clamp_to_i32(v: i64) -> (r: i32)
    ensures
        r as int == clamp_coord(v as int),
{
    if v < -0x8000_0000i64 {
        -0x8000_0000i32
    } else if v > 0x7fff_ffffi64 {
        0x7fff_ffffi32
    } else {
        v as i32
    }
}

/// A ring of points at a fixed radius around a center. Invariant: the
/// radius is at least one pixel; construction rejects anything smaller.
#[derive(Clone, Copy, Debug)]
pub struct Circle {
    pub center: Point,
    pub radius: i32,
    pub color: Color,
}

impl Circle {
    /// Builds a circle with a random color, rejecting degenerate geometry:
    /// the result is an error exactly when the radius is not positive.
    pub fn new(center: Point, radius: i32) -> (res: Result<Circle, GeometryError>)
        ensures
            radius >= 1 ==> res == Ok::<Circle, GeometryError>(
                Circle { center, radius, color: res.unwrap().color },
            ) && vivid(res.unwrap().color),
            radius < 1 ==> res == Err::<Circle, GeometryError>(GeometryError::NonPositiveRadius),
    {
        if radius < 1 {
            Err(GeometryError::NonPositiveRadius)
        } else {
            Ok(Circle { center, radius, color: random_color() })
        }
    }

    /// A circle with a center drawn uniformly from the canvas and a radius
    /// drawn uniformly from 20 to 349.
    pub fn random(width: i32, height: i32) -> (c: Circle)
        requires
            width > 0,
            height > 0,
        ensures
            0 <= c.center.x < width,
            0 <= c.center.y < height,
            20 <= c.radius < 350,
            vivid(c.color),
    {
        let center = Point::random(width, height);
        let radius = rand_in_range(20, 350);
        match Circle::new(center, radius) {
            Ok(c) => c,
            Err(_) => {
                proof {
                    assert(false);
                }
                Circle { center, radius, color: Color { r: 1, g: 1, b: 1 } }
            },
        }
    }

    /// The sample pixels of this circle, in angular order; empty for a
    /// degenerate radius, which construction rejects.
    pub fn points(&self) -> (pts: Vec<Point>)
        ensures
            path_view(pts@) == circle_path(
                self.center.x as int,
                self.center.y as int,
                self.radius as int,
            ),
    {
        let mut pts: Vec<Point> = Vec::new();
        if self.radius < 1 {
            proof {
                assert(path_view(pts@) =~= circle_path(
                    self.center.x as int,
                    self.center.y as int,
                    self.radius as int,
                ));
            }
            return pts;
        }
        let n = num_points(self.radius);
        let r64 = self.radius as u64;
        let cx = self.center.x as i64;
        let cy = self.center.y as i64;
        let ghost path = circle_path(
            self.center.x as int,
            self.center.y as int,
            self.radius as int,
        );

        let mut i: u64 = 0;
        while i < n
            invariant
                self.radius >= 1,
                n as int == spec_num_points(self.radius as int),
                6 <= n <= 0x8_0000_0000,
                r64 == self.radius as u64,
                cx == self.center.x as i64,
                cy == self.center.y as i64,
                path == circle_path(
                    self.center.x as int,
                    self.center.y as int,
                    self.radius as int,
                ),
                path.len() == n,
                i <= n,
                path_view(pts@) == path.take(i as int),
            decreases n - i,
        {
            let k: u64 = 4 * i;
            let q: u64 = k / n;
            let rem: u64 = k % n;
            let sv = quarter_scaled(r64, rem, n);
            let cv = quarter_scaled(r64, n - rem, n);
            let (ox, oy): (i64, i64) = if q == 0 {
                (cv as i64, sv as i64)
            } else if q == 1 {
                (-(sv as i64), cv as i64)
            } else if q == 2 {
                (-(cv as i64), -(sv as i64))
            } else {
                (sv as i64, -(cv as i64))
            };
            let x = clamp_to_i32(cx + ox);
            let y = clamp_to_i32(cy + oy);
            let ghost pre = pts@;
            pts.push(Point { x, y });
            proof {
                assert(path[i as int] == circle_sample(
                    self.center.x as int,
                    self.center.y as int,
                    self.radius as int,
                    i as int,
                    n as int,
                ));
                assert(pt(Point { x, y }) == path[i as int]);
                assert(path_view(pts@) =~= path_view(pre).push(pt(Point { x, y })));
                assert(path.take(i as int + 1) =~= path.take(i as int).push(path[i as int]));
                assert(path_view(pts@) =~= path.take(i as int + 1));
            }
            i = i + 1;
        }
        proof {
            assert(path.take(n as int) =~= path);
        }
        pts
    }
}

impl Drawable for Circle {
    /// Emits the circle's samples onto the sink in angular order:
    /// afterwards the sink holds its previous pixels overwritten by the
    /// circle's path in this circle's color.
    fn draw<D: Displayable>(&self, image: &mut D)
        ensures
            final(image).pixels() == paint(
                old(image).pixels(),
                old(image).width(),
                old(image).height(),
                circle_path(self.center.x as int, self.center.y as int, self.radius as int),
                self.color,
            ),
    {
        let pts = self.points();
        let ghost base = image.pixels();
        let ghost w = image.width();
        let ghost h = image.height();
        let ghost path = circle_path(
            self.center.x as int,
            self.center.y as int,
            self.radius as int,
        );

        proof {
            assert(path.skip(0) =~= path);
        }
        let mut i: usize = 0;
        while i < pts.len()
            invariant
                i <= pts.len(),
                path_view(pts@) == path,
                image.width() == w,
                image.height() == h,
                paint(base, w, h, path, self.color) == paint(
                    image.pixels(),
                    w,
                    h,
                    path.skip(i as int),
                    self.color,
                ),
            decreases pts.len() - i,
        {
            let p = pts[i];
            proof {
                assert(path.skip(i as int)[0] == path[i as int]);
                assert(path[i as int] == pt(pts@[i as int]));
                assert(path.skip(i as int).drop_first() =~= path.skip(i as int + 1));
            }
            image.display(p.x, p.y, self.color);
            i = i + 1;
        }
        proof {
            assert(path.skip(pts@.len() as int) =~= Seq::<(int, int)>::empty());
        }
    }
}

} // verus!
