//! Straight segments, rasterized with Bresenham's integer-only algorithm.

use vstd::prelude::*;
use crate::color::Color;
use crate::color::random_color;
use crate::color::vivid;
use crate::drawable::Drawable;
use crate::point::Point;
use crate::sink::Displayable;
use crate::sink::paint;

verus! {

pub open spec fn iabs(v: int) -> int {
    if v < 0 {
        -v
    } else {
        v
    }
}

pub open spec fn imin(a: int, b: int) -> int {
    if a <= b {
        a
    } else {
        b
    }
}

pub open spec fn imax(a: int, b: int) -> int {
    if a >= b {
        a
    } else {
        b
    }
}

/// The unit step that moves `from` toward `to`; by convention `-1` when the
/// two are equal, exactly as the rasterizer picks it.
pub open spec fn step_toward(from: int, to: int) -> int {
    if from < to {
        1
    } else {
        -1
    }
}

/// Two pixels differ by at most one in each coordinate.
pub open spec fn adjacent(p: (int, int), q: (int, int)) -> bool {
    iabs(q.0 - p.0) <= 1 && iabs(q.1 - p.1) <= 1
}

/// Every consecutive pair of the path is adjacent: no gaps.
pub open spec fn eight_connected(path: Seq<(int, int)>) -> bool {
    forall|i: int| 0 <= i < path.len() - 1 ==> adjacent(#[trigger] path[i], path[i + 1])
}

/// The axis-aligned bounding box spanned by two corners contains `q`.
pub open spec fn in_box(q: (int, int), p0: (int, int), p1: (int, int)) -> bool {
    imin(p0.0, p1.0) <= q.0 <= imax(p0.0, p1.0) && imin(p0.1, p1.1) <= q.1 <= imax(p0.1, p1.1)
}

/// The walker state of the Bresenham rasterizer: the current pixel, the
/// target pixel, the fixed absolute deltas and unit steps, and the error
/// accumulator.
pub struct BresState {
    pub x0: int,
    pub y0: int,
    pub x1: int,
    pub y1: int,
    pub dx: int,
    pub dy: int,
    pub sx: int,
    pub sy: int,
    pub err: int,
}

/// Pixels left to walk along the x axis.
pub open spec fn bres_a(s: BresState) -> int {
    s.sx * (s.x1 - s.x0)
}

/// Pixels left to walk along the y axis.
pub open spec fn bres_b(s: BresState) -> int {
    s.sy * (s.y1 - s.y0)
}

pub open spec fn bres_done(s: BresState) -> bool {
    s.x0 == s.x1 && s.y0 == s.y1
}

/// One Bresenham step. The two error tests are independent, not mutually
/// exclusive: a diagonal move fires both.
pub open spec fn bres_step(s: BresState) -> BresState {
    let e2 = 2 * s.err;
    let xm = e2 > -s.dy;
    let ym = e2 < s.dx;
    BresState {
        x0: if xm {
            s.x0 + s.sx
        } else {
            s.x0
        },
        y0: if ym {
            s.y0 + s.sy
        } else {
            s.y0
        },
        err: s.err + (if xm {
            -s.dy
        } else {
            0
        }) + (if ym {
            s.dx
        } else {
            0
        }),
        ..s
    }
}

/// The pixels the walker emits before it reaches the target, the current
/// pixel included; `fuel` only bounds the recursion and never runs out on a
/// well-formed state with `fuel >= bres_a(s) + bres_b(s)`.
pub open spec fn bres_path(s: BresState, fuel: nat) -> Seq<(int, int)>
    decreases fuel,
{
    if bres_done(s) || fuel == 0 {
        seq![(s.x0, s.y0)]
    } else {
        seq![(s.x0, s.y0)] + bres_path(bres_step(s), (fuel - 1) as nat)
    }
}

/// The walker state the rasterizer starts from for a segment.
pub open spec fn line_start(a: (int, int), b: (int, int)) -> BresState {
    BresState {
        x0: a.0,
        y0: a.1,
        x1: b.0,
        y1: b.1,
        dx: iabs(b.0 - a.0),
        dy: iabs(b.1 - a.1),
        sx: step_toward(a.0, b.0),
        sy: step_toward(a.1, b.1),
        err: iabs(b.0 - a.0) - iabs(b.1 - a.1),
    }
}

/// The exact pixel sequence the Bresenham rasterizer emits from `a` to `b`.
pub open spec fn line_path(a: (int, int), b: (int, int)) -> Seq<(int, int)> {
    bres_path(line_start(a, b), (iabs(b.0 - a.0) + iabs(b.1 - a.1)) as nat)
}

/// What holds of every reachable walker state: the remaining distances are
/// nonnegative and bounded by the deltas, the error accumulator tracks them
/// exactly, the walker stays within half a pixel of the ideal line, and the
/// minor axis never runs ahead of the major one.
pub open spec fn bres_inv(s: BresState) -> bool {
    let a = bres_a(s);
    let b = bres_b(s);
    &&& s.dx >= 0
    &&& s.dy >= 0
    &&& (s.sx == 1 || s.sx == -1)
    &&& (s.sy == 1 || s.sy == -1)
    &&& 0 <= a <= s.dx
    &&& 0 <= b <= s.dy
    &&& s.err == s.dx - s.dy + a * s.dy - b * s.dx
    &&& -imax(s.dx, s.dy) <= 2 * (a * s.dy - b * s.dx) <= imax(s.dx, s.dy)
    &&& (s.dx >= s.dy ==> a >= b)
    &&& (s.dy >= s.dx ==> b >= a)
}

/// An axis is done exactly when no distance remains on it.
proof fn lemma_done_iff(s: BresState)
    requires
        s.sx == 1 || s.sx == -1,
        s.sy == 1 || s.sy == -1,
    ensures
        bres_a(s) == 0 <==> s.x0 == s.x1,
        bres_b(s) == 0 <==> s.y0 == s.y1,
{
    if s.sx == 1 {
        assert(1 * (s.x1 - s.x0) == s.x1 - s.x0) by (nonlinear_arith);
    } else {
        assert((-1) * (s.x1 - s.x0) == -(s.x1 - s.x0)) by (nonlinear_arith);
    }
    if s.sy == 1 {
        assert(1 * (s.y1 - s.y0) == s.y1 - s.y0) by (nonlinear_arith);
    } else {
        assert((-1) * (s.y1 - s.y0) == -(s.y1 - s.y0)) by (nonlinear_arith);
    }
}

/// One step from a live state keeps the invariant, moves the walker by at
/// most one pixel per axis, stays inside the bounding box, always advances
/// the major axis, and never overshoots.
proof fn lemma_bres_step(s: BresState)
    requires
        bres_inv(s),
        !bres_done(s),
    ensures
        bres_inv(bres_step(s)),
        bres_a(bres_step(s)) + bres_b(bres_step(s)) < bres_a(s) + bres_b(s),
        s.dx >= s.dy ==> bres_a(bres_step(s)) == bres_a(s) - 1,
        s.dy >= s.dx ==> bres_b(bres_step(s)) == bres_b(s) - 1,
        adjacent((s.x0, s.y0), (bres_step(s).x0, bres_step(s).y0)),
        in_box((bres_step(s).x0, bres_step(s).y0), (s.x0, s.y0), (s.x1, s.y1)),
{
    let a = bres_a(s);
    let b = bres_b(s);
    let dx = s.dx;
    let dy = s.dy;
    let d2 = 2 * (a * dy - b * dx);
    let e2 = 2 * s.err;
    let t = bres_step(s);
    let xm = e2 > -dy;
    let ym = e2 < dx;

    assert(e2 == 2 * (dx - dy) + d2);

    // The current pixel differs from the target, so distance remains.
    lemma_done_iff(s);
    assert(a >= 1 || b >= 1);

    // The walker never overshoots: an axis only moves while distance remains.
    if a == 0 {
        assert(b >= 1);
        assert(a * dy == 0) by (nonlinear_arith)
            requires a == 0;
        assert(2 * dx - 2 * (b * dx) <= 0) by (nonlinear_arith)
            requires b >= 1 && dx >= 0;
        assert(e2 <= -2 * dy);
        assert(!xm);
    }
    if b == 0 {
        assert(a >= 1);
        assert(b * dx == 0) by (nonlinear_arith)
            requires b == 0;
        assert(2 * (a * dy) - 2 * dy >= 0) by (nonlinear_arith)
            requires a >= 1 && dy >= 0;
        assert(e2 >= 2 * dx - 2 * dy + 2 * dy);
        assert(!ym);
    }

    // The major axis always moves: the minor axis never steps alone.
    if dx >= dy && !xm {
        // e2 <= -dy forces d2 <= dy - 2*dx, so dx == dy; then a == b makes
        // the walker sit on the diagonal with d2 == 0, forcing dx == 0.
        assert(d2 <= dy - 2 * dx);
        assert(dx <= dy);
        assert(dx == dy);
        assert(a == b);
        assert(a * dy - b * dx == a * (dy - dx)) by (nonlinear_arith)
            requires a == b;
        assert(a * (dy - dx) == 0) by (nonlinear_arith)
            requires dy == dx;
        assert(d2 == 0);
        assert(0 <= dy - 2 * dx);
        assert(dx == 0 && dy == 0);
        assert(false);
    }
    if dy >= dx && !ym {
        assert(d2 >= 2 * dy - dx);
        assert(dy <= dx);
        assert(dy == dx);
        assert(a == b);
        assert(a * dy - b * dx == a * (dy - dx)) by (nonlinear_arith)
            requires a == b;
        assert(a * (dy - dx) == 0) by (nonlinear_arith)
            requires dy == dx;
        assert(d2 == 0);
        assert(0 >= 2 * dy - dx);
        assert(dx == 0 && dy == 0);
        assert(false);
    }
    assert(xm || ym);

    // How one step changes the remaining distances.
    assert(s.sx * s.sx == 1) by (nonlinear_arith)
        requires s.sx == 1 || s.sx == -1;
    assert(s.sy * s.sy == 1) by (nonlinear_arith)
        requires s.sy == 1 || s.sy == -1;
    if xm {
        assert(bres_a(t) == s.sx * (s.x1 - s.x0 - s.sx));
        assert(s.sx * (s.x1 - s.x0 - s.sx) == s.sx * (s.x1 - s.x0) - s.sx * s.sx)
            by (nonlinear_arith);
        assert(bres_a(t) == a - 1);
        assert(a >= 1);
    } else {
        assert(bres_a(t) == a);
    }
    if ym {
        assert(bres_b(t) == s.sy * (s.y1 - s.y0 - s.sy));
        assert(s.sy * (s.y1 - s.y0 - s.sy) == s.sy * (s.y1 - s.y0) - s.sy * s.sy)
            by (nonlinear_arith);
        assert(bres_b(t) == b - 1);
        assert(b >= 1);
    } else {
        assert(bres_b(t) == b);
    }

    let an = bres_a(t);
    let bn = bres_b(t);

    // The error accumulator keeps tracking the remaining distances exactly.
    assert((a - 1) * dy == a * dy - dy) by (nonlinear_arith);
    assert((b - 1) * dx == b * dx - dx) by (nonlinear_arith);
    assert(t.err == dx - dy + an * dy - bn * dx);

    let d2n = 2 * (an * dy - bn * dx);
    assert(d2n == d2 - (if xm { 2 * dy } else { 0 }) + (if ym { 2 * dx } else { 0 }));

    // The walker stays within half a pixel of the ideal line.
    if dx >= dy {
        if xm && ym {
            assert(d2n < dx);
            assert(d2n > -dy);
            assert(d2n >= -imax(dx, dy));
        } else if xm {
            // ym failed: e2 >= dx gives d2 >= 2*dy - dx.
            assert(d2 >= 2 * dy - dx);
            assert(d2n >= -dx);
            assert(d2n <= d2);
        } else {
            assert(false);
        }
    } else {
        if xm && ym {
            assert(d2n < dx);
            assert(d2n <= imax(dx, dy));
            assert(d2n > -dy);
        } else if ym {
            // xm failed: e2 <= -dy gives d2 <= dy - 2*dx.
            assert(d2 <= dy - 2 * dx);
            assert(d2n <= dy);
            assert(d2n >= d2);
        } else {
            assert(false);
        }
    }
    assert(-imax(dx, dy) <= d2n <= imax(dx, dy));

    // The minor axis never runs ahead of the major one.
    if dx >= dy && xm && !ym && a == b {
        // With the walker on the diagonal, skipping the y move needs
        // e2 >= dx, impossible while distance remains.
        assert(a >= 1);
        assert(a * dy - b * dx == a * (dy - dx)) by (nonlinear_arith)
            requires a == b;
        assert(a >= 1 && dx >= dy ==> 2 * (a * (dy - dx)) <= 2 * (dy - dx)) by (nonlinear_arith);
        assert(e2 <= 2 * (dx - dy) + 2 * (dy - dx));
        assert(!ym ==> e2 >= dx);
        assert(dx <= 0);
        assert(dx == 0 && dy == 0);
        assert(false);
    }
    if dy >= dx && ym && !xm && a == b {
        assert(b >= 1);
        assert(a * dy - b * dx == a * (dy - dx)) by (nonlinear_arith)
            requires a == b;
        assert(a >= 1 && dy >= dx ==> 2 * (a * (dy - dx)) >= 2 * (dy - dx)) by (nonlinear_arith);
        assert(e2 >= 2 * (dx - dy) + 2 * (dy - dx));
        assert(!xm ==> e2 <= -dy);
        assert(dy <= 0);
        assert(dx == 0 && dy == 0);
        assert(false);
    }
    assert(dx >= dy ==> an >= bn);
    assert(dy >= dx ==> bn >= an);

    assert(bres_inv(t));
    assert(an + bn < a + b);
}

/// Any two fuel values large enough to reach the target give the same path.
proof fn lemma_bres_path_fuel(s: BresState, f1: nat, f2: nat)
    requires
        bres_inv(s),
        f1 >= bres_a(s) + bres_b(s),
        f2 >= bres_a(s) + bres_b(s),
    ensures
        bres_path(s, f1) == bres_path(s, f2),
    decreases f1,
{
    if !bres_done(s) {
        lemma_done_iff(s);
        assert(bres_a(s) + bres_b(s) >= 1);
        lemma_bres_step(s);
        lemma_bres_path_fuel(bres_step(s), (f1 - 1) as nat, (f2 - 1) as nat);
    }
}

/// What the emitted path looks like from any reachable state: it starts at
/// the current pixel, ends at the target, holds exactly one pixel more than
/// the major-axis distance, is 8-connected, and stays inside the bounding
/// box of the two.
proof fn lemma_bres_path_props(s: BresState, fuel: nat)
    requires
        bres_inv(s),
        fuel >= bres_a(s) + bres_b(s),
    ensures
        bres_path(s, fuel).len() == imax(bres_a(s), bres_b(s)) + 1,
        bres_path(s, fuel)[0] == (s.x0, s.y0),
        bres_path(s, fuel).last() == (s.x1, s.y1),
        eight_connected(bres_path(s, fuel)),
        forall|i: int|
            0 <= i < bres_path(s, fuel).len() ==> in_box(
                bres_path(s, fuel)[i],
                (s.x0, s.y0),
                (s.x1, s.y1),
            ),
    decreases fuel,
{
    let p = bres_path(s, fuel);
    lemma_done_iff(s);
    if bres_done(s) {
        assert(bres_a(s) == 0 && bres_b(s) == 0);
        assert(p =~= seq![(s.x0, s.y0)]);
        assert(forall|i: int| 0 <= i < p.len() ==> in_box(p[i], (s.x0, s.y0), (s.x1, s.y1)));
    } else {
        assert(bres_a(s) + bres_b(s) >= 1);
        lemma_bres_step(s);
        let t = bres_step(s);
        lemma_bres_path_props(t, (fuel - 1) as nat);
        let q = bres_path(t, (fuel - 1) as nat);
        assert(p == seq![(s.x0, s.y0)] + q);
        assert(p.len() == 1 + q.len());
        assert(imax(bres_a(t), bres_b(t)) == imax(bres_a(s), bres_b(s)) - 1);
        assert(p[0] == (s.x0, s.y0));
        assert(p.last() == q.last());
        assert forall|i: int| 0 <= i < p.len() - 1 implies adjacent(#[trigger] p[i], p[i + 1]) by {
            if i == 0 {
                assert(p[1] == q[0]);
                assert(q[0] == (t.x0, t.y0));
            } else {
                assert(p[i] == q[i - 1]);
                assert(p[i + 1] == q[i]);
                assert(adjacent(q[i - 1], q[i]));
            }
        }
        assert forall|i: int| 0 <= i < p.len() implies in_box(p[i], (s.x0, s.y0), (s.x1, s.y1)) by {
            if i == 0 {
                assert(in_box(p[0], (s.x0, s.y0), (s.x1, s.y1)));
            } else {
                assert(p[i] == q[i - 1]);
                assert(in_box(q[i - 1], (t.x0, t.y0), (t.x1, t.y1)));
                assert(in_box((t.x0, t.y0), (s.x0, s.y0), (s.x1, s.y1)));
            }
        }
    }
}

/// The starting state of a segment satisfies the walker invariant, with the
/// full deltas still to cover.
proof fn lemma_line_start_inv(a: (int, int), b: (int, int))
    ensures
        bres_inv(line_start(a, b)),
        bres_a(line_start(a, b)) == iabs(b.0 - a.0),
        bres_b(line_start(a, b)) == iabs(b.1 - a.1),
{
    let s = line_start(a, b);
    assert(bres_a(s) == iabs(b.0 - a.0));
    assert(bres_b(s) == iabs(b.1 - a.1));
    let av = bres_a(s);
    let bv = bres_b(s);
    assert(av * s.dy - bv * s.dx == 0) by (nonlinear_arith)
        requires av == s.dx && bv == s.dy;
    assert(s.err == s.dx - s.dy + av * s.dy - bv * s.dx);
}

/// The Bresenham path between any two integer points starts at the first,
/// ends at the second, is 8-connected, never leaves their bounding box, and
/// holds exactly `max(|dx|, |dy|) + 1` pixels; in particular a degenerate
/// segment is a single pixel.
pub proof fn lemma_line_path_properties(a: (int, int), b: (int, int))
    ensures
        line_path(a, b).len() == imax(iabs(b.0 - a.0), iabs(b.1 - a.1)) + 1,
        line_path(a, b)[0] == a,
        line_path(a, b).last() == b,
        eight_connected(line_path(a, b)),
        forall|i: int| 0 <= i < line_path(a, b).len() ==> in_box(line_path(a, b)[i], a, b),
        a == b ==> line_path(a, b) == seq![a],
{
    lemma_line_start_inv(a, b);
    let s = line_start(a, b);
    lemma_bres_path_props(s, (iabs(b.0 - a.0) + iabs(b.1 - a.1)) as nat);
    if a == b {
        assert(line_path(a, b) =~= seq![a]);
    }
}

/// The view of an executable point as a mathematical pixel.
pub open spec fn pt(p: Point) -> (int, int) {
    (p.x as int, p.y as int)
}

/// The view of an emitted pixel list.
pub open spec fn path_view(s: Seq<Point>) -> Seq<(int, int)> {
    s.map_values(|p: Point| pt(p))
}

/// A straight segment between two endpoints, with the color its pixels
/// carry; the color is randomized at construction until overwritten.
#[derive(Clone, Copy, Debug)]
pub struct Line {
    pub start: Point,
    pub end: Point,
    pub color: Color,
}

impl Line {
    pub fn new(start: Point, end: Point) -> (l: Line)
        ensures
            l.start == start,
            l.end == end,
            vivid(l.color),
    {
        Line { start, end, color: random_color() }
    }

    /// A segment between two points drawn uniformly from the canvas.
    pub fn random(width: i32, height: i32) -> (l: Line)
        requires
            width > 0,
            height > 0,
        ensures
            0 <= l.start.x < width,
            0 <= l.start.y < height,
            0 <= l.end.x < width,
            0 <= l.end.y < height,
            vivid(l.color),
    {
        Line::new(Point::random(width, height), Point::random(width, height))
    }

    /// The pixels of this segment, in emission order: exactly the Bresenham
    /// path from `start` to `end`.
    pub fn points(&self) -> (pts: Vec<Point>)
        ensures
            path_view(pts@) == line_path(pt(self.start), pt(self.end)),
    {
        let mut x0: i32 = self.start.x;
        let mut y0: i32 = self.start.y;
        let x1: i32 = self.end.x;
        let y1: i32 = self.end.y;

        let dxw: i64 = x1 as i64 - x0 as i64;
        let dyw: i64 = y1 as i64 - y0 as i64;
        let dx: i64 = if dxw < 0 {
            -dxw
        } else {
            dxw
        };
        let dy: i64 = if dyw < 0 {
            -dyw
        } else {
            dyw
        };
        let sx: i32 = if x0 < x1 {
            1
        } else {
            -1
        };
        let sy: i32 = if y0 < y1 {
            1
        } else {
            -1
        };
        let mut err: i64 = dx - dy;

        let ghost start_pt = pt(self.start);
        let ghost end_pt = pt(self.end);
        let ghost mut s = line_start(start_pt, end_pt);
        proof {
            lemma_line_start_inv(start_pt, end_pt);
        }

        let mut pts: Vec<Point> = Vec::new();
        loop
            invariant_except_break
                s.x0 == x0 as int,
                s.y0 == y0 as int,
                s.x1 == x1 as int,
                s.y1 == y1 as int,
                s.dx == dx as int,
                s.dy == dy as int,
                s.sx == sx as int,
                s.sy == sy as int,
                s.err == err as int,
                0 <= dx as int <= 0x1_0000_0000,
                0 <= dy as int <= 0x1_0000_0000,
                bres_inv(s),
                line_path(start_pt, end_pt) == path_view(pts@) + bres_path(
                    s,
                    (bres_a(s) + bres_b(s)) as nat,
                ),
            ensures
                path_view(pts@) == line_path(start_pt, end_pt),
            decreases bres_a(s) + bres_b(s),
        {
            pts.push(Point { x: x0, y: y0 });
            proof {
                assert(path_view(pts@) =~= path_view(pts@.drop_last()).push((x0 as int, y0 as int)));
            }

            if x0 == x1 && y0 == y1 {
                proof {
                    assert(bres_path(s, (bres_a(s) + bres_b(s)) as nat) =~= seq![
                        (x0 as int, y0 as int),
                    ]);
                    assert(path_view(pts@) =~= path_view(pts@.drop_last()) + seq![
                        (x0 as int, y0 as int),
                    ]);
                }
                break;
            }

            proof {
                lemma_bres_step(s);
                let fuel = (bres_a(s) + bres_b(s)) as nat;
                assert(bres_path(s, fuel) == seq![(x0 as int, y0 as int)] + bres_path(
                    bres_step(s),
                    (fuel - 1) as nat,
                ));
                lemma_bres_path_fuel(
                    bres_step(s),
                    (fuel - 1) as nat,
                    (bres_a(bres_step(s)) + bres_b(bres_step(s))) as nat,
                );
                assert(path_view(pts@) + bres_path(
                    bres_step(s),
                    (bres_a(bres_step(s)) + bres_b(bres_step(s))) as nat,
                ) =~= (path_view(pts@.drop_last()) + seq![(x0 as int, y0 as int)]) + bres_path(
                    bres_step(s),
                    (bres_a(bres_step(s)) + bres_b(bres_step(s))) as nat,
                ));
                assert((path_view(pts@.drop_last()) + seq![(x0 as int, y0 as int)]) + bres_path(
                    bres_step(s),
                    (bres_a(bres_step(s)) + bres_b(bres_step(s))) as nat,
                ) =~= path_view(pts@.drop_last()) + (seq![(x0 as int, y0 as int)] + bres_path(
                    bres_step(s),
                    (bres_a(bres_step(s)) + bres_b(bres_step(s))) as nat,
                )));
            }

            let e2: i64 = 2 * err;
            if e2 > -dy {
                err = err - dy;
                x0 = x0 + sx;
            }
            if e2 < dx {
                err = err + dx;
                y0 = y0 + sy;
            }
            proof {
                s = bres_step(s);
            }
        }
        pts
    }
}

impl Drawable for Line {
    /// Rasterizes the segment onto the sink: afterwards the sink holds
    /// exactly its previous pixels overwritten, in order, by the Bresenham
    /// path in this line's color.
    fn draw<D: Displayable>(&self, image: &mut D)
        ensures
            final(image).pixels() == paint(
                old(image).pixels(),
                old(image).width(),
                old(image).height(),
                line_path(pt(self.start), pt(self.end)),
                self.color,
            ),
    {
        let pts = self.points();
        let ghost base = image.pixels();
        let ghost w = image.width();
        let ghost h = image.height();
        let ghost path = line_path(pt(self.start), pt(self.end));

        proof {
            assert(path.skip(0) =~= path);
        }
        let mut i: usize = 0;
        while i < pts.len()
            invariant
                i <= pts.len(),
                path_view(pts@) == path,
                image.width() == w,
                image.height() == h,
                paint(base, w, h, path, self.color) == paint(
                    image.pixels(),
                    w,
                    h,
                    path.skip(i as int),
                    self.color,
                ),
            decreases pts.len() - i,
        {
            let p = pts[i];
            proof {
                assert(path.skip(i as int)[0] == path[i as int]);
                assert(path[i as int] == pt(pts@[i as int]));
                assert(path.skip(i as int).drop_first() =~= path.skip(i as int + 1));
            }
            image.display(p.x, p.y, self.color);
            i = i + 1;
        }
        proof {
            assert(path.skip(pts@.len() as int) =~= Seq::<(int, int)>::empty());
        }
    }
}

} // verus!
