//! Disk-versus-segment sliding collision solver.
//!
//! A moving body is a disk of radius [`PLAYER_RADIUS`]; obstacles are
//! static line segments in scaled world coordinates.  The solver applies a
//! desired displacement optimistically and then relaxes the deepest
//! penetration first, a bounded number of times, pushing the disk out along
//! the contact normal.  Components of motion parallel to a contacted
//! segment survive, so the disk slides.

use vstd::prelude::*;
use crate::fixed::{SCALE, COORD_MAX, lemma_mul_bound, lemma_div_bounds, spec_isqrt, lemma_isqrt_props, lemma_isqrt_unique, isqrt64};

verus! {

/// Collision radius of the player's disk (0.3 of a cell).
pub const PLAYER_RADIUS: i64 = 1920;

/// A static obstacle segment from `(ax, ay)` to `(bx, by)`, in scaled world
/// coordinates.  A zero-length segment is a point obstacle.
#[derive(Clone, Copy, Debug, PartialEq, Eq, Structural)]
pub struct Segment {
    pub ax: i64,
    pub ay: i64,
    pub bx: i64,
    pub by: i64,
}

/// The segment's endpoints lie inside the representable world.
pub open spec fn seg_wf(s: Segment) -> bool {
    &&& -COORD_MAX <= s.ax <= COORD_MAX
    &&& -COORD_MAX <= s.ay <= COORD_MAX
    &&& -COORD_MAX <= s.bx <= COORD_MAX
    &&& -COORD_MAX <= s.by <= COORD_MAX
}

/// The shape of an obstacle a disk can collide with; only straight
/// segments are resolved, circular obstacles report no collision.
#[derive(Clone, Copy, Debug)]
pub enum Segm {
    Line(i64, i64, i64, i64),
    Circle(i64, i64, i64),
}

/// A resolved contact: how deep the disk sits inside the obstacle, and
/// the outward push direction scaled by `SCALE` (an approximate unit
/// vector in fixed point).
#[derive(Clone, Copy, Debug)]
pub struct Collision {
    pub depth: i64,
    pub normal_x: i64,
    pub normal_y: i64,
}

/// Positions the solver works on may drift a little outside the world
/// while it resolves contacts.
pub const POS_PAD: i64 = 6656000;

pub open spec fn pos_wf(v: int) -> bool {
    -POS_PAD <= v <= POS_PAD
}

/// Euclidean quotient, rounding toward negative infinity for a positive
/// divisor.
fn div_euclid_i128(a: i128, m: i128) -> (r: i128)
    requires
        0 < m,
        -0x40000000000000000000000000000000 <= a <= 0x40000000000000000000000000000000,
    ensures
        r == (a as int) / (m as int),
{
    match a.checked_div_euclid(m) {
        Some(r) => r,
        None => {
            proof {
                let ai = a as int;
                let mi = m as int;
                vstd::arithmetic::div_mod::lemma_fundamental_div_mod(ai, mi);
                vstd::arithmetic::div_mod::lemma_mod_division_less_than_divisor(ai, mi);
                let qd = ai / mi;
                let rr = ai % mi;
                assert(-0x80000000000000000000000000000000
                    <= qd < 0x80000000000000000000000000000000) by (nonlinear_arith)
                    requires
                        ai == mi * qd + rr,
                        0 <= rr < mi,
                        1 <= mi,
                        -0x40000000000000000000000000000000 <= ai
                            <= 0x40000000000000000000000000000000,
                ;
                assert(false);
            }
            0
        },
    }
}

/// The point on a segment closest to `(px, py)`: the projection of the
/// point onto the segment's line, clamped to the segment's extent; a
/// zero-length segment resolves to its single point.
pub open spec fn spec_closest_point(px: int, py: int, s: Segment) -> (int, int) {
    let dx = s.bx - s.ax;
    let dy = s.by - s.ay;
    let q = (px - s.ax) * dx + (py - s.ay) * dy;
    let n = dx * dx + dy * dy;
    if q <= 0 {
        (s.ax as int, s.ay as int)
    } else if (px - s.bx) * dx + (py - s.by) * dy >= 0 {
        (s.bx as int, s.by as int)
    } else {
        (s.ax + (dx * q) / n, s.ay + (dy * q) / n)
    }
}

/// A floor quotient `(d * q) / n` with `0 <= q <= n` lies between `0` and `d`.
proof fn lemma_proj_bounds(d: int, q: int, n: int)
    requires
        0 < n,
        0 <= q <= n,
    ensures
        d >= 0 ==> 0 <= (d * q) / n <= d,
        d < 0 ==> d <= (d * q) / n <= 0,
{
    let v = d * q;
    vstd::arithmetic::div_mod::lemma_fundamental_div_mod(v, n);
    vstd::arithmetic::div_mod::lemma_mod_bound(v, n);
    let f = v / n;
    if d >= 0 {
        assert(0 <= v <= d * n) by (nonlinear_arith)
            requires
                0 <= d,
                0 <= q <= n,
                v == d * q,
        ;
        assert(0 <= f <= d) by (nonlinear_arith)
            requires
                n * f <= v <= d * n,
                0 <= v,
                v < n * f + n,
                0 < n,
        ;
    } else {
        assert(d * n <= v <= 0) by (nonlinear_arith)
            requires
                d < 0,
                0 <= q <= n,
                v == d * q,
        ;
        assert(d <= f <= 0) by (nonlinear_arith)
            requires
                n * f <= v,
                v < n * f + n,
                d * n <= v <= 0,
                0 < n,
        ;
    }
}

/// Returns the point from the segment which is closest to `(px, py)`.
pub fn closest_point_on_seg(px: i64, py: i64, s: &Segment) -> (r: (i64, i64))
    requires
        pos_wf(px as int),
        pos_wf(py as int),
        seg_wf(*s),
    ensures
        (r.0 as int, r.1 as int) == spec_closest_point(px as int, py as int, *s),
        imin2(s.ax as int, s.bx as int) <= r.0 <= imax2(s.ax as int, s.bx as int),
        imin2(s.ay as int, s.by as int) <= r.1 <= imax2(s.ay as int, s.by as int),
{
    let dx: i64 = s.bx - s.ax;
    let dy: i64 = s.by - s.ay;
    proof {
        lemma_mul_bound((px - s.ax) as int, dx as int, 13312000int, 13107200int);
        lemma_mul_bound((py - s.ay) as int, dy as int, 13312000int, 13107200int);
        lemma_mul_bound((px - s.bx) as int, dx as int, 13312000int, 13107200int);
        lemma_mul_bound((py - s.by) as int, dy as int, 13312000int, 13107200int);
        lemma_mul_bound(dx as int, dx as int, 13107200int, 13107200int);
        lemma_mul_bound(dy as int, dy as int, 13107200int, 13107200int);
    }
    let q: i128 = ((px - s.ax) as i128) * (dx as i128) + ((py - s.ay) as i128) * (dy as i128);
    let n: i128 = (dx as i128) * (dx as i128) + (dy as i128) * (dy as i128);
    if q <= 0 {
        return (s.ax, s.ay);
    }
    let qe: i128 = ((px - s.bx) as i128) * (dx as i128) + ((py - s.by) as i128) * (dy as i128);
    if qe >= 0 {
        return (s.bx, s.by);
    }
    proof {
        assert(q <= n) by (nonlinear_arith)
            requires
                q as int == ((px - s.ax) as int) * (dx as int) + ((py - s.ay) as int) * (dy as int),
                qe as int == ((px - s.bx) as int) * (dx as int) + ((py - s.by) as int) * (dy as int),
                n as int == (dx as int) * (dx as int) + (dy as int) * (dy as int),
                (s.bx - s.ax) as int == dx as int,
                (s.by - s.ay) as int == dy as int,
                qe < 0,
        ;
        lemma_mul_bound(dx as int, q as int, 13107200int, 0x2000000000000int);
        lemma_mul_bound(dy as int, q as int, 13107200int, 0x2000000000000int);
        lemma_proj_bounds(dx as int, q as int, n as int);
        lemma_proj_bounds(dy as int, q as int, n as int);
    }
    let ox: i128 = div_euclid_i128((dx as i128) * q, n);
    let oy: i128 = div_euclid_i128((dy as i128) * q, n);
    ((s.ax as i128 + ox) as i64, (s.ay as i128 + oy) as i64)
}

pub open spec fn imin2(a: int, b: int) -> int {
    if a <= b { a } else { b }
}

pub open spec fn imax2(a: int, b: int) -> int {
    if a <= b { b } else { a }
}

/// The dot product of two vectors.
pub fn point_2_cmp_mul(ax: i64, ay: i64, bx: i64, by: i64) -> (r: i64)
    requires
        -POS_PAD <= ax <= POS_PAD,
        -POS_PAD <= ay <= POS_PAD,
        -POS_PAD <= bx <= POS_PAD,
        -POS_PAD <= by <= POS_PAD,
    ensures
        r as int == (ax as int) * (bx as int) + (ay as int) * (by as int),
{
    proof {
        lemma_mul_bound(ax as int, bx as int, 6656000int, 6656000int);
        lemma_mul_bound(ay as int, by as int, 6656000int, 6656000int);
    }
    ax * bx + ay * by
}

/// The contact between the disk at `(px, py)` and one segment: `None`
/// when the closest point of the segment is farther away than the radius;
/// otherwise the penetration depth `radius - dist` and the outward normal
/// `delta * SCALE / dist`, where `delta` points from the closest point to
/// the disk's center and `dist` is the integer square root of its squared
/// length.  A disk centered exactly on the segment is pushed along the
/// positive x axis.
pub open spec fn spec_collide_disk(px: int, py: int, s: Segment, radius: int) -> Option<(int, int, int)> {
    let c = spec_closest_point(px, py, s);
    let ddx = px - c.0;
    let ddy = py - c.1;
    let dist2 = ddx * ddx + ddy * ddy;
    if dist2 > radius * radius {
        None
    } else {
        let dist = spec_isqrt(dist2);
        let depth = radius - dist;
        if dist == 0 {
            Some((depth, SCALE as int, 0))
        } else {
            Some((depth, (ddx * SCALE) / dist, (ddy * SCALE) / dist))
        }
    }
}

/// Resolve the disk against one obstacle; only straight segments collide.
pub fn collide_disk_with_segment(px: i64, py: i64, s: &Segment, s2: &Segm, radius: i64) -> (r: Option<Collision>)
    requires
        pos_wf(px as int),
        pos_wf(py as int),
        seg_wf(*s),
        1 <= radius <= SCALE,
    ensures
        s2 is Circle ==> r is None,
        s2 is Line ==> ({
            let m = spec_collide_disk(px as int, py as int, *s, radius as int);
            &&& r is Some <==> m is Some
            &&& r is Some ==> {
                let c = r->0;
                let mm = m->0;
                &&& c.depth == mm.0
                &&& c.normal_x == mm.1
                &&& c.normal_y == mm.2
                &&& 0 <= c.depth <= radius
                &&& -2 * SCALE <= c.normal_x <= 2 * SCALE
                &&& -2 * SCALE <= c.normal_y <= 2 * SCALE
            }
        }),
{
    match s2 {
        Segm::Circle(_, _, _) => None,
        Segm::Line(_, _, _, _) => {
            let (cx, cy) = closest_point_on_seg(px, py, s);
            let ddx: i64 = px - cx;
            let ddy: i64 = py - cy;
            proof {
                lemma_mul_bound(ddx as int, ddx as int, 13312000int, 13312000int);
                lemma_mul_bound(ddy as int, ddy as int, 13312000int, 13312000int);
                lemma_mul_bound(radius as int, radius as int, 6400int, 6400int);
                assert((ddx as int) * (ddx as int) >= 0 && (ddy as int) * (ddy as int) >= 0)
                    by (nonlinear_arith);
            }
            let dist2: i64 = ddx * ddx + ddy * ddy;
            if dist2 > radius * radius {
                return None;
            }
            let dist: i64 = isqrt64(dist2 as u64) as i64;
            proof {
                lemma_isqrt_unique(dist2 as int, dist as int);
                assert(dist <= radius) by (nonlinear_arith)
                    requires
                        0 <= dist,
                        (dist as int) * (dist as int) <= dist2 as int,
                        dist2 as int <= (radius as int) * (radius as int),
                        0 <= radius,
                ;
            }
            let depth: i64 = radius - dist;
            if dist == 0 {
                Some(Collision { depth, normal_x: SCALE, normal_y: 0 })
            } else {
                proof {
                    assert(-(dist as int) - 1 <= ddx as int <= (dist as int) + 1
                        && -(dist as int) - 1 <= ddy as int <= (dist as int) + 1) by (nonlinear_arith)
                        requires
                            (ddx as int) * (ddx as int) + (ddy as int) * (ddy as int) == dist2 as int,
                            (dist2 as int) < ((dist as int) + 1) * ((dist as int) + 1),
                            0 <= dist,
                    ;
                    lemma_mul_bound(ddx as int, SCALE as int, 13312000int, 6400int);
                    lemma_mul_bound(ddy as int, SCALE as int, 13312000int, 6400int);
                    assert(-((2 * SCALE) * (dist as int)) <= (ddx as int) * (SCALE as int)
                        && (ddx as int) * (SCALE as int) <= (2 * SCALE) * (dist as int)
                        && -((2 * SCALE) * (dist as int)) <= (ddy as int) * (SCALE as int)
                        && (ddy as int) * (SCALE as int) <= (2 * SCALE) * (dist as int)) by (nonlinear_arith)
                        requires
                            -(dist as int) - 1 <= ddx as int <= (dist as int) + 1,
                            -(dist as int) - 1 <= ddy as int <= (dist as int) + 1,
                            1 <= dist,
                            SCALE == 6400,
                    ;
                    lemma_div_bounds((ddx as int) * (SCALE as int), dist as int, 2 * SCALE);
                    lemma_div_bounds((ddy as int) * (SCALE as int), dist as int, 2 * SCALE);
                }
                let nx: i64 = div_euclid_i128((ddx as i128) * (SCALE as i128), dist as i128) as i64;
                let ny: i64 = div_euclid_i128((ddy as i128) * (SCALE as i128), dist as i128) as i64;
                Some(Collision { depth, normal_x: nx, normal_y: ny })
            }
        },
    }
}

/// The worse of an accumulated deepest contact and a new one: a strictly
/// deeper contact replaces, so the earliest deepest contact wins ties.
pub open spec fn spec_deeper(prev: Option<(int, int, int)>, c: Option<(int, int, int)>) -> Option<(int, int, int)> {
    match c {
        None => prev,
        Some(cc) => match prev {
            None => c,
            Some(p) => if cc.0 > p.0 { c } else { prev },
        },
    }
}

/// The deepest contact of the disk against a set of segments.
pub open spec fn spec_deepest(segs: Seq<Segment>, px: int, py: int, radius: int) -> Option<(int, int, int)>
    decreases segs.len(),
{
    if segs.len() == 0 {
        None
    } else {
        spec_deeper(
            spec_deepest(segs.drop_last(), px, py, radius),
            spec_collide_disk(px, py, segs.last(), radius),
        )
    }
}

/// Find the deepest contact of the disk against all segments, if any.
pub fn collide_with_segments(px: i64, py: i64, segments: &Vec<Segment>, radius: i64) -> (r: Option<Collision>)
    requires
        pos_wf(px as int),
        pos_wf(py as int),
        forall|i: int| 0 <= i < segments@.len() ==> seg_wf(#[trigger] segments@[i]),
        1 <= radius <= SCALE,
    ensures
        ({
            let m = spec_deepest(segments@, px as int, py as int, radius as int);
            &&& r is Some <==> m is Some
            &&& r is Some ==> {
                let c = r->0;
                let mm = m->0;
                &&& c.depth == mm.0
                &&& c.normal_x == mm.1
                &&& c.normal_y == mm.2
                &&& 0 <= c.depth <= radius
                &&& -2 * SCALE <= c.normal_x <= 2 * SCALE
                &&& -2 * SCALE <= c.normal_y <= 2 * SCALE
            }
        }),
{
    let ghost gsegs = segments@;
    let mut deepest: Option<Collision> = None;
    let n = segments.len();
    let mut k: usize = 0;
    while k < n
        invariant
            pos_wf(px as int),
            pos_wf(py as int),
            1 <= radius <= SCALE,
            n == gsegs.len(),
            segments@ == gsegs,
            0 <= k <= n,
            forall|i: int| 0 <= i < gsegs.len() ==> seg_wf(#[trigger] gsegs[i]),
            ({
                let m = spec_deepest(gsegs.take(k as int), px as int, py as int, radius as int);
                &&& deepest is Some <==> m is Some
                &&& deepest is Some ==> {
                    let c = deepest->0;
                    let mm = m->0;
                    &&& c.depth == mm.0
                    &&& c.normal_x == mm.1
                    &&& c.normal_y == mm.2
                    &&& 0 <= c.depth <= radius
                    &&& -2 * SCALE <= c.normal_x <= 2 * SCALE
                    &&& -2 * SCALE <= c.normal_y <= 2 * SCALE
                }
            }),
        decreases n - k,
    {
        let c = collide_disk_with_segment(px, py, &segments[k], &Segm::Line(0, 0, SCALE, SCALE), radius);
        match c {
            None => {},
            Some(cc) => {
                match deepest {
                    None => { deepest = Some(cc); },
                    Some(d) => {
                        if cc.depth > d.depth {
                            deepest = Some(cc);
                        }
                    },
                }
            },
        }
        proof {
            assert(gsegs.take(k + 1 as int).drop_last() =~= gsegs.take(k as int));
            assert(gsegs.take(k + 1 as int).last() == gsegs[k as int]);
        }
        k = k + 1;
    }
    proof {
        assert(gsegs.take(n as int) =~= gsegs);
    }
    deepest
}

/// The position after up to `k` relaxation rounds: each round finds the
/// deepest contact and pushes the disk out along its normal; the rounds
/// stop early once nothing penetrates.
pub open spec fn spec_slide_steps(px: int, py: int, segs: Seq<Segment>, radius: int, k: nat) -> (int, int)
    decreases k,
{
    if k == 0 {
        (px, py)
    } else {
        match spec_deepest(segs, px, py, radius) {
            None => (px, py),
            Some(c) => if c.0 == 0 {
                (px, py)
            } else {
                spec_slide_steps(
                    px + (c.1 * c.0) / (SCALE as int),
                    py + (c.2 * c.0) / (SCALE as int),
                    segs,
                    radius,
                    (k - 1) as nat,
                )
            },
        }
    }
}

/// Number of relaxation rounds one slide attempts.
pub const SLIDE_ROUNDS: usize = 7;

/// Apply the desired displacement optimistically, then resolve the
/// deepest penetration first, up to [`SLIDE_ROUNDS`] times.  Motion
/// parallel to a contacted segment survives; the perpendicular part is
/// cancelled by the push-out.
pub fn slide_mov(px: &mut i64, py: &mut i64, dx: i64, dy: i64, segments: &Vec<Segment>, radius: i64)
    requires
        -COORD_MAX <= *old(px) <= COORD_MAX,
        -COORD_MAX <= *old(py) <= COORD_MAX,
        -SCALE <= dx <= SCALE,
        -SCALE <= dy <= SCALE,
        forall|i: int| 0 <= i < segments@.len() ==> seg_wf(#[trigger] segments@[i]),
        1 <= radius <= SCALE,
    ensures
        (*final(px) as int, *final(py) as int) == spec_slide_steps(
            *old(px) + dx,
            *old(py) + dy,
            segments@,
            radius as int,
            SLIDE_ROUNDS as nat,
        ),
        pos_wf(*final(px) as int),
        pos_wf(*final(py) as int),
{
    *px = *px + dx;
    *py = *py + dy;
    let ghost tgt = spec_slide_steps(*px as int, *py as int, segments@, radius as int, SLIDE_ROUNDS as nat);
    let mut rounds: usize = SLIDE_ROUNDS;
    loop
        invariant
            1 <= radius <= SCALE,
            forall|i: int| 0 <= i < segments@.len() ==> seg_wf(#[trigger] segments@[i]),
            rounds <= SLIDE_ROUNDS,
            -COORD_MAX - SCALE - 12800 * ((SLIDE_ROUNDS - rounds) as int) <= *px as int,
            *px as int <= COORD_MAX + SCALE + 12800 * ((SLIDE_ROUNDS - rounds) as int),
            -COORD_MAX - SCALE - 12800 * ((SLIDE_ROUNDS - rounds) as int) <= *py as int,
            *py as int <= COORD_MAX + SCALE + 12800 * ((SLIDE_ROUNDS - rounds) as int),
            tgt == spec_slide_steps(*px as int, *py as int, segments@, radius as int, rounds as nat),
        ensures
            (*px as int, *py as int) == tgt,
        decreases rounds,
    {
        if rounds == 0 {
            proof {
                assert(spec_slide_steps(*px as int, *py as int, segments@, radius as int, 0)
                    == (*px as int, *py as int));
            }
            break;
        }
        let c = collide_with_segments(*px, *py, segments, radius);
        match c {
            None => {
                proof {
                    assert(spec_slide_steps(*px as int, *py as int, segments@, radius as int, rounds as nat)
                        == (*px as int, *py as int));
                }
                break;
            },
            Some(collision) => {
                if collision.depth == 0 {
                    proof {
                        assert(spec_slide_steps(*px as int, *py as int, segments@, radius as int, rounds as nat)
                            == (*px as int, *py as int));
                    }
                    break;
                }
                proof {
                    lemma_mul_bound(collision.normal_x as int, collision.depth as int, 12800int, 6400int);
                    lemma_mul_bound(collision.normal_y as int, collision.depth as int, 12800int, 6400int);
                    assert(-(2 * SCALE) * SCALE <= (collision.normal_x as int) * (collision.depth as int)
                        <= (2 * SCALE) * SCALE) by (nonlinear_arith)
                        requires
                            -2 * SCALE <= collision.normal_x as int <= 2 * SCALE,
                            0 <= collision.depth as int <= SCALE as int,
                            SCALE == 6400,
                    ;
                    lemma_div_bounds((collision.normal_x as int) * (collision.depth as int), SCALE as int, 2 * SCALE);
                    assert(-(2 * SCALE) * SCALE <= (collision.normal_y as int) * (collision.depth as int)
                        <= (2 * SCALE) * SCALE) by (nonlinear_arith)
                        requires
                            -2 * SCALE <= collision.normal_y as int <= 2 * SCALE,
                            0 <= collision.depth as int <= SCALE as int,
                            SCALE == 6400,
                    ;
                    lemma_div_bounds((collision.normal_y as int) * (collision.depth as int), SCALE as int, 2 * SCALE);
                }
                let pushx: i64 = div_euclid_i128(
                    (collision.normal_x as i128) * (collision.depth as i128),
                    SCALE as i128,
                ) as i64;
                let pushy: i64 = div_euclid_i128(
                    (collision.normal_y as i128) * (collision.depth as i128),
                    SCALE as i128,
                ) as i64;
                let ghost oldpx = *px as int;
                let ghost oldpy = *py as int;
                *px = *px + pushx;
                *py = *py + pushy;
                proof {
                    let m = spec_deepest(segments@, oldpx, oldpy, radius as int);
                    assert(spec_slide_steps(oldpx, oldpy, segments@, radius as int, rounds as nat)
                        == spec_slide_steps(
                            oldpx + ((m->0).1 * (m->0).0) / (SCALE as int),
                            oldpy + ((m->0).2 * (m->0).0) / (SCALE as int),
                            segments@,
                            radius as int,
                            (rounds - 1) as nat,
                        ));
                }
            },
        }
        rounds = rounds - 1;
    }
}


/// On a vertical segment, the closest point to a disk level with the
/// segment's interior is the horizontal projection.
proof fn lemma_closest_vertical(px: int, py: int, s: Segment)
    requires
        s.ax == s.bx,
        s.ay < py < s.by,
    ensures
        spec_closest_point(px, py, *&s) == (s.ax as int, py),
{
    let dy = s.by - s.ay;
    let q = (py - s.ay) * dy;
    let n = dy * dy;
    assert(q > 0 && (py - s.by) * dy < 0 && n > 0) by (nonlinear_arith)
        requires
            dy == s.by - s.ay,
            q == (py - s.ay) * dy,
            n == dy * dy,
            s.ay < py < s.by,
    ;
    assert((0 * q) / n == 0) by {
        assert(0 * q == 0) by (nonlinear_arith);
        vstd::arithmetic::div_mod::lemma_fundamental_div_mod_converse(0, n, 0, 0);
    }
    assert((dy * q) / n == py - s.ay) by {
        assert(dy * q == (py - s.ay) * n) by (nonlinear_arith)
            requires
                q == (py - s.ay) * dy,
                n == dy * dy,
        ;
        vstd::arithmetic::div_mod::lemma_fundamental_div_mod_converse(dy * q, n, py - s.ay, 0);
    }
}

/// Dividing an exact multiple returns the factor.
proof fn lemma_div_exact(a: int, m: int)
    requires
        0 < m,
    ensures
        (m * a) / m == a,
{
    assert(m * a == a * m) by (nonlinear_arith);
    vstd::arithmetic::div_mod::lemma_fundamental_div_mod_converse(m * a, m, a, 0);
}

/// Sliding against a single vertical wall never disturbs the disk's
/// tangential coordinate: every push is horizontal, so the component of
/// motion parallel to the wall survives in full.
pub proof fn lemma_vertical_wall_slide(px: int, py: int, s: Segment, radius: int, k: nat)
    requires
        s.ax == s.bx,
        s.ay < py < s.by,
        1 <= radius,
    ensures
        spec_slide_steps(px, py, seq![s], radius, k).1 == py,
    decreases k,
{
    if k > 0 {
        let segs = seq![s];
        assert(segs.drop_last() =~= Seq::<Segment>::empty());
        assert(spec_deepest(segs.drop_last(), px, py, radius) is None);
        assert(segs.last() == s);
        assert(spec_deepest(segs, px, py, radius) == spec_collide_disk(px, py, s, radius));
        lemma_closest_vertical(px, py, s);
        match spec_collide_disk(px, py, s, radius) {
            None => {},
            Some(c) => {
                let ddx = px - s.ax;
                let dist2 = ddx * ddx + 0 * 0;
                assert(ddx * ddx >= 0) by (nonlinear_arith);
                if c.0 != 0 {
                    let dist = spec_isqrt(dist2);
                    crate::fixed::lemma_isqrt_props(dist2);
                    assert(c.2 == 0) by {
                        if dist != 0 {
                            assert((0 * (SCALE as int)) / dist == 0) by {
                                assert(0 * (SCALE as int) == 0) by (nonlinear_arith);
                                assert(dist > 0);
                                vstd::arithmetic::div_mod::lemma_fundamental_div_mod_converse(0, dist, 0, 0);
                            }
                        }
                    }
                    assert((c.2 * c.0) / (SCALE as int) == 0) by {
                        assert(c.2 * c.0 == 0) by (nonlinear_arith)
                            requires
                                c.2 == 0,
                        ;
                        vstd::arithmetic::div_mod::lemma_fundamental_div_mod_converse(0, SCALE as int, 0, 0);
                    }
                    lemma_vertical_wall_slide(px + (c.1 * c.0) / (SCALE as int), py, s, radius, (k - 1) as nat);
                }
            },
        }
    }
}

/// A disk that has moved head-on into a vertical wall is pushed straight
/// back out until its center stands exactly `radius` from the wall, and
/// stays there: the first round resolves the contact completely and every
/// later round finds zero residual penetration.
pub proof fn lemma_head_on_stop(px: int, py: int, s: Segment, radius: int, k: nat)
    requires
        s.ax == s.bx,
        s.ay < py < s.by,
        1 <= radius,
        s.ax - radius < px < s.ax,
        k >= 1,
    ensures
        spec_slide_steps(px, py, seq![s], radius, k) == (s.ax - radius, py),
    decreases k,
{
    let segs = seq![s];
    let sl = SCALE as int;
    assert(segs.drop_last() =~= Seq::<Segment>::empty());
    assert(spec_deepest(segs.drop_last(), px, py, radius) is None);
    assert(segs.last() == s);
    assert(spec_deepest(segs, px, py, radius) == spec_collide_disk(px, py, s, radius));
    lemma_closest_vertical(px, py, s);
    let ddx = px - s.ax;
    let dist = s.ax - px;
    let dist2 = ddx * ddx + 0 * 0;
    assert(dist2 == dist * dist && 0 < dist < radius) by (nonlinear_arith)
        requires
            ddx == px - s.ax,
            dist == s.ax - px,
            dist2 == ddx * ddx + 0 * 0,
            s.ax - radius < px < s.ax,
            1 <= radius,
    ;
    assert(dist2 <= radius * radius && dist2 < (dist + 1) * (dist + 1)) by (nonlinear_arith)
        requires
            dist2 == dist * dist,
            0 < dist < radius,
    ;
    crate::fixed::lemma_isqrt_unique(dist2, dist);
    let c = spec_collide_disk(px, py, s, radius)->0;
    assert(c.0 == radius - dist);
    assert(c.1 == -sl && c.2 == 0) by {
        assert(ddx * sl == (-sl) * dist) by (nonlinear_arith)
            requires
                ddx == -dist,
        ;
        vstd::arithmetic::div_mod::lemma_fundamental_div_mod_converse(ddx * sl, dist, -sl, 0);
        assert(0 * sl == 0) by (nonlinear_arith);
        vstd::arithmetic::div_mod::lemma_fundamental_div_mod_converse(0, dist, 0, 0);
    }
    assert((c.1 * c.0) / sl == -(radius - dist)) by {
        assert(c.1 * c.0 == sl * (-(radius - dist))) by (nonlinear_arith)
            requires
                c.1 == -sl,
                c.0 == radius - dist,
        ;
        lemma_div_exact(-(radius - dist), sl);
    }
    assert((c.2 * c.0) / sl == 0) by {
        assert(c.2 * c.0 == 0) by (nonlinear_arith)
            requires
                c.2 == 0,
        ;
        vstd::arithmetic::div_mod::lemma_fundamental_div_mod_converse(0, sl, 0, 0);
    }
    let px2 = px + (c.1 * c.0) / sl;
    assert(px2 == s.ax - radius);
    lemma_rest_at_contact(px2, py, s, radius, (k - 1) as nat);
}

/// A disk whose center stands exactly `radius` from a vertical wall has
/// zero residual penetration: further relaxation rounds leave it alone.
pub proof fn lemma_rest_at_contact(px: int, py: int, s: Segment, radius: int, k: nat)
    requires
        s.ax == s.bx,
        s.ay < py < s.by,
        1 <= radius,
        px == s.ax - radius,
    ensures
        spec_slide_steps(px, py, seq![s], radius, k) == (px, py),
{
    if k > 0 {
        let segs = seq![s];
        assert(segs.drop_last() =~= Seq::<Segment>::empty());
        assert(spec_deepest(segs.drop_last(), px, py, radius) is None);
        assert(segs.last() == s);
        assert(spec_deepest(segs, px, py, radius) == spec_collide_disk(px, py, s, radius));
        lemma_closest_vertical(px, py, s);
        let ddx = px - s.ax;
        let dist2 = ddx * ddx + 0 * 0;
        assert(dist2 == radius * radius && dist2 < (radius + 1) * (radius + 1)) by (nonlinear_arith)
            requires
                ddx == -radius,
                dist2 == ddx * ddx + 0 * 0,
                1 <= radius,
        ;
        crate::fixed::lemma_isqrt_unique(dist2, radius);
        assert((spec_collide_disk(px, py, s, radius)->0).0 == 0);
    }
}


} // verus!
