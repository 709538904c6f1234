//! Exact sub-cell shape intersection.
//!
//! Non-trivial tile kinds (doors, thin and thick walls, pillars,
//! diagonals) decompose into a small fixed set of line segments in
//! cell-local coordinates, where the cell spans `0..SCALE` on both axes.
//! Each candidate segment is tested against the ray by one of three
//! solvers — horizontal segment, vertical segment, or general two-point —
//! all computing the intersection exactly over integers.  A candidate
//! counts only if the intersection lies within the segment's extent
//! clamped to the cell and ahead of the ray origin; among the candidates
//! of one shape the nearest wins.
//!
//! Hits carry the ray parameter `t` (the hit point is `origin + t * dir`),
//! the texture coordinate along the struck segment, and a brightness tag
//! that distinguishes edge orientations.

use vstd::prelude::*;
use crate::fixed::{Frac, frac_wf, frac_lt, lemma_mul_bound, lemma_mul_pos, SCALE, COORD_MAX, DIR_MAX};
use crate::map::{Cell, CellKind};

verus! {

/// A hit on one candidate segment: ray parameter, texture coordinate and
/// brightness tag.
#[derive(Clone, Copy, Debug)]
pub struct SegHit {
    pub t: Frac,
    pub along: Frac,
    pub brightness: u8,
}

/// Well-formed hit: exact fractions, a hit point ahead of the ray, and a
/// parameter small enough that callers can scale it further.
pub open spec fn seg_hit_wf(h: SegHit) -> bool {
    &&& frac_wf(h.t)
    &&& frac_wf(h.along)
    &&& 0 <= h.t.num <= 0x8000000000
    &&& 0 < h.t.den <= 0x400000000
}

/// The ray's cell-local origin and direction are within representable
/// bounds.
pub open spec fn ray_wf(px: i64, py: i64, dx: i64, dy: i64) -> bool {
    &&& -COORD_MAX <= px <= COORD_MAX
    &&& -COORD_MAX <= py <= COORD_MAX
    &&& -DIR_MAX <= dx <= DIR_MAX
    &&& -DIR_MAX <= dy <= DIR_MAX
}

/// A segment coordinate stays within one cell of the unit cell (door
/// panels slide up to a full cell outside).
pub open spec fn seg_v_wf(v: int) -> bool {
    -2 * SCALE <= v <= 2 * SCALE
}

pub open spec fn imin(a: int, b: int) -> int {
    if a <= b { a } else { b }
}

pub open spec fn imax(a: int, b: int) -> int {
    if a <= b { b } else { a }
}

pub open spec fn iclamp(v: int, lo: int, hi: int) -> int {
    if v < lo { lo } else if v > hi { hi } else { v }
}

/// Intersection of the ray with the horizontal segment at height `c`
/// spanning `b0..b1`: it exists when the ray is not horizontal, meets the
/// line `y == c` at a non-negative parameter `t = (c - py) / dy`, and the
/// crossing abscissa `px + t * dx` lies within the segment's extent
/// clamped to the cell.  The texture coordinate measures from the smaller
/// end; a zero-length segment yields coordinate zero.
pub open spec fn spec_line_x(px: int, py: int, dx: int, dy: int, c: int, b0: int, b1: int) -> Option<SegHit> {
    if c < 0 || c > SCALE {
        None
    } else if dy == 0 {
        None
    } else {
        let td = if dy > 0 { dy } else { -dy };
        let tn = if dy > 0 { c - py } else { py - c };
        if tn < 0 {
            None
        } else {
            let xn = px * td + tn * dx;
            let lo = iclamp(imin(b0, b1), 0, SCALE as int);
            let hi = iclamp(imax(b0, b1), 0, SCALE as int);
            if xn < lo * td || xn > hi * td {
                None
            } else {
                let w = imax(b0, b1) - imin(b0, b1);
                let along = if w == 0 {
                    Frac { num: 0, den: 1 }
                } else {
                    Frac { num: (xn - imin(b0, b1) * td) as i128, den: (w * td) as i128 }
                };
                Some(SegHit {
                    t: Frac { num: tn as i128, den: td as i128 },
                    along,
                    brightness: 255,
                })
            }
        }
    }
}

/// Intersection with the vertical segment at abscissa `c` spanning
/// `b0..b1`; the mirror image of [`spec_line_x`].
pub open spec fn spec_line_y(px: int, py: int, dx: int, dy: int, c: int, b0: int, b1: int) -> Option<SegHit> {
    if c < 0 || c > SCALE {
        None
    } else if dx == 0 {
        None
    } else {
        let td = if dx > 0 { dx } else { -dx };
        let tn = if dx > 0 { c - px } else { px - c };
        if tn < 0 {
            None
        } else {
            let yn = py * td + tn * dy;
            let lo = iclamp(imin(b0, b1), 0, SCALE as int);
            let hi = iclamp(imax(b0, b1), 0, SCALE as int);
            if yn < lo * td || yn > hi * td {
                None
            } else {
                let w = imax(b0, b1) - imin(b0, b1);
                let along = if w == 0 {
                    Frac { num: 0, den: 1 }
                } else {
                    Frac { num: (yn - imin(b0, b1) * td) as i128, den: (w * td) as i128 }
                };
                Some(SegHit {
                    t: Frac { num: tn as i128, den: td as i128 },
                    along,
                    brightness: 192,
                })
            }
        }
    }
}

/// Intersection with the general segment from `(x0, y0)` to `(x1, y1)`.
/// Axis-aligned segments delegate to the axis solvers; otherwise the two
/// line equations are solved exactly: with determinant
/// `d = dx * (y1 - y0) - dy * (x1 - x0)`, the ray parameter is
/// `t = ((x0 - px) * (y1 - y0) - (y0 - py) * (x1 - x0)) / d` and the
/// position along the segment is `u = ((x0 - px) * dy - (y0 - py) * dx) / d`,
/// which doubles as the texture coordinate.  Parallel lines (`d == 0`)
/// never intersect; the crossing must lie within both extents clamped to
/// the cell and ahead of the ray.
pub open spec fn spec_line(px: int, py: int, dx: int, dy: int, x0: int, y0: int, x1: int, y1: int) -> Option<SegHit> {
    if x0 == x1 {
        spec_line_y(px, py, dx, dy, x0, y0, y1)
    } else if y0 == y1 {
        spec_line_x(px, py, dx, dy, y0, x0, x1)
    } else {
        let d = dx * (y1 - y0) - dy * (x1 - x0);
        if d == 0 {
            None
        } else {
            let td = if d > 0 { d } else { -d };
            let s = if d > 0 { 1int } else { -1int };
            let tn = s * ((x0 - px) * (y1 - y0) - (y0 - py) * (x1 - x0));
            let un = s * ((x0 - px) * dy - (y0 - py) * dx);
            if tn < 0 {
                None
            } else {
                let xn = px * td + tn * dx;
                let yn = py * td + tn * dy;
                let lox = iclamp(imin(x0, x1), 0, SCALE as int);
                let hix = iclamp(imax(x0, x1), 0, SCALE as int);
                let loy = iclamp(imin(y0, y1), 0, SCALE as int);
                let hiy = iclamp(imax(y0, y1), 0, SCALE as int);
                if xn < lox * td || xn > hix * td || yn < loy * td || yn > hiy * td {
                    None
                } else {
                    Some(SegHit {
                        t: Frac { num: tn as i128, den: td as i128 },
                        along: Frac { num: un as i128, den: td as i128 },
                        brightness: 255,
                    })
                }
            }
        }
    }
}

/// Exact intersection with a horizontal segment.
pub fn line_x(px: i64, py: i64, dx: i64, dy: i64, c: i64, b0: i64, b1: i64) -> (r: Option<SegHit>)
    requires
        ray_wf(px, py, dx, dy),
        seg_v_wf(c as int),
        seg_v_wf(b0 as int),
        seg_v_wf(b1 as int),
    ensures
        r == spec_line_x(px as int, py as int, dx as int, dy as int, c as int, b0 as int, b1 as int),
        r is Some ==> seg_hit_wf(r->0),
        r is Some ==> -0x40000000000 <= r->0.along.num <= 0x40000000000 && r->0.along.den <= 0x280000000,
{
    if c < 0 || c > SCALE {
        return None;
    }
    if dy == 0 {
        return None;
    }
    let (tn, td): (i64, i64) = if dy > 0 { (c - py, dy) } else { (py - c, -dy) };
    if tn < 0 {
        return None;
    }
    proof {
        lemma_mul_bound(px as int, td as int, COORD_MAX as int, DIR_MAX as int);
        lemma_mul_bound(tn as int, dx as int, COORD_MAX as int + 2 * SCALE, DIR_MAX as int);
    }
    let xn: i128 = (px as i128) * (td as i128) + (tn as i128) * (dx as i128);
    let bmin: i64 = if b0 <= b1 { b0 } else { b1 };
    let bmax: i64 = if b0 <= b1 { b1 } else { b0 };
    let lo: i64 = if bmin < 0 { 0 } else if bmin > SCALE { SCALE } else { bmin };
    let hi: i64 = if bmax < 0 { 0 } else if bmax > SCALE { SCALE } else { bmax };
    proof {
        lemma_mul_bound(lo as int, td as int, 2 * SCALE, DIR_MAX as int);
        lemma_mul_bound(hi as int, td as int, 2 * SCALE, DIR_MAX as int);
        lemma_mul_bound(bmin as int, td as int, 2 * SCALE, DIR_MAX as int);
    }
    if xn < (lo as i128) * (td as i128) || xn > (hi as i128) * (td as i128) {
        return None;
    }
    let w: i64 = bmax - bmin;
    let along = if w == 0 {
        Frac { num: 0, den: 1 }
    } else {
        proof {
            lemma_mul_bound(w as int, td as int, 4 * SCALE, DIR_MAX as int);
            lemma_mul_pos(w as int, td as int);
        }
        Frac { num: xn - (bmin as i128) * (td as i128), den: (w as i128) * (td as i128) }
    };
    Some(SegHit { t: Frac { num: tn as i128, den: td as i128 }, along, brightness: 255 })
}

/// Exact intersection with a vertical segment.
pub fn line_y(px: i64, py: i64, dx: i64, dy: i64, c: i64, b0: i64, b1: i64) -> (r: Option<SegHit>)
    requires
        ray_wf(px, py, dx, dy),
        seg_v_wf(c as int),
        seg_v_wf(b0 as int),
        seg_v_wf(b1 as int),
    ensures
        r == spec_line_y(px as int, py as int, dx as int, dy as int, c as int, b0 as int, b1 as int),
        r is Some ==> seg_hit_wf(r->0),
        r is Some ==> -0x40000000000 <= r->0.along.num <= 0x40000000000 && r->0.along.den <= 0x280000000,
{
    if c < 0 || c > SCALE {
        return None;
    }
    if dx == 0 {
        return None;
    }
    let (tn, td): (i64, i64) = if dx > 0 { (c - px, dx) } else { (px - c, -dx) };
    if tn < 0 {
        return None;
    }
    proof {
        lemma_mul_bound(py as int, td as int, COORD_MAX as int, DIR_MAX as int);
        lemma_mul_bound(tn as int, dy as int, COORD_MAX as int + 2 * SCALE, DIR_MAX as int);
    }
    let yn: i128 = (py as i128) * (td as i128) + (tn as i128) * (dy as i128);
    let bmin: i64 = if b0 <= b1 { b0 } else { b1 };
    let bmax: i64 = if b0 <= b1 { b1 } else { b0 };
    let lo: i64 = if bmin < 0 { 0 } else if bmin > SCALE { SCALE } else { bmin };
    let hi: i64 = if bmax < 0 { 0 } else if bmax > SCALE { SCALE } else { bmax };
    proof {
        lemma_mul_bound(lo as int, td as int, 2 * SCALE, DIR_MAX as int);
        lemma_mul_bound(hi as int, td as int, 2 * SCALE, DIR_MAX as int);
        lemma_mul_bound(bmin as int, td as int, 2 * SCALE, DIR_MAX as int);
    }
    if yn < (lo as i128) * (td as i128) || yn > (hi as i128) * (td as i128) {
        return None;
    }
    let w: i64 = bmax - bmin;
    let along = if w == 0 {
        Frac { num: 0, den: 1 }
    } else {
        proof {
            lemma_mul_bound(w as int, td as int, 4 * SCALE, DIR_MAX as int);
            lemma_mul_pos(w as int, td as int);
        }
        Frac { num: yn - (bmin as i128) * (td as i128), den: (w as i128) * (td as i128) }
    };
    Some(SegHit { t: Frac { num: tn as i128, den: td as i128 }, along, brightness: 192 })
}

/// Exact intersection with a general two-point segment.
pub fn line(px: i64, py: i64, dx: i64, dy: i64, x0: i64, y0: i64, x1: i64, y1: i64) -> (r: Option<SegHit>)
    requires
        ray_wf(px, py, dx, dy),
        seg_v_wf(x0 as int),
        seg_v_wf(y0 as int),
        seg_v_wf(x1 as int),
        seg_v_wf(y1 as int),
    ensures
        r == spec_line(px as int, py as int, dx as int, dy as int, x0 as int, y0 as int, x1 as int, y1 as int),
        r is Some ==> seg_hit_wf(r->0),
{
    if x0 == x1 {
        return line_y(px, py, dx, dy, x0, y0, y1);
    }
    if y0 == y1 {
        return line_x(px, py, dx, dy, y0, x0, x1);
    }
    proof {
        lemma_mul_bound(dx as int, (y1 - y0) as int, DIR_MAX as int, 4 * SCALE);
        lemma_mul_bound(dy as int, (x1 - x0) as int, DIR_MAX as int, 4 * SCALE);
    }
    let d: i64 = {
        let p: i128 = (dx as i128) * ((y1 - y0) as i128) - (dy as i128) * ((x1 - x0) as i128);
        p as i64
    };
    if d == 0 {
        return None;
    }
    let td: i64 = if d > 0 { d } else { -d };
    proof {
        lemma_mul_bound((x0 - px) as int, (y1 - y0) as int, COORD_MAX as int + 2 * SCALE, 4 * SCALE);
        lemma_mul_bound((y0 - py) as int, (x1 - x0) as int, COORD_MAX as int + 2 * SCALE, 4 * SCALE);
        lemma_mul_bound((x0 - px) as int, dy as int, COORD_MAX as int + 2 * SCALE, DIR_MAX as int);
        lemma_mul_bound((y0 - py) as int, dx as int, COORD_MAX as int + 2 * SCALE, DIR_MAX as int);
    }
    let traw: i128 = ((x0 - px) as i128) * ((y1 - y0) as i128) - ((y0 - py) as i128) * ((x1 - x0) as i128);
    let uraw: i128 = ((x0 - px) as i128) * (dy as i128) - ((y0 - py) as i128) * (dx as i128);
    let (tn, un): (i128, i128) = if d > 0 { (traw, uraw) } else { (-traw, -uraw) };
    if tn < 0 {
        return None;
    }
    proof {
        lemma_mul_bound(px as int, td as int, COORD_MAX as int, 0x1000000000int);
        lemma_mul_bound(py as int, td as int, COORD_MAX as int, 0x1000000000int);
        lemma_mul_bound(tn as int, dx as int, 0x10000000000int, DIR_MAX as int);
        lemma_mul_bound(tn as int, dy as int, 0x10000000000int, DIR_MAX as int);
    }
    let xn: i128 = (px as i128) * (td as i128) + tn * (dx as i128);
    let yn: i128 = (py as i128) * (td as i128) + tn * (dy as i128);
    let mnx: i64 = if x0 <= x1 { x0 } else { x1 };
    let mxx: i64 = if x0 <= x1 { x1 } else { x0 };
    let mny: i64 = if y0 <= y1 { y0 } else { y1 };
    let mxy: i64 = if y0 <= y1 { y1 } else { y0 };
    let lox: i64 = if mnx < 0 { 0 } else if mnx > SCALE { SCALE } else { mnx };
    let hix: i64 = if mxx < 0 { 0 } else if mxx > SCALE { SCALE } else { mxx };
    let loy: i64 = if mny < 0 { 0 } else if mny > SCALE { SCALE } else { mny };
    let hiy: i64 = if mxy < 0 { 0 } else if mxy > SCALE { SCALE } else { mxy };
    proof {
        lemma_mul_bound(lox as int, td as int, 2 * SCALE, 0x1000000000int);
        lemma_mul_bound(hix as int, td as int, 2 * SCALE, 0x1000000000int);
        lemma_mul_bound(loy as int, td as int, 2 * SCALE, 0x1000000000int);
        lemma_mul_bound(hiy as int, td as int, 2 * SCALE, 0x1000000000int);
    }
    if xn < (lox as i128) * (td as i128) || xn > (hix as i128) * (td as i128)
        || yn < (loy as i128) * (td as i128) || yn > (hiy as i128) * (td as i128) {
        return None;
    }
    Some(SegHit {
        t: Frac { num: tn, den: td as i128 },
        along: Frac { num: un, den: td as i128 },
        brightness: 255,
    })
}

/// One candidate piece of a shape: a segment in cell-local coordinates.
#[derive(Clone, Copy, Debug)]
pub enum ShapePart {
    Line(i64, i64, i64, i64),
    LineX(i64, i64, i64),
    LineY(i64, i64, i64),
}

/// A candidate segment together with how the texture maps onto it: the
/// raw coordinate along the segment is scaled by `tex_stretch / SCALE`
/// and shifted by `tex_offset / SCALE`.
#[derive(Clone, Copy, Debug)]
pub struct ShapeSeg {
    pub part: ShapePart,
    pub tex_stretch: i64,
    pub tex_offset: i64,
}

pub open spec fn shape_seg_wf(seg: ShapeSeg) -> bool {
    &&& match seg.part {
        ShapePart::Line(x0, y0, x1, y1) => seg_v_wf(x0 as int) && seg_v_wf(y0 as int)
            && seg_v_wf(x1 as int) && seg_v_wf(y1 as int),
        ShapePart::LineX(c, b0, b1) => seg_v_wf(c as int) && seg_v_wf(b0 as int) && seg_v_wf(b1 as int),
        ShapePart::LineY(c, b0, b1) => seg_v_wf(c as int) && seg_v_wf(b0 as int) && seg_v_wf(b1 as int),
    }
    &&& 0 <= seg.tex_stretch <= SCALE
    &&& 0 <= seg.tex_offset <= SCALE
}

/// An axis-aligned candidate: vertical when `axis` is set, else horizontal.
pub open spec fn spec_axis_seg(axis: bool, stretch: i64, offset: i64, c: i64, b0: i64, b1: i64) -> ShapeSeg {
    ShapeSeg {
        part: if axis { ShapePart::LineY(c, b0, b1) } else { ShapePart::LineX(c, b0, b1) },
        tex_stretch: stretch,
        tex_offset: offset,
    }
}

/// The candidate segments of a cell's shape, in the order they are tried.
/// Offsets are in cell-local scaled units; `amount` is how much of the
/// cell a door blocks, from `0` (open) to `SCALE` (shut).  Kinds without
/// sub-cell geometry decompose into no segments at all; in particular a
/// round pillar has no implemented intersection and is pass-through.
pub open spec fn spec_shape_segments(cell: Cell, amount: i64) -> Seq<ShapeSeg> {
    let axis = cell.flags & 1 == 0;
    match cell.kind {
        CellKind::Door => {
            let style = (cell.flags & 0b1100u8) >> 2;
            if style == 0 {
                let flip = (cell.flags & 0b10u8) >> 1;
                let s0 = if flip == 0 { amount } else { (SCALE - amount) as i64 };
                let s1 = if flip == 0 { (amount - SCALE) as i64 } else { (2 * SCALE - amount) as i64 };
                seq![
                    spec_axis_seg(axis, SCALE, 0, 3840, s0, s1),
                    spec_axis_seg(axis, SCALE, 0, 2560, s0, s1),
                    spec_axis_seg(!axis, 1280, 2560, s0, 2560, 3840),
                ]
            } else if style == 1 {
                let h = (amount / 2) as i64;
                seq![
                    spec_axis_seg(axis, 3200, 0, 3520, h, (h - 3200) as i64),
                    spec_axis_seg(axis, 3200, 0, 2880, h, (h - 3200) as i64),
                    spec_axis_seg(axis, 3200, 3200, 3520, (SCALE - h) as i64, (9600 - h) as i64),
                    spec_axis_seg(axis, 3200, 3200, 2880, (SCALE - h) as i64, (9600 - h) as i64),
                    spec_axis_seg(!axis, 200, 3100, h, 2880, 3520),
                    spec_axis_seg(!axis, 200, 3100, (SCALE - h) as i64, 2880, 3520),
                ]
            } else {
                seq![]
            }
        },
        CellKind::ThinWall => seq![spec_axis_seg(axis, SCALE, 0, 3200, 0, SCALE)],
        CellKind::ThickWall => seq![
            spec_axis_seg(axis, SCALE, 0, 3840, 0, SCALE),
            spec_axis_seg(axis, SCALE, 0, 2560, 0, SCALE),
            spec_axis_seg(!axis, 1280, 2560, 0, 2560, 3840),
            spec_axis_seg(!axis, 1280, 2560, SCALE, 2560, 3840),
        ],
        CellKind::SquarePillar => seq![
            spec_axis_seg(true, 3200, 1600, 1600, 1600, 4800),
            spec_axis_seg(true, 3200, 1600, 4800, 1600, 4800),
            spec_axis_seg(false, 3200, 1600, 1600, 1600, 4800),
            spec_axis_seg(false, 3200, 1600, 4800, 1600, 4800),
        ],
        CellKind::Diagonal => if axis {
            seq![ShapeSeg { part: ShapePart::Line(0, 0, SCALE, SCALE), tex_stretch: SCALE, tex_offset: 0 }]
        } else {
            seq![ShapeSeg { part: ShapePart::Line(SCALE, 0, 0, SCALE), tex_stretch: SCALE, tex_offset: 0 }]
        },
        _ => seq![],
    }
}

/// Texture coordinate after a segment's stretch and offset are applied.
pub open spec fn spec_tex(along: Frac, stretch: int, offset: int) -> Frac {
    Frac {
        num: (along.num * stretch + offset * along.den) as i128,
        den: (along.den * SCALE) as i128,
    }
}

/// The hit of one candidate segment: axis candidates get their texture
/// transform applied; general segments report the raw coordinate.
pub open spec fn spec_seg_hit(seg: ShapeSeg, px: int, py: int, dx: int, dy: int) -> Option<SegHit> {
    match seg.part {
        ShapePart::LineX(c, b0, b1) => match spec_line_x(px, py, dx, dy, c as int, b0 as int, b1 as int) {
            None => None,
            Some(h) => Some(SegHit {
                t: h.t,
                along: spec_tex(h.along, seg.tex_stretch as int, seg.tex_offset as int),
                brightness: h.brightness,
            }),
        },
        ShapePart::LineY(c, b0, b1) => match spec_line_y(px, py, dx, dy, c as int, b0 as int, b1 as int) {
            None => None,
            Some(h) => Some(SegHit {
                t: h.t,
                along: spec_tex(h.along, seg.tex_stretch as int, seg.tex_offset as int),
                brightness: h.brightness,
            }),
        },
        ShapePart::Line(x0, y0, x1, y1) =>
            spec_line(px, py, dx, dy, x0 as int, y0 as int, x1 as int, y1 as int),
    }
}

/// Keep the nearer of an accumulated best hit and a new candidate; the
/// earlier candidate wins ties.
pub open spec fn spec_better(prev: Option<SegHit>, h: Option<SegHit>) -> Option<SegHit> {
    match h {
        None => prev,
        Some(hh) => match prev {
            None => h,
            Some(p) => if frac_lt(hh.t, p.t) { h } else { prev },
        },
    }
}

/// The nearest valid hit among a shape's candidate segments.
pub open spec fn spec_best_hit(segs: Seq<ShapeSeg>, px: int, py: int, dx: int, dy: int) -> Option<SegHit>
    decreases segs.len(),
{
    if segs.len() == 0 {
        None
    } else {
        spec_better(
            spec_best_hit(segs.drop_last(), px, py, dx, dy),
            spec_seg_hit(segs.last(), px, py, dx, dy),
        )
    }
}

/// Where a cell-local ray first strikes the cell's shape.
pub open spec fn spec_shape_hit(cell: Cell, amount: i64, px: int, py: int, dx: int, dy: int) -> Option<SegHit> {
    spec_best_hit(spec_shape_segments(cell, amount), px, py, dx, dy)
}

/// The candidate segments of a cell's shape, parameterized by the door
/// blocking amount (ignored for other kinds).
pub fn get_shape_segments(cell: &Cell, amount: i64) -> (r: Vec<ShapeSeg>)
    requires
        0 <= amount <= SCALE,
        amount % 2 == 0,
    ensures
        r@ == spec_shape_segments(*cell, amount),
        forall|i: int| 0 <= i < r@.len() ==> shape_seg_wf(#[trigger] r@[i]),
{
    let axis = cell.flags & 1 == 0;
    let mut v: Vec<ShapeSeg> = Vec::new();
    match cell.kind {
        CellKind::Door => {
            let style = (cell.flags & 0b1100u8) >> 2;
            if style == 0 {
                let flip = (cell.flags & 0b10u8) >> 1;
                let s0 = if flip == 0 { amount } else { SCALE - amount };
                let s1 = if flip == 0 { amount - SCALE } else { 2 * SCALE - amount };
                v.push(axis_seg(axis, SCALE, 0, 3840, s0, s1));
                v.push(axis_seg(axis, SCALE, 0, 2560, s0, s1));
                v.push(axis_seg(!axis, 1280, 2560, s0, 2560, 3840));
            } else if style == 1 {
                let h = amount / 2;
                v.push(axis_seg(axis, 3200, 0, 3520, h, h - 3200));
                v.push(axis_seg(axis, 3200, 0, 2880, h, h - 3200));
                v.push(axis_seg(axis, 3200, 3200, 3520, SCALE - h, 9600 - h));
                v.push(axis_seg(axis, 3200, 3200, 2880, SCALE - h, 9600 - h));
                v.push(axis_seg(!axis, 200, 3100, h, 2880, 3520));
                v.push(axis_seg(!axis, 200, 3100, SCALE - h, 2880, 3520));
            }
        },
        CellKind::ThinWall => {
            v.push(axis_seg(axis, SCALE, 0, 3200, 0, SCALE));
        },
        CellKind::ThickWall => {
            v.push(axis_seg(axis, SCALE, 0, 3840, 0, SCALE));
            v.push(axis_seg(axis, SCALE, 0, 2560, 0, SCALE));
            v.push(axis_seg(!axis, 1280, 2560, 0, 2560, 3840));
            v.push(axis_seg(!axis, 1280, 2560, SCALE, 2560, 3840));
        },
        CellKind::SquarePillar => {
            v.push(axis_seg(true, 3200, 1600, 1600, 1600, 4800));
            v.push(axis_seg(true, 3200, 1600, 4800, 1600, 4800));
            v.push(axis_seg(false, 3200, 1600, 1600, 1600, 4800));
            v.push(axis_seg(false, 3200, 1600, 4800, 1600, 4800));
        },
        CellKind::Diagonal => {
            if axis {
                v.push(ShapeSeg { part: ShapePart::Line(0, 0, SCALE, SCALE), tex_stretch: SCALE, tex_offset: 0 });
            } else {
                v.push(ShapeSeg { part: ShapePart::Line(SCALE, 0, 0, SCALE), tex_stretch: SCALE, tex_offset: 0 });
            }
        },
        _ => {},
    }
    proof {
        assert(v@ =~= spec_shape_segments(*cell, amount));
    }
    v
}

/// Build one axis-aligned candidate.
fn axis_seg(axis: bool, stretch: i64, offset: i64, c: i64, b0: i64, b1: i64) -> (r: ShapeSeg)
    ensures
        r == spec_axis_seg(axis, stretch, offset, c, b0, b1),
{
    ShapeSeg {
        part: if axis { ShapePart::LineY(c, b0, b1) } else { ShapePart::LineX(c, b0, b1) },
        tex_stretch: stretch,
        tex_offset: offset,
    }
}

/// Apply a segment's texture stretch and offset to a raw coordinate.
fn apply_tex(along: Frac, stretch: i64, offset: i64) -> (r: Frac)
    requires
        frac_wf(along),
        -0x40000000000 <= along.num <= 0x40000000000,
        along.den <= 0x280000000,
        0 <= stretch <= SCALE,
        0 <= offset <= SCALE,
    ensures
        r == spec_tex(along, stretch as int, offset as int),
        frac_wf(r),
{
    proof {
        lemma_mul_bound(along.num as int, stretch as int, 0x40000000000int, SCALE as int);
        lemma_mul_bound(offset as int, along.den as int, SCALE as int, 0x280000000int);
        lemma_mul_bound(along.den as int, SCALE as int, 0x280000000int, SCALE as int);
        lemma_mul_pos(along.den as int, SCALE as int);
    }
    Frac {
        num: along.num * (stretch as i128) + (offset as i128) * along.den,
        den: along.den * (SCALE as i128),
    }
}

/// Test the ray against one candidate segment.
fn seg_hit_exec(seg: &ShapeSeg, px: i64, py: i64, dx: i64, dy: i64) -> (r: Option<SegHit>)
    requires
        ray_wf(px, py, dx, dy),
        shape_seg_wf(*seg),
    ensures
        r == spec_seg_hit(*seg, px as int, py as int, dx as int, dy as int),
        r is Some ==> seg_hit_wf(r->0),
{
    match seg.part {
        ShapePart::LineX(c, b0, b1) => {
            match line_x(px, py, dx, dy, c, b0, b1) {
                None => None,
                Some(h) => Some(SegHit {
                    t: h.t,
                    along: apply_tex(h.along, seg.tex_stretch, seg.tex_offset),
                    brightness: h.brightness,
                }),
            }
        },
        ShapePart::LineY(c, b0, b1) => {
            match line_y(px, py, dx, dy, c, b0, b1) {
                None => None,
                Some(h) => Some(SegHit {
                    t: h.t,
                    along: apply_tex(h.along, seg.tex_stretch, seg.tex_offset),
                    brightness: h.brightness,
                }),
            }
        },
        ShapePart::Line(x0, y0, x1, y1) => line(px, py, dx, dy, x0, y0, x1, y1),
    }
}

/// Where a cell-local ray first strikes a cell's shape: the nearest valid
/// intersection among the shape's candidate segments, with its texture
/// coordinate and brightness tag, or `None` where the ray slips through.
pub fn shape_hit(cell: &Cell, amount: i64, px: i64, py: i64, dx: i64, dy: i64) -> (r: Option<SegHit>)
    requires
        ray_wf(px, py, dx, dy),
        0 <= amount <= SCALE,
        amount % 2 == 0,
    ensures
        r == spec_shape_hit(*cell, amount, px as int, py as int, dx as int, dy as int),
        r is Some ==> seg_hit_wf(r->0),
{
    let segs = get_shape_segments(cell, amount);
    let ghost gsegs = segs@;
    let mut best: Option<SegHit> = None;
    let n = segs.len();
    let mut i: usize = 0;
    while i < n
        invariant
            ray_wf(px, py, dx, dy),
            n == gsegs.len(),
            segs@ == gsegs,
            0 <= i <= n,
            forall|j: int| 0 <= j < gsegs.len() ==> shape_seg_wf(#[trigger] gsegs[j]),
            best == spec_best_hit(gsegs.take(i as int), px as int, py as int, dx as int, dy as int),
            best is Some ==> seg_hit_wf(best->0),
        decreases n - i,
    {
        let h = seg_hit_exec(&segs[i], px, py, dx, dy);
        match h {
            None => {},
            Some(hh) => {
                match best {
                    None => { best = Some(hh); },
                    Some(b) => {
                        if hh.t.lt(&b.t) {
                            best = Some(hh);
                        }
                    },
                }
            },
        }
        proof {
            assert(gsegs.take(i + 1 as int).drop_last() =~= gsegs.take(i as int));
            assert(gsegs.take(i + 1 as int).last() == gsegs[i as int]);
        }
        i = i + 1;
    }
    proof {
        assert(gsegs.take(n as int) =~= gsegs);
    }
    best
}


/// Multiplying by an explicit sign flips or keeps a value and its bounds.
proof fn lemma_sign_mul(s: int, x: int, b: int)
    by (nonlinear_arith)
    requires
        s == 1 || s == -1,
        -b <= x <= b,
    ensures
        -b <= s * x <= b,
        s == 1 ==> s * x == x,
        s == -1 ==> s * x == -x,
{
}

/// A diagonal cell's hit always lies on its corner-to-corner segment: for
/// the TL-BR orientation the hit point `origin + t * dir` satisfies
/// `x == y` with `0 <= x <= SCALE` (coordinates scaled by `t.den`), so a
/// ray whose path stays off that segment can never register a hit.
pub proof fn lemma_diagonal_tlbr_hit(cell: Cell, amount: i64, px: i64, py: i64, dx: i64, dy: i64, h: SegHit)
    requires
        cell.kind == CellKind::Diagonal,
        cell.flags & 1 == 0,
        spec_shape_hit(cell, amount, px as int, py as int, dx as int, dy as int) == Some(h),
    ensures
        (px as int) * h.t.den + h.t.num * (dx as int) == (py as int) * h.t.den + h.t.num * (dy as int),
        0 <= (px as int) * h.t.den + h.t.num * (dx as int) <= SCALE * h.t.den,
{
    let pxi = px as int;
    let pyi = py as int;
    let dxi = dx as int;
    let dyi = dy as int;
    let sl = SCALE as int;
    let segs = spec_shape_segments(cell, amount);
    assert(segs.len() == 1);
    assert(segs.drop_last() =~= Seq::<ShapeSeg>::empty());
    assert(spec_best_hit(segs.drop_last(), pxi, pyi, dxi, dyi) is None);
    assert(segs.last() == segs[0]);
    assert(spec_shape_hit(cell, amount, pxi, pyi, dxi, dyi)
        == spec_seg_hit(segs[0], pxi, pyi, dxi, dyi));
    assert(segs[0].part == ShapePart::Line(0i64, 0i64, SCALE, SCALE));
    lemma_mul_bound(0 - pxi, sl, 0x10000000000000000int, SCALE as int);
    lemma_mul_bound(0 - pyi, sl, 0x10000000000000000int, SCALE as int);
    lemma_mul_bound(dxi, sl, 0x10000000000000000int, SCALE as int);
    lemma_mul_bound(dyi, sl, 0x10000000000000000int, SCALE as int);
    let d = dxi * (sl - 0) - dyi * (sl - 0);
    assert(d != 0);
    let s = if d > 0 { 1int } else { -1int };
    let td = if d > 0 { d } else { -d };
    let tn = s * ((0 - pxi) * (sl - 0) - (0 - pyi) * (sl - 0));
    let tt = (0 - pxi) * (sl - 0) - (0 - pyi) * (sl - 0);
    lemma_sign_mul(s, tt, 0x100000000000000000000int);
    lemma_sign_mul(s, d, 0x100000000000000000000int);
    assert(td == s * d);
    assert(tn == s * tt);
    let xn = pxi * td + tn * dxi;
    let yn = pyi * td + tn * dyi;
    assert(h.t.num == tn && h.t.den == td);
    let e = dxi - dyi;
    let p = pxi - pyi;
    assert(d == sl * e) by (nonlinear_arith)
        requires
            d == dxi * sl - dyi * sl,
            e == dxi - dyi,
    ;
    assert(tt == sl * (0 - p)) by (nonlinear_arith)
        requires
            tt == (0 - pxi) * (sl - 0) - (0 - pyi) * (sl - 0),
            p == pxi - pyi,
    ;
    assert(xn - yn == s * (p * d + tt * e)) by (nonlinear_arith)
        requires
            xn == pxi * td + tn * dxi,
            yn == pyi * td + tn * dyi,
            td == s * d,
            tn == s * tt,
            p == pxi - pyi,
            e == dxi - dyi,
    ;
    assert(p * d + tt * e == 0) by (nonlinear_arith)
        requires
            d == sl * e,
            tt == sl * (0 - p),
    ;
    assert(xn == yn);
    assert(0 <= xn <= sl * td);
}

/// The TR-BL diagonal's mirror image: every hit satisfies
/// `x + y == SCALE` (scaled by `t.den`).
pub proof fn lemma_diagonal_trbl_hit(cell: Cell, amount: i64, px: i64, py: i64, dx: i64, dy: i64, h: SegHit)
    requires
        cell.kind == CellKind::Diagonal,
        cell.flags & 1 != 0,
        spec_shape_hit(cell, amount, px as int, py as int, dx as int, dy as int) == Some(h),
    ensures
        ((px as int) * h.t.den + h.t.num * (dx as int))
            + ((py as int) * h.t.den + h.t.num * (dy as int)) == SCALE * h.t.den,
        0 <= (px as int) * h.t.den + h.t.num * (dx as int) <= SCALE * h.t.den,
{
    let pxi = px as int;
    let pyi = py as int;
    let dxi = dx as int;
    let dyi = dy as int;
    let sl = SCALE as int;
    let segs = spec_shape_segments(cell, amount);
    assert(segs.len() == 1);
    assert(segs.drop_last() =~= Seq::<ShapeSeg>::empty());
    assert(spec_best_hit(segs.drop_last(), pxi, pyi, dxi, dyi) is None);
    assert(segs.last() == segs[0]);
    assert(spec_shape_hit(cell, amount, pxi, pyi, dxi, dyi)
        == spec_seg_hit(segs[0], pxi, pyi, dxi, dyi));
    assert(segs[0].part == ShapePart::Line(SCALE, 0i64, 0i64, SCALE));
    lemma_mul_bound(sl - pxi, sl, 0x10000000000000000int, SCALE as int);
    lemma_mul_bound(0 - pyi, 0 - sl, 0x10000000000000000int, SCALE as int);
    lemma_mul_bound(dxi, sl, 0x10000000000000000int, SCALE as int);
    lemma_mul_bound(dyi, 0 - sl, 0x10000000000000000int, SCALE as int);
    let d = dxi * (sl - 0) - dyi * (0 - sl);
    assert(d != 0);
    let s = if d > 0 { 1int } else { -1int };
    let td = if d > 0 { d } else { -d };
    let tn = s * ((sl - pxi) * (sl - 0) - (0 - pyi) * (0 - sl));
    let tt = (sl - pxi) * (sl - 0) - (0 - pyi) * (0 - sl);
    lemma_sign_mul(s, tt, 0x100000000000000000000int);
    lemma_sign_mul(s, d, 0x100000000000000000000int);
    assert(td == s * d);
    assert(tn == s * tt);
    let xn = pxi * td + tn * dxi;
    let yn = pyi * td + tn * dyi;
    assert(h.t.num == tn && h.t.den == td);
    let e = dxi + dyi;
    let p = pxi + pyi;
    assert(d == sl * e) by (nonlinear_arith)
        requires
            d == dxi * (sl - 0) - dyi * (0 - sl),
            e == dxi + dyi,
    ;
    assert(tt == sl * (sl - p)) by (nonlinear_arith)
        requires
            tt == (sl - pxi) * (sl - 0) - (0 - pyi) * (0 - sl),
            p == pxi + pyi,
    ;
    assert(xn + yn == s * (p * d + tt * e)) by (nonlinear_arith)
        requires
            xn == pxi * td + tn * dxi,
            yn == pyi * td + tn * dyi,
            td == s * d,
            tn == s * tt,
            p == pxi + pyi,
            e == dxi + dyi,
    ;
    assert(p * d + tt * e == sl * d) by (nonlinear_arith)
        requires
            d == sl * e,
            tt == sl * (sl - p),
    ;
    assert(xn + yn == s * (sl * d));
    assert(s * (sl * d) == sl * (s * d)) by (nonlinear_arith)
        requires
            s == 1 || s == -1,
    ;
    assert(xn + yn == sl * td);
    assert(0 <= xn <= sl * td);
}

} // verus!
