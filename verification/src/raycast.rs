//! Grid traversal: casting a ray cell by cell through the tile grid.
//!
//! The traversal walks the grid one cell-boundary crossing at a time,
//! always advancing along whichever axis reaches its next boundary first.
//! Cell visit order is decided by comparing the two candidate ray
//! parameters exactly (cross-multiplied integers), so the walk is
//! deterministic.  Solid cells stop the ray at the crossed edge;
//! shaped cells (doors, walls, pillars, diagonals) delegate to the
//! shape-intersection solver with the cell-local ray and only stop the ray
//! if a sub-cell segment is struck.  The ray gives up past its maximum
//! travel distance, outside the grid, or at a defensive step cap.
//!
//! A hit's `perp` fraction is the dot product of the travelled vector with
//! the caller's forward vector: dividing it by `SCALE` times the forward
//! vector's length yields the fisheye-corrected perpendicular distance in
//! cells.

use vstd::prelude::*;
use crate::fixed::{Frac, frac_wf, lemma_mul_bound, lemma_mul_pos, SCALE, COORD_MAX, DIR_MAX, MAX_DIM};
use crate::map::{Grid, Cell, CellKind, spec_door_lookup, lemma_door_lookup_some};
use crate::door::{spec_open_amount, open_amount};
use crate::shape::{spec_shape_hit, shape_hit};

verus! {

/// Which axis the last boundary crossing was on: `X` means a vertical
/// edge was crossed, `Y` a horizontal one.
#[derive(Clone, Copy, Debug, PartialEq, Eq, Structural)]
pub enum RaycastSide {
    X,
    Y,
}

/// What a cast ray struck: the cell's index, the fisheye-correction dot
/// product (see the module doc), the texture coordinate in `[0, 1]` along
/// the struck edge, a brightness tag, and which axis was crossed last.
#[derive(Clone, Copy, Debug)]
pub struct HitRecord {
    pub cell: usize,
    pub perp: Frac,
    pub along: Frac,
    pub brightness: u8,
    pub side: RaycastSide,
}

/// Hits the cast hands out carry well-formed exact fractions.
pub open spec fn hit_wf(h: HitRecord) -> bool {
    &&& frac_wf(h.perp)
    &&& frac_wf(h.along)
}

/// Defensive cap on boundary crossings per cast; a ray inside the grid
/// leaves it after at most `2 * MAX_DIM` crossings, so the cap is never
/// the deciding exit in correct operation.
pub const STEP_CAP: usize = 4100;

/// The walker's state between crossings: the current cell, the axis
/// distances (in scaled units) from the origin to each axis's next
/// boundary crossing, the entry parameter of the current cell as the
/// exact fraction `t_num / t_den`, and the axis crossed last.
pub struct DdaState {
    pub map_x: int,
    pub map_y: int,
    pub ax: int,
    pub ay: int,
    pub t_num: int,
    pub t_den: int,
    pub side: RaycastSide,
}

/// Starting state: the cell containing the origin, entry parameter zero,
/// and for each axis the distance to the first boundary in the direction
/// of travel.
pub open spec fn spec_dda_init(px: int, py: int, dx: int, dy: int) -> DdaState {
    let mx = px / (SCALE as int);
    let my = py / (SCALE as int);
    DdaState {
        map_x: mx,
        map_y: my,
        ax: if dx < 0 { px - mx * SCALE } else { (mx + 1) * SCALE - px },
        ay: if dy < 0 { py - my * SCALE } else { (my + 1) * SCALE - py },
        t_num: 0,
        t_den: 1,
        side: RaycastSide::X,
    }
}

/// One boundary crossing: advance along whichever axis's next crossing
/// comes first, comparing the candidate parameters `ax / |dx|` and
/// `ay / |dy|` exactly; an axis with no motion never wins.  The crossed
/// axis's accumulated distance grows by one cell.
pub open spec fn spec_dda_step(st: DdaState, dx: int, dy: int) -> DdaState {
    let adx = if dx >= 0 { dx } else { -dx };
    let ady = if dy >= 0 { dy } else { -dy };
    if st.ax * ady < st.ay * adx {
        DdaState {
            map_x: if dx >= 0 { st.map_x + 1 } else { st.map_x - 1 },
            map_y: st.map_y,
            ax: st.ax + SCALE,
            ay: st.ay,
            t_num: st.ax,
            t_den: adx,
            side: RaycastSide::X,
        }
    } else {
        DdaState {
            map_x: st.map_x,
            map_y: if dy >= 0 { st.map_y + 1 } else { st.map_y - 1 },
            ax: st.ax,
            ay: st.ay + SCALE,
            t_num: st.ay,
            t_den: ady,
            side: RaycastSide::Y,
        }
    }
}

/// The current cell's entry point lies beyond the maximum travel
/// distance: `t * |dir| > max_dist`, compared via squares.
pub open spec fn spec_beyond(st: DdaState, dx: int, dy: int, max_dist: int) -> bool {
    st.t_num * st.t_num * (dx * dx + dy * dy) > max_dist * max_dist * (st.t_den * st.t_den)
}

/// How much of the cell blocks the ray: a door's current blocking amount,
/// a full cell for a door missing from the table, nothing otherwise.
pub open spec fn spec_cell_amount(g: Grid, idx: int, cell: Cell) -> i64 {
    if cell.kind == CellKind::Door {
        match spec_door_lookup(g.doors@, idx as usize) {
            Some(d) => spec_open_amount(d) as i64,
            None => SCALE,
        }
    } else {
        0
    }
}

/// The record for a ray stopped by a solid cell: the entry point of the
/// cell is the hit point; its fractional coordinate along the crossed
/// edge is the texture coordinate, and the crossed axis picks the
/// brightness tag.
pub open spec fn spec_solid_hit(px: int, py: int, dx: int, dy: int, fx: int, fy: int, st: DdaState, idx: int) -> HitRecord {
    let dot = dx * fx + dy * fy;
    let std = SCALE * st.t_den;
    if st.side == RaycastSide::X {
        let hy = py * st.t_den + st.t_num * dy;
        HitRecord {
            cell: idx as usize,
            perp: Frac { num: (st.t_num * dot) as i128, den: st.t_den as i128 },
            along: Frac { num: (hy % std) as i128, den: std as i128 },
            brightness: 191,
            side: RaycastSide::X,
        }
    } else {
        let hx = px * st.t_den + st.t_num * dx;
        HitRecord {
            cell: idx as usize,
            perp: Frac { num: (st.t_num * dot) as i128, den: st.t_den as i128 },
            along: Frac { num: (hx % std) as i128, den: std as i128 },
            brightness: 255,
            side: RaycastSide::Y,
        }
    }
}

/// The whole walk from a given state: give up at the fuel cap, outside
/// the grid or beyond the travel limit; pass through empty and light
/// cells; stop at solid cells and at struck shape segments; keep walking
/// past shapes the ray misses.
pub open spec fn spec_cast_from(g: Grid, px: int, py: int, dx: int, dy: int, fx: int, fy: int, max_dist: int, st: DdaState, fuel: nat) -> Option<HitRecord>
    decreases fuel,
{
    if fuel == 0 {
        None
    } else if !(0 <= st.map_x < g.width && 0 <= st.map_y < g.height) {
        None
    } else if spec_beyond(st, dx, dy, max_dist) {
        None
    } else {
        let idx = st.map_y * g.width + st.map_x;
        let cell = g.cells@[idx];
        if cell.kind == CellKind::Solid {
            Some(spec_solid_hit(px, py, dx, dy, fx, fy, st, idx))
        } else if cell.kind == CellKind::Empty || cell.kind == CellKind::Light {
            spec_cast_from(g, px, py, dx, dy, fx, fy, max_dist, spec_dda_step(st, dx, dy), (fuel - 1) as nat)
        } else {
            let lpx = px - st.map_x * SCALE;
            let lpy = py - st.map_y * SCALE;
            match spec_shape_hit(cell, spec_cell_amount(g, idx, cell), lpx, lpy, dx, dy) {
                Some(h) => Some(HitRecord {
                    cell: idx as usize,
                    perp: Frac { num: (h.t.num * (dx * fx + dy * fy)) as i128, den: h.t.den },
                    along: h.along,
                    brightness: h.brightness,
                    side: st.side,
                }),
                None => spec_cast_from(g, px, py, dx, dy, fx, fy, max_dist, spec_dda_step(st, dx, dy), (fuel - 1) as nat),
            }
        }
    }
}

/// A full cast: rays starting outside the grid hit nothing, as do rays
/// with no direction at all; all others walk from their starting cell.
pub open spec fn spec_cast(g: Grid, px: int, py: int, dx: int, dy: int, fx: int, fy: int, max_dist: int) -> Option<HitRecord> {
    if px < 0 || px > g.width * SCALE || py < 0 || py > g.height * SCALE || (dx == 0 && dy == 0) {
        None
    } else {
        spec_cast_from(g, px, py, dx, dy, fx, fy, max_dist, spec_dda_init(px, py, dx, dy), STEP_CAP as nat)
    }
}

/// Euclidean remainder: the representative of `a` modulo `m` in `[0, m)`.
fn rem_euclid_i128(a: i128, m: i128) -> (r: i128)
    requires
        0 < m,
    ensures
        r == (a as int) % (m as int),
        0 <= r < m,
{
    match a.checked_rem_euclid(m) {
        Some(r) => r,
        None => {
            proof {
                assert(false);
            }
            0
        },
    }
}

/// Cast a ray from `(px, py)` in direction `(dx, dy)` and report the
/// first surface it strikes within `max_dist` scaled units, or `None`
/// where it strikes nothing.  The caller's forward vector `(fx, fy)`
/// enters only the hit's fisheye-correction dot product.
pub fn raycast(grid: &Grid, px: i64, py: i64, dx: i64, dy: i64, fx: i64, fy: i64, max_dist: i64) -> (r: Option<HitRecord>)
    requires
        grid.wf(),
        -COORD_MAX <= px <= COORD_MAX,
        -COORD_MAX <= py <= COORD_MAX,
        -DIR_MAX <= dx <= DIR_MAX,
        -DIR_MAX <= dy <= DIR_MAX,
        -DIR_MAX <= fx <= DIR_MAX,
        -DIR_MAX <= fy <= DIR_MAX,
        0 <= max_dist <= COORD_MAX,
    ensures
        r == spec_cast(*grid, px as int, py as int, dx as int, dy as int, fx as int, fy as int, max_dist as int),
        r is Some ==> hit_wf(r->0) && r->0.cell < grid.cells.len(),
{
    let ghost pxi = px as int;
    let ghost pyi = py as int;
    let ghost dxi = dx as int;
    let ghost dyi = dy as int;
    let ghost fxi = fx as int;
    let ghost fyi = fy as int;
    let ghost mdi = max_dist as int;
    let w = grid.width;
    let h = grid.height;
    let ws: i64 = (w as i64) * SCALE;
    let hs: i64 = (h as i64) * SCALE;
    if px < 0 || px > ws || py < 0 || py > hs || (dx == 0 && dy == 0) {
        return None;
    }
    let mut map_x: usize = (px as usize) / (SCALE as usize);
    let mut map_y: usize = (py as usize) / (SCALE as usize);
    let adx: i64 = if dx >= 0 { dx } else { -dx };
    let ady: i64 = if dy >= 0 { dy } else { -dy };
    let mut ax: i64 = if dx < 0 {
        px - (map_x as i64) * SCALE
    } else {
        ((map_x as i64) + 1) * SCALE - px
    };
    let mut ay: i64 = if dy < 0 {
        py - (map_y as i64) * SCALE
    } else {
        ((map_y as i64) + 1) * SCALE - py
    };
    let mut t_num: i64 = 0;
    let mut t_den: i64 = 1;
    let mut side: RaycastSide = RaycastSide::X;
    let mut fuel: usize = STEP_CAP;
    proof {
        lemma_mul_bound(dx as int, fx as int, DIR_MAX as int, DIR_MAX as int);
        lemma_mul_bound(dy as int, fy as int, DIR_MAX as int, DIR_MAX as int);
    }
    let dot: i64 = dx * fx + dy * fy;
    proof {
        vstd::arithmetic::div_mod::lemma_fundamental_div_mod(pxi, SCALE as int);
        vstd::arithmetic::div_mod::lemma_fundamental_div_mod(pyi, SCALE as int);
        assert(spec_dda_init(pxi, pyi, dxi, dyi) == (DdaState {
            map_x: map_x as int,
            map_y: map_y as int,
            ax: ax as int,
            ay: ay as int,
            t_num: t_num as int,
            t_den: t_den as int,
            side: side,
        }));
        assert(spec_cast(*grid, pxi, pyi, dxi, dyi, fxi, fyi, mdi)
            == spec_cast_from(*grid, pxi, pyi, dxi, dyi, fxi, fyi, mdi,
                spec_dda_init(pxi, pyi, dxi, dyi), STEP_CAP as nat));
    }
    loop
        invariant
            grid.wf(),
            w == grid.width,
            h == grid.height,
            pxi == px as int && pyi == py as int && dxi == dx as int && dyi == dy as int,
            fxi == fx as int && fyi == fy as int && mdi == max_dist as int,
            0 <= px <= COORD_MAX,
            0 <= py <= COORD_MAX,
            -DIR_MAX <= dx <= DIR_MAX,
            -DIR_MAX <= dy <= DIR_MAX,
            -DIR_MAX <= fx <= DIR_MAX,
            -DIR_MAX <= fy <= DIR_MAX,
            0 <= max_dist <= COORD_MAX,
            !(dx == 0 && dy == 0),
            -0x2000000000 <= dot <= 0x2000000000,
            adx == (if dx >= 0 { dx as int } else { -(dx as int) }),
            ady == (if dy >= 0 { dy as int } else { -(dy as int) }),
            dot == dx * fx + dy * fy,
            map_x <= MAX_DIM + 1,
            map_y <= MAX_DIM + 1,
            0 <= ax,
            0 <= ay,
            dx == 0 ==> ax >= 1,
            dy == 0 ==> ay >= 1,
            ax + (fuel as int) * SCALE <= (STEP_CAP as int + 1) * SCALE,
            ay + (fuel as int) * SCALE <= (STEP_CAP as int + 1) * SCALE,
            0 <= t_num <= (STEP_CAP as int + 1) * SCALE,
            1 <= t_den <= DIR_MAX,
            fuel <= STEP_CAP,
            spec_cast(*grid, pxi, pyi, dxi, dyi, fxi, fyi, mdi)
                == spec_cast_from(*grid, pxi, pyi, dxi, dyi, fxi, fyi, mdi,
                    DdaState {
                        map_x: map_x as int,
                        map_y: map_y as int,
                        ax: ax as int,
                        ay: ay as int,
                        t_num: t_num as int,
                        t_den: t_den as int,
                        side: side,
                    }, fuel as nat),
        decreases fuel,
    {
        let ghost cur = DdaState {
            map_x: map_x as int,
            map_y: map_y as int,
            ax: ax as int,
            ay: ay as int,
            t_num: t_num as int,
            t_den: t_den as int,
            side: side,
        };
        let ghost fuel0 = fuel as nat;
        if fuel == 0 {
            return None;
        }
        if !(map_x < w && map_y < h) {
            return None;
        }
        proof {
            lemma_mul_bound(t_num as int, t_num as int, 0x2000000int, 0x2000000int);
            lemma_mul_bound(dx as int, dx as int, DIR_MAX as int, DIR_MAX as int);
            lemma_mul_bound(dy as int, dy as int, DIR_MAX as int, DIR_MAX as int);
            lemma_mul_bound((t_num as int) * (t_num as int), (dx as int) * (dx as int) + (dy as int) * (dy as int),
                0x4000000000000int, 0x2000000000int);
            lemma_mul_bound(max_dist as int, max_dist as int, COORD_MAX as int, COORD_MAX as int);
            lemma_mul_bound(t_den as int, t_den as int, DIR_MAX as int, DIR_MAX as int);
            lemma_mul_bound((max_dist as int) * (max_dist as int), (t_den as int) * (t_den as int),
                0x100000000000000int, 0x1000000000int);
        }
        let tns: i128 = (t_num as i128) * (t_num as i128);
        let dd: i128 = (dx as i128) * (dx as i128) + (dy as i128) * (dy as i128);
        let mm: i128 = (max_dist as i128) * (max_dist as i128);
        let tds: i128 = (t_den as i128) * (t_den as i128);
        if tns * dd > mm * tds {
            proof {
                assert(spec_beyond(cur, dxi, dyi, mdi));
            }
            return None;
        }
        proof {
            assert(!spec_beyond(cur, dxi, dyi, mdi));
            assert((map_y as int) * (w as int) + (map_x as int) < (w as int) * (h as int)) by (nonlinear_arith)
                requires
                    (map_x as int) < (w as int),
                    (map_y as int) < (h as int),
                    0 <= (map_x as int),
                    0 <= (map_y as int),
            ;
        }
        let idx: usize = map_y * w + map_x;
        let cell = *grid.get(idx);
        proof {
            assert(idx as int == cur.map_y * grid.width + cur.map_x);
            assert(cell == grid.cells@[cur.map_y * grid.width + cur.map_x]);
        }
        match cell.kind {
            CellKind::Solid => {
                proof {
                    lemma_mul_bound(t_num as int, dot as int, 0x2000000int, 0x4000000000int);
                    lemma_mul_bound(py as int, t_den as int, COORD_MAX as int, DIR_MAX as int);
                    lemma_mul_bound(px as int, t_den as int, COORD_MAX as int, DIR_MAX as int);
                    lemma_mul_bound(t_num as int, dy as int, 0x2000000int, DIR_MAX as int);
                    lemma_mul_bound(t_num as int, dx as int, 0x2000000int, DIR_MAX as int);
                    lemma_mul_bound(SCALE as int, t_den as int, SCALE as int, DIR_MAX as int);
                    lemma_mul_pos(SCALE as int, t_den as int);
                }
                let std: i128 = (SCALE as i128) * (t_den as i128);
                let perp = Frac { num: (t_num as i128) * (dot as i128), den: t_den as i128 };
                let rec = match side {
                    RaycastSide::X => {
                        let hy: i128 = (py as i128) * (t_den as i128) + (t_num as i128) * (dy as i128);
                        let m = rem_euclid_i128(hy, std);
                        HitRecord { cell: idx, perp, along: Frac { num: m, den: std }, brightness: 191, side: RaycastSide::X }
                    },
                    RaycastSide::Y => {
                        let hx: i128 = (px as i128) * (t_den as i128) + (t_num as i128) * (dx as i128);
                        let m = rem_euclid_i128(hx, std);
                        HitRecord { cell: idx, perp, along: Frac { num: m, den: std }, brightness: 255, side: RaycastSide::Y }
                    },
                };
                proof {
                    assert(rec == spec_solid_hit(pxi, pyi, dxi, dyi, fxi, fyi, cur, idx as int));
                    assert(spec_cast_from(*grid, pxi, pyi, dxi, dyi, fxi, fyi, mdi, cur, fuel0) == Some(rec));
                }
                return Some(rec);
            },
            CellKind::Empty | CellKind::Light => {
                proof {
                    assert(spec_cast_from(*grid, pxi, pyi, dxi, dyi, fxi, fyi, mdi, cur, fuel0)
                        == spec_cast_from(*grid, pxi, pyi, dxi, dyi, fxi, fyi, mdi,
                            spec_dda_step(cur, dxi, dyi), (fuel0 - 1) as nat));
                }
            },
            _ => {
                let lpx: i64 = px - (map_x as i64) * SCALE;
                let lpy: i64 = py - (map_y as i64) * SCALE;
                let amount: i64 = match cell.kind {
                    CellKind::Door => {
                        match grid.door_state(idx) {
                            Some(d) => open_amount(d),
                            None => {
                                proof {
                                    lemma_door_lookup_some(grid.doors@, idx);
                                }
                                SCALE
                            },
                        }
                    },
                    _ => 0,
                };
                proof {
                    assert(amount as i64 == spec_cell_amount(*grid, idx as int, cell));
                }
                match shape_hit(&cell, amount, lpx, lpy, dx, dy) {
                    Some(hh) => {
                        proof {
                            lemma_mul_bound(hh.t.num as int, dot as int, 0x8000000000int, 0x4000000000int);
                        }
                        let rec = HitRecord {
                            cell: idx,
                            perp: Frac { num: hh.t.num * (dot as i128), den: hh.t.den },
                            along: hh.along,
                            brightness: hh.brightness,
                            side,
                        };
                        proof {
                            assert(spec_cast_from(*grid, pxi, pyi, dxi, dyi, fxi, fyi, mdi, cur, fuel0) == Some(rec));
                        }
                        return Some(rec);
                    },
                    None => {
                        proof {
                            assert(spec_cast_from(*grid, pxi, pyi, dxi, dyi, fxi, fyi, mdi, cur, fuel0)
                                == spec_cast_from(*grid, pxi, pyi, dxi, dyi, fxi, fyi, mdi,
                                    spec_dda_step(cur, dxi, dyi), (fuel0 - 1) as nat));
                        }
                    },
                }
            },
        }
        proof {
            lemma_mul_bound(ax as int, ady as int, 0x2000000int, DIR_MAX as int);
            lemma_mul_bound(ay as int, adx as int, 0x2000000int, DIR_MAX as int);
        }
        if (ax as i128) * (ady as i128) < (ay as i128) * (adx as i128) {
            proof {
                assert(adx >= 1) by (nonlinear_arith)
                    requires
                        (cur.ax) * (ady as int) < (cur.ay) * (adx as int),
                        0 <= cur.ax,
                        0 <= cur.ay,
                        0 <= adx as int,
                        0 <= ady as int,
                        cur.ax == ax as int,
                        cur.ay == ay as int,
                ;
            }
            t_num = ax;
            t_den = adx;
            ax = ax + SCALE;
            side = RaycastSide::X;
            if dx >= 0 {
                map_x = map_x + 1;
            } else {
                if map_x == 0 {
                    proof {
                        assert(spec_dda_step(cur, dxi, dyi).map_x == cur.map_x - 1);
                        assert(spec_cast_from(*grid, pxi, pyi, dxi, dyi, fxi, fyi, mdi,
                            spec_dda_step(cur, dxi, dyi), (fuel0 - 1) as nat) is None);
                    }
                    return None;
                }
                map_x = map_x - 1;
            }
        } else {
            proof {
                assert(ady >= 1) by (nonlinear_arith)
                    requires
                        !((cur.ax) * (ady as int) < (cur.ay) * (adx as int)),
                        0 <= cur.ax,
                        0 <= cur.ay,
                        0 <= adx as int,
                        0 <= ady as int,
                        ady as int == 0 ==> cur.ay >= 1,
                        ady as int == 0 ==> adx as int >= 1,
                ;
            }
            t_num = ay;
            t_den = ady;
            ay = ay + SCALE;
            side = RaycastSide::Y;
            if dy >= 0 {
                map_y = map_y + 1;
            } else {
                if map_y == 0 {
                    proof {
                        assert(spec_dda_step(cur, dxi, dyi).map_y == cur.map_y - 1);
                        assert(spec_cast_from(*grid, pxi, pyi, dxi, dyi, fxi, fyi, mdi,
                            spec_dda_step(cur, dxi, dyi), (fuel0 - 1) as nat) is None);
                    }
                    return None;
                }
                map_y = map_y - 1;
            }
        }
        fuel = fuel - 1;
        proof {
            let nxt = DdaState {
                map_x: map_x as int,
                map_y: map_y as int,
                ax: ax as int,
                ay: ay as int,
                t_num: t_num as int,
                t_den: t_den as int,
                side: side,
            };
            assert(nxt == spec_dda_step(cur, dxi, dyi));
        }
    }
}

/// Invariant of the walker's state: non-negative axis distances, a
/// positive entry denominator, and an entry parameter no later than
/// either axis's next crossing.
pub open spec fn dda_state_wf(st: DdaState, dx: int, dy: int) -> bool {
    let adx = if dx >= 0 { dx } else { -dx };
    let ady = if dy >= 0 { dy } else { -dy };
    &&& 0 <= st.ax
    &&& 0 <= st.ay
    &&& 0 <= st.t_num
    &&& 1 <= st.t_den
    &&& st.t_num * adx <= st.ax * st.t_den
    &&& st.t_num * ady <= st.ay * st.t_den
    &&& (dx == 0 ==> st.ax >= 1)
    &&& (dy == 0 ==> st.ay >= 1)
}

/// The walker's progress measure: how many boundary crossings it has made,
/// read off the cell coordinates along each axis's direction of travel.
pub open spec fn dda_potential(st: DdaState, dx: int, dy: int) -> int {
    (if dx >= 0 { st.map_x } else { -st.map_x }) + (if dy >= 0 { st.map_y } else { -st.map_y })
}

/// The state after `k` boundary crossings.
pub open spec fn spec_dda_iter(st: DdaState, dx: int, dy: int, k: nat) -> DdaState
    decreases k,
{
    if k == 0 {
        st
    } else {
        spec_dda_step(spec_dda_iter(st, dx, dy, (k - 1) as nat), dx, dy)
    }
}

/// Entry parameters compare as exact fractions: `a` enters no later than `b`.
pub open spec fn dda_t_le(a: DdaState, b: DdaState) -> bool {
    a.t_num * b.t_den <= b.t_num * a.t_den
}

proof fn lemma_dda_t_le_trans(a: DdaState, b: DdaState, c: DdaState)
    by (nonlinear_arith)
    requires
        1 <= a.t_den,
        1 <= b.t_den,
        1 <= c.t_den,
        dda_t_le(a, b),
        dda_t_le(b, c),
    ensures
        dda_t_le(a, c),
{
}

/// One crossing moves to an adjacent, new cell, keeps the state invariant,
/// and never makes the entry parameter smaller.
pub proof fn lemma_dda_step_props(st: DdaState, dx: int, dy: int)
    requires
        dda_state_wf(st, dx, dy),
        !(dx == 0 && dy == 0),
    ensures
        dda_state_wf(spec_dda_step(st, dx, dy), dx, dy),
        dda_t_le(st, spec_dda_step(st, dx, dy)),
        dda_potential(spec_dda_step(st, dx, dy), dx, dy) == dda_potential(st, dx, dy) + 1,
        spec_dda_step(st, dx, dy).map_x != st.map_x || spec_dda_step(st, dx, dy).map_y != st.map_y,
{
    let adx = if dx >= 0 { dx } else { -dx };
    let ady = if dy >= 0 { dy } else { -dy };
    let nxt = spec_dda_step(st, dx, dy);
    if st.ax * ady < st.ay * adx {
        assert(adx >= 1) by (nonlinear_arith)
            requires
                st.ax * ady < st.ay * adx,
                0 <= st.ax,
                0 <= st.ay,
                0 <= adx,
                0 <= ady,
        ;
        assert(st.ax * adx <= (st.ax + SCALE) * adx) by (nonlinear_arith)
            requires
                0 <= adx,
                0 <= st.ax,
        ;
    } else {
        assert(ady >= 1) by (nonlinear_arith)
            requires
                !(st.ax * ady < st.ay * adx),
                0 <= st.ax,
                0 <= st.ay,
                0 <= adx,
                0 <= ady,
                ady == 0 ==> st.ay >= 1,
                ady == 0 ==> adx >= 1,
        ;
        assert(st.ay * ady <= (st.ay + SCALE) * ady) by (nonlinear_arith)
            requires
                0 <= ady,
                0 <= st.ay,
        ;
    }
}

proof fn lemma_dda_iter_props(st: DdaState, dx: int, dy: int, k: nat)
    requires
        dda_state_wf(st, dx, dy),
        !(dx == 0 && dy == 0),
    ensures
        dda_state_wf(spec_dda_iter(st, dx, dy, k), dx, dy),
        dda_t_le(st, spec_dda_iter(st, dx, dy, k)),
        dda_potential(spec_dda_iter(st, dx, dy, k), dx, dy) == dda_potential(st, dx, dy) + k,
    decreases k,
{
    if k > 0 {
        let prev = spec_dda_iter(st, dx, dy, (k - 1) as nat);
        lemma_dda_iter_props(st, dx, dy, (k - 1) as nat);
        lemma_dda_step_props(prev, dx, dy);
        lemma_dda_t_le_trans(st, prev, spec_dda_step(prev, dx, dy));
    }
}

proof fn lemma_dda_iter_add(st: DdaState, dx: int, dy: int, j: nat, k: nat)
    ensures
        spec_dda_iter(st, dx, dy, (j + k) as nat) == spec_dda_iter(spec_dda_iter(st, dx, dy, j), dx, dy, k),
    decreases k,
{
    if k > 0 {
        lemma_dda_iter_add(st, dx, dy, j, (k - 1) as nat);
    }
}

/// The traversal visits cells in non-decreasing travelled-distance order
/// and never returns to a cell: after any two different numbers of
/// crossings the walker stands in different cells, and the later entry
/// parameter is never smaller than the earlier one.
pub proof fn lemma_dda_no_revisit(st: DdaState, dx: int, dy: int, j: nat, k: nat)
    requires
        dda_state_wf(st, dx, dy),
        !(dx == 0 && dy == 0),
        j < k,
    ensures
        spec_dda_iter(st, dx, dy, j).map_x != spec_dda_iter(st, dx, dy, k).map_x
            || spec_dda_iter(st, dx, dy, j).map_y != spec_dda_iter(st, dx, dy, k).map_y,
        dda_t_le(spec_dda_iter(st, dx, dy, j), spec_dda_iter(st, dx, dy, k)),
{
    let a = spec_dda_iter(st, dx, dy, j);
    lemma_dda_iter_props(st, dx, dy, j);
    lemma_dda_iter_add(st, dx, dy, j, (k - j) as nat);
    lemma_dda_iter_props(a, dx, dy, (k - j) as nat);
    assert(dda_potential(spec_dda_iter(st, dx, dy, k), dx, dy) == dda_potential(a, dx, dy) + (k - j));
}

/// The starting state of a cast that begins inside the grid satisfies the
/// walker's invariant.
pub proof fn lemma_dda_init_wf(px: int, py: int, dx: int, dy: int)
    requires
        0 <= px,
        0 <= py,
    ensures
        dda_state_wf(spec_dda_init(px, py, dx, dy), dx, dy),
{
    let sl = SCALE as int;
    vstd::arithmetic::div_mod::lemma_fundamental_div_mod(px, sl);
    vstd::arithmetic::div_mod::lemma_mod_bound(px, sl);
    vstd::arithmetic::div_mod::lemma_fundamental_div_mod(py, sl);
    vstd::arithmetic::div_mod::lemma_mod_bound(py, sl);
    let st = spec_dda_init(px, py, dx, dy);
    assert(0 <= st.ax && 0 <= st.ay);
    assert(st.t_num * (if dx >= 0 { dx } else { -dx }) == 0) by (nonlinear_arith)
        requires
            st.t_num == 0,
    ;
    assert(st.t_num * (if dy >= 0 { dy } else { -dy }) == 0) by (nonlinear_arith)
        requires
            st.t_num == 0,
    ;
    assert(0 <= st.ax * st.t_den) by (nonlinear_arith)
        requires
            0 <= st.ax,
            st.t_den == 1,
    ;
    assert(0 <= st.ay * st.t_den) by (nonlinear_arith)
        requires
            0 <= st.ay,
            st.t_den == 1,
    ;
}


/// A ray with no vertical motion crosses only vertical boundaries: the
/// walk stays in its starting row forever, so an axis-aligned ray's
/// traversal is confined to that row and leaves the grid after at most
/// a row's worth of crossings.
pub proof fn lemma_axis_ray_stays_in_row(st: DdaState, dx: int, k: nat)
    requires
        dda_state_wf(st, dx, 0),
        dx != 0,
    ensures
        spec_dda_iter(st, dx, 0, k).map_y == st.map_y,
    decreases k,
{
    if k > 0 {
        lemma_axis_ray_stays_in_row(st, dx, (k - 1) as nat);
        lemma_dda_iter_props(st, dx, 0, (k - 1) as nat);
        let prev = spec_dda_iter(st, dx, 0, (k - 1) as nat);
        let adx = if dx >= 0 { dx } else { -dx };
        assert(prev.ax * 0 < prev.ay * adx) by (nonlinear_arith)
            requires
                prev.ay >= 1,
                adx >= 1,
        ;
    }
}

/// The mirror image: a ray with no horizontal motion stays in its
/// starting column.
pub proof fn lemma_axis_ray_stays_in_column(st: DdaState, dy: int, k: nat)
    requires
        dda_state_wf(st, 0, dy),
        dy != 0,
    ensures
        spec_dda_iter(st, 0, dy, k).map_x == st.map_x,
    decreases k,
{
    if k > 0 {
        lemma_axis_ray_stays_in_column(st, dy, (k - 1) as nat);
        lemma_dda_iter_props(st, 0, dy, (k - 1) as nat);
        let prev = spec_dda_iter(st, 0, dy, (k - 1) as nat);
        let ady = if dy >= 0 { dy } else { -dy };
        assert(!(prev.ax * ady < prev.ay * 0)) by (nonlinear_arith)
            requires
                prev.ax >= 0,
                ady >= 0,
        ;
    }
}


proof fn lemma_corridor_walk(g: Grid, px: int, py: int, y0: int, xj: int, r: int, max_dist: int, st: DdaState, fuel: nat)
    requires
        g.wf(),
        0 <= xj,
        0 <= r,
        xj + r < g.width,
        0 <= y0 < g.height,
        0 <= px <= COORD_MAX,
        0 <= py <= COORD_MAX,
        px <= (xj + 1) * SCALE,
        y0 * SCALE <= py,
        py < (y0 + 1) * SCALE,
        0 <= max_dist,
        forall|x: int| xj <= x < xj + r ==> (#[trigger] g.cells@[y0 * g.width + x]).kind == CellKind::Empty,
        g.cells@[y0 * g.width + (xj + r)].kind == CellKind::Solid,
        st.map_x == xj,
        st.map_y == y0,
        st.ax == (xj + 1) * SCALE - px,
        st.ay == (y0 + 1) * SCALE - py,
        0 <= st.t_num <= COORD_MAX,
        1 <= st.t_den <= SCALE,
        st.t_num * SCALE <= max_dist * st.t_den,
        (xj + r) * SCALE - px <= max_dist,
        fuel >= r + 1,
    ensures
        ({
            let res = spec_cast_from(g, px, py, SCALE as int, 0, SCALE as int, 0, max_dist, st, fuel);
            &&& res is Some
            &&& res->0.cell == y0 * g.width + (xj + r)
            &&& (r == 0 ==> res->0.perp.num == st.t_num * ((SCALE as int) * (SCALE as int))
                && res->0.perp.den == st.t_den && res->0.side == st.side
                && res->0.brightness == (if st.side == RaycastSide::X { 191u8 } else { 255u8 }))
            &&& (r >= 1 ==> res->0.perp.num == ((xj + r) * SCALE - px) * ((SCALE as int) * (SCALE as int))
                && res->0.perp.den == SCALE && res->0.side == RaycastSide::X
                && res->0.brightness == 191)
        }),
    decreases r,
{
    let sl = SCALE as int;
    let w = g.width as int;
    assert(!spec_beyond(st, sl, 0, max_dist)) by (nonlinear_arith)
        requires
            0 <= st.t_num,
            1 <= st.t_den,
            0 <= max_dist,
            st.t_num * (SCALE as int) <= max_dist * st.t_den,
            sl == SCALE as int,
    ;
    assert(y0 * w + (xj + r) < w * (g.height as int)) by (nonlinear_arith)
        requires
            0 <= y0 < (g.height as int),
            0 <= xj + r < w,
            0 < w,
    ;
    let idx = y0 * w + xj;
    assert(0 <= idx < g.cells.len()) by (nonlinear_arith)
        requires
            0 <= y0 < (g.height as int),
            0 <= xj < w,
            0 < w,
            g.cells.len() == w * (g.height as int),
            idx == y0 * w + xj,
    ;
    if r == 0 {
        assert(g.cells@[idx].kind == CellKind::Solid);
        assert(w * (g.height as int) <= 0x40000000) by (nonlinear_arith)
            requires
                0 < w <= MAX_DIM as int,
                0 < (g.height as int) <= MAX_DIM as int,
                MAX_DIM == 1024,
        ;
        proof_solid_fields(px, py, st, idx, max_dist);
    } else {
        assert(g.cells@[idx].kind == CellKind::Empty);
        let ady = 0int;
        assert(st.ax * ady == 0) by (nonlinear_arith)
            requires
                ady == 0,
        ;
        assert(st.ay * sl >= 1) by (nonlinear_arith)
            requires
                st.ay >= 1,
                sl >= 1,
        ;
        let nxt = spec_dda_step(st, sl, 0);
        assert(nxt.map_x == xj + 1 && nxt.map_y == y0);
        assert(nxt.ax == (xj + 2) * sl - px);
        assert(nxt.t_num == (xj + 1) * sl - px && nxt.t_den == sl);
        assert(nxt.t_num <= COORD_MAX);
        assert(nxt.t_num * SCALE <= max_dist * nxt.t_den) by (nonlinear_arith)
            requires
                nxt.t_num <= max_dist,
                nxt.t_den == SCALE as int,
                0 <= nxt.t_num,
                0 <= max_dist,
        ;
        lemma_corridor_walk(g, px, py, y0, xj + 1, r - 1, max_dist, nxt, (fuel - 1) as nat);
        assert(spec_cast_from(g, px, py, sl, 0, sl, 0, max_dist, st, fuel)
            == spec_cast_from(g, px, py, sl, 0, sl, 0, max_dist, nxt, (fuel - 1) as nat));
    }
}

proof fn proof_solid_fields(px: int, py: int, st: DdaState, idx: int, max_dist: int)
    requires
        0 <= st.t_num <= COORD_MAX,
        1 <= st.t_den <= SCALE,
        0 <= px <= COORD_MAX,
        0 <= py <= COORD_MAX,
        0 <= idx < 0x40000000,
    ensures
        ({
            let h = spec_solid_hit(px, py, SCALE as int, 0, SCALE as int, 0, st, idx);
            &&& h.cell == idx
            &&& h.perp.num == st.t_num * ((SCALE as int) * (SCALE as int))
            &&& h.perp.den == st.t_den
            &&& h.side == st.side
            &&& h.brightness == (if st.side == RaycastSide::X { 191u8 } else { 255u8 })
        }),
{
    let sl = SCALE as int;
    assert(sl * sl == 40960000) by (nonlinear_arith)
        requires
            sl == 6400,
    ;
    lemma_mul_bound(st.t_num, sl * sl, COORD_MAX as int, 0x3000000int);
}

/// Casting straight down a corridor of empty cells with an axis-aligned
/// ray parallel to the forward axis strikes the solid cell that ends the
/// corridor, and the reported distance is exact: the hit's `perp` value
/// equals the straight-line distance from the origin to the struck wall
/// (scaled by `SCALE * SCALE`), so a ray parallel to the view axis needs
/// no fisheye correction.
pub proof fn lemma_corridor_cast(g: Grid, px: int, py: int, x0: int, y0: int, k: int, max_dist: int)
    requires
        g.wf(),
        0 <= x0,
        0 <= y0 < g.height,
        1 <= k,
        x0 + k < g.width,
        x0 * SCALE <= px,
        px < (x0 + 1) * SCALE,
        y0 * SCALE <= py,
        py < (y0 + 1) * SCALE,
        forall|x: int| x0 <= x < x0 + k ==> (#[trigger] g.cells@[y0 * g.width + x]).kind == CellKind::Empty,
        g.cells@[y0 * g.width + (x0 + k)].kind == CellKind::Solid,
        (x0 + k) * SCALE - px <= max_dist,
        0 <= max_dist,
    ensures
        ({
            let res = spec_cast(g, px, py, SCALE as int, 0, SCALE as int, 0, max_dist);
            &&& res is Some
            &&& res->0.cell == y0 * g.width + (x0 + k)
            &&& res->0.perp.num == ((x0 + k) * SCALE - px) * ((SCALE as int) * (SCALE as int))
            &&& res->0.perp.den == SCALE
            &&& res->0.side == RaycastSide::X
            &&& res->0.brightness == 191
        }),
{
    let sl = SCALE as int;
    let w = g.width as int;
    assert(0 <= px) by (nonlinear_arith)
        requires
            0 <= x0,
            x0 * (SCALE as int) <= px,
            SCALE as int > 0,
    ;
    assert(px <= COORD_MAX && py <= COORD_MAX && 0 <= py) by (nonlinear_arith)
        requires
            px < (x0 + 1) * (SCALE as int),
            x0 + 1 <= w,
            w <= MAX_DIM as int,
            py < (y0 + 1) * (SCALE as int),
            y0 + 1 <= (g.height as int),
            (g.height as int) <= MAX_DIM as int,
            0 <= y0,
            y0 * (SCALE as int) <= py,
            COORD_MAX as int == (MAX_DIM as int) * (SCALE as int),
    ;
    assert(px <= w * sl) by (nonlinear_arith)
        requires
            px < (x0 + 1) * sl,
            x0 + 1 <= w,
            0 < sl,
    ;
    assert(py <= (g.height as int) * sl) by (nonlinear_arith)
        requires
            py < (y0 + 1) * sl,
            y0 + 1 <= (g.height as int),
            0 < sl,
    ;
    assert((x0 + 1) * sl == x0 * sl + sl) by (nonlinear_arith);
    assert((y0 + 1) * sl == y0 * sl + sl) by (nonlinear_arith);
    vstd::arithmetic::div_mod::lemma_fundamental_div_mod_converse(px, sl, x0, px - x0 * sl);
    vstd::arithmetic::div_mod::lemma_fundamental_div_mod_converse(py, sl, y0, py - y0 * sl);
    let st = spec_dda_init(px, py, sl, 0);
    assert(st.map_x == x0 && st.map_y == y0);
    assert(st.ax == (x0 + 1) * sl - px && st.ay == (y0 + 1) * sl - py);
    assert(st.t_num * SCALE <= max_dist * st.t_den) by (nonlinear_arith)
        requires
            st.t_num == 0,
            st.t_den == 1,
            0 <= max_dist,
    ;
    lemma_corridor_walk(g, px, py, y0, x0, k, max_dist, st, STEP_CAP as nat);
}


} // verus!
