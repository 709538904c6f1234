//! The tile grid: cells, their encoding, and the per-door state table.
//!
//! A map is a `width x height` grid of cells stored row-major, so the cell
//! at `(x, y)` lives at index `y * width + x`.  Door cells own mutable
//! animation state held in a separate table keyed by cell index; every
//! other part of a loaded map is immutable.

use vstd::prelude::*;
use crate::fixed::MAX_DIM;
use crate::door::{DoorState, door_wf, spec_step_door, spec_interact_door, step_door, interact_door};
use crate::collision::Segment;

verus! {

/// What a cell is.  Unknown kind bytes decode to `Empty`, so malformed map
/// data passes rays through rather than crashing.
#[derive(Clone, Copy, Debug, PartialEq, Eq, Structural)]
pub enum CellKind {
    Empty,
    Solid,
    Light,
    Door,
    ThinWall,
    ThickWall,
    SquarePillar,
    RoundPillar,
    Diagonal,
}

/// One grid cell: its kind, a small bitfield whose meaning depends on the
/// kind (orientation, door sub-style), and which texture it shows.
#[derive(Clone, Copy, Debug, PartialEq, Eq, Structural)]
pub struct Cell {
    pub kind: CellKind,
    pub flags: u8,
    pub texture_index: u8,
}

/// The byte encoding of cell kinds used by map images.
pub open spec fn spec_kind_from_byte(kind: u8) -> CellKind {
    if kind == 1 {
        CellKind::Solid
    } else if kind == 2 {
        CellKind::Light
    } else if kind == 3 {
        CellKind::Door
    } else if kind == 4 {
        CellKind::ThinWall
    } else if kind == 5 {
        CellKind::ThickWall
    } else if kind == 6 {
        CellKind::SquarePillar
    } else if kind == 7 {
        CellKind::RoundPillar
    } else if kind == 8 {
        CellKind::Diagonal
    } else {
        CellKind::Empty
    }
}

impl Cell {
    /// Build a cell from its encoded kind byte, flags and texture index.
    pub fn new(kind: u8, flags: u8, texture_index: u8) -> (c: Cell)
        ensures
            c.kind == spec_kind_from_byte(kind),
            c.flags == flags,
            c.texture_index == texture_index,
    {
        let k = if kind == 1 {
            CellKind::Solid
        } else if kind == 2 {
            CellKind::Light
        } else if kind == 3 {
            CellKind::Door
        } else if kind == 4 {
            CellKind::ThinWall
        } else if kind == 5 {
            CellKind::ThickWall
        } else if kind == 6 {
            CellKind::SquarePillar
        } else if kind == 7 {
            CellKind::RoundPillar
        } else if kind == 8 {
            CellKind::Diagonal
        } else {
            CellKind::Empty
        };
        Cell { kind: k, flags, texture_index }
    }
}

/// Row-major index of the cell at `(x, y)`.
pub open spec fn spec_coord_to_index(width: int, x: int, y: int) -> int {
    y * width + x
}

/// Coordinates of the cell at a row-major index.
pub open spec fn spec_index_to_coord(width: int, index: int) -> (int, int) {
    (index % width, index / width)
}

/// Indexing and coordinates are inverse on every in-bounds position.
pub proof fn lemma_index_coord_round_trip(width: int, x: int, y: int)
    requires
        0 < width,
        0 <= x < width,
        0 <= y,
    ensures
        spec_index_to_coord(width, spec_coord_to_index(width, x, y)) == (x, y),
{
    vstd::arithmetic::div_mod::lemma_fundamental_div_mod_converse(
        y * width + x,
        width,
        y,
        x,
    );
}

/// First door-table entry for a cell index, if any.
pub open spec fn spec_door_lookup(doors: Seq<(usize, DoorState)>, index: usize) -> Option<DoorState>
    decreases doors.len(),
{
    if doors.len() == 0 {
        None
    } else if doors[0].0 == index {
        Some(doors[0].1)
    } else {
        spec_door_lookup(doors.skip(1), index)
    }
}

/// If no entry in the first `k` matches, the lookup is decided by the rest.
proof fn lemma_door_lookup_skip(doors: Seq<(usize, DoorState)>, index: usize, k: int)
    requires
        0 <= k <= doors.len(),
        forall|j: int| 0 <= j < k ==> (#[trigger] doors[j]).0 != index,
    ensures
        spec_door_lookup(doors, index) == spec_door_lookup(doors.skip(k), index),
    decreases k,
{
    if k > 0 {
        assert forall|j: int| 0 <= j < k - 1 implies (#[trigger] doors.skip(1)[j]).0 != index by {
            assert(doors.skip(1)[j] == doors[j + 1]);
        }
        lemma_door_lookup_skip(doors.skip(1), index, k - 1);
        assert(doors.skip(1).skip(k - 1) =~= doors.skip(k));
        assert(doors[0].0 != index);
        assert(spec_door_lookup(doors, index) == spec_door_lookup(doors.skip(1), index));
    } else {
        assert(doors.skip(0) =~= doors);
    }
}

/// A table that holds an entry for an index resolves it.
pub proof fn lemma_door_lookup_some(doors: Seq<(usize, DoorState)>, index: usize)
    requires
        exists|i: int| 0 <= i < doors.len() && (#[trigger] doors[i]).0 == index,
    ensures
        spec_door_lookup(doors, index) is Some,
    decreases doors.len(),
{
    if doors.len() > 0 && doors[0].0 != index {
        let i = choose|i: int| 0 <= i < doors.len() && (#[trigger] doors[i]).0 == index;
        assert(doors.skip(1)[i - 1] == doors[i]);
        lemma_door_lookup_some(doors.skip(1), index);
    }
}

/// A matching entry at position `k`, after `k` misses, decides the lookup.
proof fn lemma_door_lookup_found(doors: Seq<(usize, DoorState)>, index: usize, k: int)
    requires
        0 <= k < doors.len(),
        forall|j: int| 0 <= j < k ==> (#[trigger] doors[j]).0 != index,
        doors[k].0 == index,
    ensures
        spec_door_lookup(doors, index) == Some(doors[k].1),
{
    lemma_door_lookup_skip(doors, index, k);
    assert(doors.skip(k)[0] == doors[k]);
}

/// The tile grid with its door table, per-cell brightness lookup and the
/// level's static collision segments.
pub struct Grid {
    pub cells: Vec<Cell>,
    pub width: usize,
    pub height: usize,
    pub doors: Vec<(usize, DoorState)>,
    pub lightmap: Vec<u8>,
    pub collision: Vec<Segment>,
}

impl Grid {
    /// A loaded map: positive dimensions within bounds, a full grid, a
    /// brightness entry per cell, and a door-table entry exactly for the
    /// door cells, in strictly increasing index order.
    pub open spec fn wf(&self) -> bool {
        &&& 0 < self.width <= MAX_DIM
        &&& 0 < self.height <= MAX_DIM
        &&& self.cells.len() == self.width * self.height
        &&& self.lightmap.len() == self.cells.len()
        &&& forall|i: int| 0 <= i < self.doors.len() ==> {
            &&& (#[trigger] self.doors[i]).0 < self.cells.len()
            &&& self.cells[self.doors[i].0 as int].kind == CellKind::Door
            &&& door_wf(self.doors[i].1)
        }
        &&& forall|i: int, j: int|
            0 <= i < j < self.doors.len() ==> (#[trigger] self.doors[i]).0 < (#[trigger] self.doors[j]).0
        &&& forall|c: int|
            0 <= c < self.cells.len() && (#[trigger] self.cells[c]).kind == CellKind::Door
                ==> exists|i: int| 0 <= i < self.doors.len() && (#[trigger] self.doors[i]).0 == c
    }

    /// Row-major index of the in-bounds cell at `(x, y)`.
    pub fn coord_to_index(&self, x: &usize, y: &usize) -> (index: usize)
        requires
            self.wf(),
            *x < self.width,
            *y < self.height,
        ensures
            index == spec_coord_to_index(self.width as int, *x as int, *y as int),
            index < self.cells.len(),
    {
        proof {
            assert((*y as int) * (self.width as int) + (*x as int)
                < (self.height as int) * (self.width as int)) by (nonlinear_arith)
                requires
                    (*x as int) < (self.width as int),
                    (*y as int) < (self.height as int),
                    0 <= (*x as int),
                    0 <= (*y as int),
            ;
        }
        y * self.width + x
    }

    /// Coordinates of a cell index; the inverse of [`Grid::coord_to_index`].
    pub fn index_to_coord(&self, index: usize) -> (r: (usize, usize))
        requires
            self.wf(),
        ensures
            (r.0 as int, r.1 as int) == spec_index_to_coord(self.width as int, index as int),
    {
        (index % self.width, index / self.width)
    }

    /// The cell at an in-bounds index.
    pub fn get(&self, index: usize) -> (c: &Cell)
        requires
            index < self.cells.len(),
        ensures
            *c == self.cells[index as int],
    {
        &self.cells[index]
    }

    /// The door state recorded for a cell index, if that cell is a door.
    pub fn door_state(&self, index: usize) -> (r: Option<DoorState>)
        ensures
            r == spec_door_lookup(self.doors@, index),
            self.wf() ==> (r is Some ==> door_wf(r->0)),
    {
        let n = self.doors.len();
        let mut k: usize = 0;
        while k < n
            invariant
                n == self.doors.len(),
                0 <= k <= n,
                forall|j: int| 0 <= j < k ==> (#[trigger] self.doors@[j]).0 != index,
            decreases n - k,
        {
            let (ci, st) = self.doors[k];
            if ci == index {
                proof {
                    lemma_door_lookup_found(self.doors@, index, k as int);
                }
                return Some(st);
            }
            k = k + 1;
        }
        proof {
            lemma_door_lookup_skip(self.doors@, index, n as int);
        }
        None
    }

    /// Advance every door by the elapsed time `dt`; nothing else changes.
    pub fn step_doors(&mut self, dt: i64)
        requires
            old(self).wf(),
            0 <= dt,
        ensures
            final(self).wf(),
            final(self).cells == old(self).cells,
            final(self).width == old(self).width,
            final(self).height == old(self).height,
            final(self).lightmap == old(self).lightmap,
            final(self).collision == old(self).collision,
            final(self).doors.len() == old(self).doors.len(),
            forall|i: int| 0 <= i < final(self).doors.len() ==> #[trigger] final(self).doors[i]
                == (old(self).doors[i].0, spec_step_door(old(self).doors[i].1, dt)),
    {
        let n = self.doors.len();
        let mut k: usize = 0;
        while k < n
            invariant
                0 <= k <= n,
                0 <= dt,
                n == self.doors.len(),
                old(self).wf(),
                self.doors.len() == old(self).doors.len(),
                self.cells == old(self).cells,
                self.width == old(self).width,
                self.height == old(self).height,
                self.lightmap == old(self).lightmap,
                self.collision == old(self).collision,
                forall|i: int| k <= i < n ==> #[trigger] self.doors[i] == old(self).doors[i],
                forall|i: int| 0 <= i < k ==> #[trigger] self.doors[i]
                    == (old(self).doors[i].0, spec_step_door(old(self).doors[i].1, dt)),
                forall|i: int| 0 <= i < k ==> door_wf((#[trigger] self.doors[i]).1),
            decreases n - k,
        {
            let (ci, st) = self.doors[k];
            let st2 = step_door(st, dt);
            self.doors.set(k, (ci, st2));
            k = k + 1;
        }
        proof {
            assert forall|c: int|
                0 <= c < self.cells.len() && (#[trigger] self.cells[c]).kind == CellKind::Door
                implies exists|i: int|
                    0 <= i < self.doors.len() && (#[trigger] self.doors[i]).0 == c by {
                let i = choose|i: int|
                    0 <= i < old(self).doors.len() && (#[trigger] old(self).doors[i]).0 == c;
                assert(self.doors[i].0 == c);
            }
        }
    }

    /// Apply the interact trigger to the door at `index`; a cell without a
    /// door entry is left untouched.
    pub fn interact(&mut self, index: usize)
        requires
            old(self).wf(),
        ensures
            final(self).wf(),
            final(self).cells == old(self).cells,
            final(self).width == old(self).width,
            final(self).height == old(self).height,
            final(self).lightmap == old(self).lightmap,
            final(self).collision == old(self).collision,
            final(self).doors.len() == old(self).doors.len(),
            forall|i: int| 0 <= i < final(self).doors.len() ==> #[trigger] final(self).doors[i] == (
                if old(self).doors[i].0 == index {
                    (old(self).doors[i].0, spec_interact_door(old(self).doors[i].1))
                } else {
                    old(self).doors[i]
                }
            ),
    {
        let n = self.doors.len();
        let mut k: usize = 0;
        while k < n
            invariant
                0 <= k <= n,
                n == self.doors.len(),
                old(self).wf(),
                self.doors.len() == old(self).doors.len(),
                self.cells == old(self).cells,
                self.width == old(self).width,
                self.height == old(self).height,
                self.lightmap == old(self).lightmap,
                self.collision == old(self).collision,
                forall|i: int| k <= i < n ==> #[trigger] self.doors[i] == old(self).doors[i],
                forall|i: int| 0 <= i < k ==> #[trigger] self.doors[i] == (
                    if old(self).doors[i].0 == index {
                        (old(self).doors[i].0, spec_interact_door(old(self).doors[i].1))
                    } else {
                        old(self).doors[i]
                    }
                ),
                forall|i: int| 0 <= i < k ==> door_wf((#[trigger] self.doors[i]).1),
            decreases n - k,
        {
            let (ci, st) = self.doors[k];
            if ci == index {
                let st2 = interact_door(st);
                self.doors.set(k, (ci, st2));
            }
            k = k + 1;
        }
        proof {
            assert forall|c: int|
                0 <= c < self.cells.len() && (#[trigger] self.cells[c]).kind == CellKind::Door
                implies exists|i: int|
                    0 <= i < self.doors.len() && (#[trigger] self.doors[i]).0 == c by {
                let i = choose|i: int|
                    0 <= i < old(self).doors.len() && (#[trigger] old(self).doors[i]).0 == c;
                assert(self.doors[i].0 == c);
            }
        }
    }
}

/// The color table map images use, one color per cell kind.
pub open spec fn spec_cell_from_rgb(r: u8, g: u8, b: u8) -> Cell {
    if r == 255 && g == 255 && b == 255 {
        Cell { kind: CellKind::Solid, flags: 0, texture_index: 0 }
    } else if r == 255 && g == 255 && b == 0 {
        Cell { kind: CellKind::Light, flags: 252, texture_index: 0 }
    } else if r == 127 && g == 81 && b == 25 {
        Cell { kind: CellKind::Door, flags: 0, texture_index: 1 }
    } else if r == 204 && g == 130 && b == 40 {
        Cell { kind: CellKind::Door, flags: 3, texture_index: 1 }
    } else if r == 119 && g == 119 && b == 119 {
        Cell { kind: CellKind::Door, flags: 4, texture_index: 2 }
    } else if r == 177 && g == 255 && b == 61 {
        Cell { kind: CellKind::ThinWall, flags: 1, texture_index: 3 }
    } else if r == 188 && g == 96 && b == 188 {
        Cell { kind: CellKind::ThickWall, flags: 0, texture_index: 0 }
    } else if r == 255 && g == 128 && b == 255 {
        Cell { kind: CellKind::ThickWall, flags: 1, texture_index: 0 }
    } else if r == 0 && g == 174 && b == 255 {
        Cell { kind: CellKind::SquarePillar, flags: 0, texture_index: 0 }
    } else if r == 0 && g == 0 && b == 255 {
        Cell { kind: CellKind::RoundPillar, flags: 0, texture_index: 0 }
    } else if r == 0 && g == 128 && b == 0 {
        Cell { kind: CellKind::Diagonal, flags: 0, texture_index: 0 }
    } else if r == 0 && g == 255 && b == 0 {
        Cell { kind: CellKind::Diagonal, flags: 1, texture_index: 0 }
    } else {
        Cell { kind: CellKind::Empty, flags: 0, texture_index: 0 }
    }
}

/// Decode one map-image pixel into a cell.
pub fn cell_from_rgb(r: u8, g: u8, b: u8) -> (c: Cell)
    ensures
        c == spec_cell_from_rgb(r, g, b),
{
    if r == 255 && g == 255 && b == 255 {
        Cell::new(1, 0, 0)
    } else if r == 255 && g == 255 && b == 0 {
        Cell::new(2, 252, 0)
    } else if r == 127 && g == 81 && b == 25 {
        Cell::new(3, 0, 1)
    } else if r == 204 && g == 130 && b == 40 {
        Cell::new(3, 3, 1)
    } else if r == 119 && g == 119 && b == 119 {
        Cell::new(3, 4, 2)
    } else if r == 177 && g == 255 && b == 61 {
        Cell::new(4, 1, 3)
    } else if r == 188 && g == 96 && b == 188 {
        Cell::new(5, 0, 0)
    } else if r == 255 && g == 128 && b == 255 {
        Cell::new(5, 1, 0)
    } else if r == 0 && g == 174 && b == 255 {
        Cell::new(6, 0, 0)
    } else if r == 0 && g == 0 && b == 255 {
        Cell::new(7, 0, 0)
    } else if r == 0 && g == 128 && b == 0 {
        Cell::new(8, 0, 0)
    } else if r == 0 && g == 255 && b == 0 {
        Cell::new(8, 1, 0)
    } else {
        Cell::new(0, 0, 0)
    }
}

/// Brightness levels spread from each light by flood fill: every cell
/// keeps the highest level any light gives it, the level drops by one per
/// ring, and solid cells block the spread.
fn compute_lightmap(cells: &Vec<Cell>, width: usize, height: usize) -> (lm: Vec<u8>)
    requires
        0 < width <= MAX_DIM,
        0 < height <= MAX_DIM,
        cells.len() == width * height,
    ensures
        lm.len() == cells.len(),
        forall|i: int| 0 <= i < lm@.len() ==> #[trigger] lm@[i] <= 16,
        forall|i: int| 0 <= i < cells.len()
            ==> (#[trigger] cells@[i]).kind == CellKind::Light ==> lm@[i] == 16,
        forall|i: int| 0 <= i < cells.len()
            ==> (#[trigger] cells@[i]).kind == CellKind::Solid ==> lm@[i] == 0,
{
    let n = cells.len();
    let mut lm: Vec<u8> = Vec::new();
    let mut z: usize = 0;
    while z < n
        invariant
            0 <= z <= n,
            lm@.len() == z,
            forall|i: int| 0 <= i < z ==> #[trigger] lm@[i] == 0,
        decreases n - z,
    {
        lm.push(0);
        z = z + 1;
    }
    let mut lp: usize = 0;
    while lp < n
        invariant
            0 < width <= MAX_DIM,
            0 < height <= MAX_DIM,
            cells.len() == width * height,
            n == cells.len(),
            0 <= lp <= n,
            lm@.len() == n,
            forall|i: int| 0 <= i < n ==> #[trigger] lm@[i] <= 16,
            forall|i: int| 0 <= i < lp
                ==> (#[trigger] cells@[i]).kind == CellKind::Light ==> lm@[i] == 16,
            forall|i: int| 0 <= i < n
                ==> (#[trigger] cells@[i]).kind == CellKind::Solid ==> lm@[i] == 0,
        decreases n - lp,
    {
        let is_light = match cells[lp].kind {
            CellKind::Light => true,
            _ => false,
        };
        if is_light {
            lm.set(lp, 16);
            let mut visited: Vec<bool> = Vec::new();
            let mut z2: usize = 0;
            while z2 < n
                invariant
                    0 <= z2 <= n,
                    visited@.len() == z2,
                decreases n - z2,
            {
                visited.push(false);
                z2 = z2 + 1;
            }
            let mut frontier: Vec<usize> = Vec::new();
            frontier.push(lp);
            let mut level: u8 = 16;
            while level > 0
                invariant
                    0 < width <= MAX_DIM,
                    0 < height <= MAX_DIM,
                    cells.len() == width * height,
                    n == cells.len(),
                    lp < n,
                    lm@.len() == n,
                    visited@.len() == n,
                    level <= 16,
                    forall|i: int| 0 <= i < frontier@.len() ==> #[trigger] frontier@[i] < n
                        && cells@[frontier@[i] as int].kind != CellKind::Solid,
                    forall|i: int| 0 <= i < n ==> #[trigger] lm@[i] <= 16,
                    lm@[lp as int] == 16,
                    forall|i: int| 0 <= i < lp
                        ==> (#[trigger] cells@[i]).kind == CellKind::Light ==> lm@[i] == 16,
                    forall|i: int| 0 <= i < n
                        ==> (#[trigger] cells@[i]).kind == CellKind::Solid ==> lm@[i] == 0,
                decreases level,
            {
                let mut next: Vec<usize> = Vec::new();
                let fl = frontier.len();
                let mut fi: usize = 0;
                while fi < fl
                    invariant
                        0 < width <= MAX_DIM,
                        0 < height <= MAX_DIM,
                        cells.len() == width * height,
                        n == cells.len(),
                        lp < n,
                        lm@.len() == n,
                        visited@.len() == n,
                        0 < level <= 16,
                        fl == frontier@.len(),
                        0 <= fi <= fl,
                        forall|i: int| 0 <= i < frontier@.len() ==> #[trigger] frontier@[i] < n
                            && cells@[frontier@[i] as int].kind != CellKind::Solid,
                        forall|i: int| 0 <= i < next@.len() ==> #[trigger] next@[i] < n
                            && cells@[next@[i] as int].kind != CellKind::Solid,
                        forall|i: int| 0 <= i < n ==> #[trigger] lm@[i] <= 16,
                        lm@[lp as int] == 16,
                        forall|i: int| 0 <= i < lp
                            ==> (#[trigger] cells@[i]).kind == CellKind::Light ==> lm@[i] == 16,
                        forall|i: int| 0 <= i < n
                            ==> (#[trigger] cells@[i]).kind == CellKind::Solid ==> lm@[i] == 0,
                    decreases fl - fi,
                {
                    let index = frontier[fi];
                    if !visited[index] {
                        visited.set(index, true);
                        if lm[index] < level {
                            lm.set(index, level);
                        }
                        let col = index % width;
                        let row = index / width;
                        proof {
                            vstd::arithmetic::div_mod::lemma_fundamental_div_mod(index as int, width as int);
                            vstd::arithmetic::div_mod::lemma_mod_division_less_than_divisor(index as int, width as int);
                            assert((index as int) / (width as int) < height as int) by (nonlinear_arith)
                                requires
                                    index as int == (width as int) * ((index as int) / (width as int))
                                        + (index as int) % (width as int),
                                    0 <= (index as int) % (width as int) < width as int,
                                    (index as int) < (width as int) * (height as int),
                                    0 < width as int,
                                    0 < height as int,
                            ;
                        }
                        if col != width - 1 {
                            proof {
                                assert(index + 1 < n) by (nonlinear_arith)
                                    requires
                                        index as int == (width as int) * (row as int) + (col as int),
                                        0 <= (col as int) <= (width as int) - 2,
                                        (row as int) <= (height as int) - 1,
                                        n == (width as int) * (height as int),
                                        0 < (width as int),
                                        0 < (height as int),
                                ;
                            }
                            let nb = index + 1;
                            if !matches!(cells[nb].kind, CellKind::Solid) {
                                next.push(nb);
                            }
                        }
                        if col != 0 {
                            let nb = index - 1;
                            if !matches!(cells[nb].kind, CellKind::Solid) {
                                next.push(nb);
                            }
                        }
                        if row != height - 1 {
                            proof {
                                assert(index + width < n) by (nonlinear_arith)
                                    requires
                                        index as int == (width as int) * (row as int) + (col as int),
                                        0 <= (col as int) < (width as int),
                                        (row as int) <= (height as int) - 2,
                                        n == (width as int) * (height as int),
                                        0 < (width as int),
                                        0 < (height as int),
                                ;
                            }
                            let nb = index + width;
                            if !matches!(cells[nb].kind, CellKind::Solid) {
                                next.push(nb);
                            }
                        }
                        if row != 0 {
                            proof {
                                assert(index >= width) by (nonlinear_arith)
                                    requires
                                        index as int == (width as int) * (row as int) + (col as int),
                                        0 <= (col as int),
                                        1 <= (row as int),
                                        0 < (width as int),
                                ;
                            }
                            let nb = index - width;
                            if !matches!(cells[nb].kind, CellKind::Solid) {
                                next.push(nb);
                            }
                        }
                    }
                    fi = fi + 1;
                }
                frontier = next;
                level = level - 1;
            }
        }
        lp = lp + 1;
    }
    lm
}

/// The static collision boundary of the demonstration level, in scaled
/// world coordinates.
pub open spec fn spec_demo_segments() -> Seq<Segment> {
    seq![
        Segment { ax: 32000, ay: 19200, bx: 32000, by: 12800 },
        Segment { ax: 32000, ay: 12800, bx: 32000, by: 6400 },
        Segment { ax: 32000, ay: 6400, bx: 25600, by: 6400 },
        Segment { ax: 25600, ay: 6400, bx: 19200, by: 6400 },
        Segment { ax: 19200, ay: 6400, bx: 12800, by: 6400 },
        Segment { ax: 12800, ay: 6400, bx: 6400, by: 12800 },
        Segment { ax: 6400, ay: 12800, bx: 6400, by: 19200 },
        Segment { ax: 6400, ay: 19200, bx: 6400, by: 25600 },
        Segment { ax: 6400, ay: 25600, bx: 12800, by: 32000 },
        Segment { ax: 12800, ay: 32000, bx: 19200, by: 38400 },
        Segment { ax: 19200, ay: 38400, bx: 25600, by: 38400 },
        Segment { ax: 25600, ay: 38400, bx: 25600, by: 44800 },
        Segment { ax: 32000, ay: 44800, bx: 32000, by: 38400 },
        Segment { ax: 32000, ay: 38400, bx: 38400, by: 38400 },
        Segment { ax: 12800, ay: 12800, bx: 12800, by: 12800 },
        Segment { ax: 20800, ay: 14400, bx: 20800, by: 17600 },
        Segment { ax: 24000, ay: 14400, bx: 24000, by: 17600 },
        Segment { ax: 20800, ay: 14400, bx: 24000, by: 14400 },
        Segment { ax: 20800, ay: 17600, bx: 24000, by: 17600 },
    ]
}

impl Grid {
    /// Recompute the per-cell brightness lookup from the light cells.
    pub fn calculate_lightmap(&mut self)
        requires
            old(self).wf(),
        ensures
            final(self).wf(),
            final(self).cells == old(self).cells,
            final(self).width == old(self).width,
            final(self).height == old(self).height,
            final(self).doors == old(self).doors,
            final(self).collision == old(self).collision,
            final(self).lightmap.len() == final(self).cells.len(),
            forall|i: int| 0 <= i < final(self).lightmap@.len()
                ==> #[trigger] final(self).lightmap@[i] <= 16,
            forall|i: int| 0 <= i < final(self).cells.len()
                ==> (#[trigger] final(self).cells@[i]).kind == CellKind::Light
                    ==> final(self).lightmap@[i] == 16,
            forall|i: int| 0 <= i < final(self).cells.len()
                ==> (#[trigger] final(self).cells@[i]).kind == CellKind::Solid
                    ==> final(self).lightmap@[i] == 0,
    {
        let lm = compute_lightmap(&self.cells, self.width, self.height);
        self.lightmap = lm;
    }

    /// Install the demonstration level's static collision segments.
    pub fn calculate_collision(&mut self)
        requires
            old(self).wf(),
        ensures
            final(self).wf(),
            final(self).cells == old(self).cells,
            final(self).width == old(self).width,
            final(self).height == old(self).height,
            final(self).doors == old(self).doors,
            final(self).lightmap == old(self).lightmap,
            final(self).collision@ == spec_demo_segments(),
    {
        let mut v: Vec<Segment> = Vec::new();
        v.push(Segment { ax: 32000, ay: 19200, bx: 32000, by: 12800 });
        v.push(Segment { ax: 32000, ay: 12800, bx: 32000, by: 6400 });
        v.push(Segment { ax: 32000, ay: 6400, bx: 25600, by: 6400 });
        v.push(Segment { ax: 25600, ay: 6400, bx: 19200, by: 6400 });
        v.push(Segment { ax: 19200, ay: 6400, bx: 12800, by: 6400 });
        v.push(Segment { ax: 12800, ay: 6400, bx: 6400, by: 12800 });
        v.push(Segment { ax: 6400, ay: 12800, bx: 6400, by: 19200 });
        v.push(Segment { ax: 6400, ay: 19200, bx: 6400, by: 25600 });
        v.push(Segment { ax: 6400, ay: 25600, bx: 12800, by: 32000 });
        v.push(Segment { ax: 12800, ay: 32000, bx: 19200, by: 38400 });
        v.push(Segment { ax: 19200, ay: 38400, bx: 25600, by: 38400 });
        v.push(Segment { ax: 25600, ay: 38400, bx: 25600, by: 44800 });
        v.push(Segment { ax: 32000, ay: 44800, bx: 32000, by: 38400 });
        v.push(Segment { ax: 32000, ay: 38400, bx: 38400, by: 38400 });
        v.push(Segment { ax: 12800, ay: 12800, bx: 12800, by: 12800 });
        v.push(Segment { ax: 20800, ay: 14400, bx: 20800, by: 17600 });
        v.push(Segment { ax: 24000, ay: 14400, bx: 24000, by: 17600 });
        v.push(Segment { ax: 20800, ay: 14400, bx: 24000, by: 14400 });
        v.push(Segment { ax: 20800, ay: 17600, bx: 24000, by: 17600 });
        proof {
            assert(v@ =~= spec_demo_segments());
        }
        self.collision = v;
    }

    /// Build a grid from a decoded map image: one cell per pixel in
    /// row-major order, a closed door for every door cell, the brightness
    /// lookup filled in, and the level's collision boundary installed.
    pub fn from_pixels(width: usize, height: usize, rgb: &Vec<u8>) -> (g: Grid)
        requires
            0 < width <= MAX_DIM,
            0 < height <= MAX_DIM,
            rgb.len() == width * height * 3,
        ensures
            g.wf(),
            g.width == width,
            g.height == height,
            g.cells.len() == width * height,
            forall|i: int| 0 <= i < g.cells.len() ==> #[trigger] g.cells@[i]
                == spec_cell_from_rgb(rgb@[3 * i], rgb@[3 * i + 1], rgb@[3 * i + 2]),
            forall|i: int| 0 <= i < g.doors.len()
                ==> (#[trigger] g.doors@[i]).1 == DoorState::Closed,
            g.collision@ == spec_demo_segments(),
    {
        let n = width * height;
        proof {
            assert(n * 3 == width * height * 3);
        }
        let mut cells: Vec<Cell> = Vec::new();
        let mut doors: Vec<(usize, DoorState)> = Vec::new();
        let mut i: usize = 0;
        while i < n
            invariant
                0 < width <= MAX_DIM,
                0 < height <= MAX_DIM,
                n == width * height,
                rgb.len() == width * height * 3,
                0 <= i <= n,
                cells@.len() == i,
                forall|j: int| 0 <= j < i ==> #[trigger] cells@[j]
                    == spec_cell_from_rgb(rgb@[3 * j], rgb@[3 * j + 1], rgb@[3 * j + 2]),
                forall|j: int| 0 <= j < doors@.len() ==> {
                    &&& (#[trigger] doors@[j]).0 < i
                    &&& cells@[doors@[j].0 as int].kind == CellKind::Door
                    &&& doors@[j].1 == DoorState::Closed
                },
                forall|j: int, k: int|
                    0 <= j < k < doors@.len()
                        ==> (#[trigger] doors@[j]).0 < (#[trigger] doors@[k]).0,
                forall|c: int| 0 <= c < i && (#[trigger] cells@[c]).kind == CellKind::Door
                    ==> exists|j: int| 0 <= j < doors@.len() && (#[trigger] doors@[j]).0 == c,
            decreases n - i,
        {
            proof {
                assert(3 * (i as int) + 2 < rgb.len()) by (nonlinear_arith)
                    requires
                        (i as int) < n as int,
                        n as int == (width as int) * (height as int),
                        rgb.len() == (width as int) * (height as int) * 3,
                ;
            }
            let c = cell_from_rgb(rgb[3 * i], rgb[3 * i + 1], rgb[3 * i + 2]);
            let ghost doors0 = doors@;
            let ghost cells0 = cells@;
            let is_door = match c.kind {
                CellKind::Door => true,
                _ => false,
            };
            if is_door {
                doors.push((i, DoorState::Closed));
            }
            cells.push(c);
            proof {
                assert(cells@[i as int] == c);
                assert forall|cc: int|
                    0 <= cc < i + 1 && (#[trigger] cells@[cc]).kind == CellKind::Door
                    implies exists|j: int|
                        0 <= j < doors@.len() && (#[trigger] doors@[j]).0 == cc by {
                    if cc == i {
                        assert(is_door);
                        assert(doors@[doors@.len() - 1].0 == cc);
                    } else {
                        assert(cells@[cc] == cells0[cc]);
                        let j = choose|j: int| 0 <= j < doors0.len() && (#[trigger] doors0[j]).0 == cc;
                        assert(doors@[j] == doors0[j]);
                        assert(doors@[j].0 == cc);
                    }
                }
            }
            i = i + 1;
        }
        let lm = compute_lightmap(&cells, width, height);
        let mut g = Grid {
            cells,
            width,
            height,
            doors,
            lightmap: lm,
            collision: Vec::new(),
        };
        g.calculate_collision();
        g
    }
}

} // verus!
