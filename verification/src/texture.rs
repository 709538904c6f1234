//! Texture storage.
//!
//! A texture is RGB data, three bytes per pixel.  Decoded images arrive in
//! row-major order; rendering reads whole columns, so the data is stored
//! as a one-dimensional array of columns instead, which the rotation here
//! produces byte-exactly.

use vstd::prelude::*;
use crate::map::lemma_index_coord_round_trip;

verus! {

/// An RGB texture stored column-major: the pixel at column `c`, row `r`
/// begins at byte `(c * height + r) * 3`.
pub struct Texture {
    pub data: Vec<u8>,
    pub width: usize,
    pub height: usize,
}

impl Texture {
    pub open spec fn wf(&self) -> bool {
        &&& 0 < self.width <= 4096
        &&& 0 < self.height <= 4096
        &&& self.data.len() == self.width * self.height * 3
    }

    /// Wrap already column-major data.
    pub fn new(width: usize, height: usize, data: Vec<u8>) -> (t: Texture)
        requires
            0 < width <= 4096,
            0 < height <= 4096,
            data.len() == width * height * 3,
        ensures
            t.wf(),
            t.width == width,
            t.height == height,
            t.data == data,
    {
        Texture { data, width, height }
    }
}

/// Turn row-major RGB data into column-major order: the pixel that sat at
/// row `r`, column `c` moves to position `c * height + r`, bytes intact.
pub fn rotate_to_columns(data: &Vec<u8>, width: usize, height: usize) -> (r: Vec<u8>)
    requires
        0 < width <= 4096,
        0 < height <= 4096,
        data.len() == width * height * 3,
    ensures
        r.len() == data.len(),
        forall|c: int, rw: int, k: int|
            0 <= c < width && 0 <= rw < height && 0 <= k < 3
                ==> r@[(c * height + rw) * 3 + k] == #[trigger] data@[(rw * width + c) * 3 + k],
{
    let n = width * height;
    let len = data.len();
    let mut out: Vec<u8> = Vec::new();
    let mut z: usize = 0;
    while z < len
        invariant
            0 <= z <= len,
            out@.len() == z,
        decreases len - z,
    {
        out.push(0);
        z = z + 1;
    }
    let mut i: usize = 0;
    while i < n
        invariant
            0 < width <= 4096,
            0 < height <= 4096,
            n == width * height,
            len == data.len(),
            data.len() == width * height * 3,
            out@.len() == len,
            0 <= i <= n,
            forall|j: int, k: int|
                0 <= j < i && 0 <= k < 3
                    ==> out@[((j % (width as int)) * height + j / (width as int)) * 3 + k]
                        == #[trigger] data@[j * 3 + k],
        decreases n - i,
    {
        let column = i % width;
        let row = i / width;
        proof {
            vstd::arithmetic::div_mod::lemma_fundamental_div_mod(i as int, width as int);
            vstd::arithmetic::div_mod::lemma_mod_division_less_than_divisor(i as int, width as int);
            assert((i as int) / (width as int) < height as int && 3 * (i as int) + 2 < len
                && ((column as int) * (height as int) + (row as int)) * 3 + 2 < len) by (nonlinear_arith)
                requires
                    i as int == (width as int) * ((i as int) / (width as int)) + (i as int) % (width as int),
                    0 <= ((i as int) % (width as int)) < (width as int),
                    (i as int) < (width as int) * (height as int),
                    0 < (width as int),
                    0 < (height as int),
                    len == (width as int) * (height as int) * 3,
                    column as int == (i as int) % (width as int),
                    row as int == (i as int) / (width as int),
            ;
        }
        let base: usize = (column * height + row) * 3;
        out.set(base, data[3 * i]);
        out.set(base + 1, data[3 * i + 1]);
        out.set(base + 2, data[3 * i + 2]);
        proof {
            assert forall|j: int, k: int|
                0 <= j < i + 1 && 0 <= k < 3
                implies out@[((j % (width as int)) * height + j / (width as int)) * 3 + k]
                    == #[trigger] data@[j * 3 + k] by {
                let wi = width as int;
                let hi = height as int;
                let cj = j % wi;
                let rj = j / wi;
                vstd::arithmetic::div_mod::lemma_fundamental_div_mod(j, wi);
                vstd::arithmetic::div_mod::lemma_mod_division_less_than_divisor(j, wi);
                if j < i {
                    assert(0 <= rj < hi) by (nonlinear_arith)
                        requires
                            j == wi * rj + cj,
                            0 <= cj < wi,
                            0 <= j,
                            j < wi * hi,
                            0 < wi,
                            0 < hi,
                    ;
                    assert(cj * hi + rj != (column as int) * hi + (row as int)) by (nonlinear_arith)
                        requires
                            j == wi * rj + cj,
                            0 <= cj < wi,
                            i as int == wi * (row as int) + (column as int),
                            0 <= (column as int) < wi,
                            0 <= rj < hi,
                            (row as int) < hi,
                            j != i as int,
                            0 < wi,
                            0 < hi,
                    ;
                    assert(0 <= cj * hi + rj && (cj * hi + rj) * 3 + 2 < len) by (nonlinear_arith)
                        requires
                            0 <= cj < wi,
                            0 <= rj < hi,
                            len == wi * hi * 3,
                            0 < wi,
                            0 < hi,
                    ;
                    assert((cj * hi + rj) * 3 + k != (column as int * hi + row as int) * 3
                        && (cj * hi + rj) * 3 + k != (column as int * hi + row as int) * 3 + 1
                        && (cj * hi + rj) * 3 + k != (column as int * hi + row as int) * 3 + 2
                        || cj * hi + rj == column as int * hi + row as int) by (nonlinear_arith)
                        requires
                            0 <= k < 3,
                    ;
                } else {
                    assert(cj == column as int && rj == row as int) by {
                        vstd::arithmetic::div_mod::lemma_fundamental_div_mod_converse(
                            i as int, wi, row as int, column as int);
                    }
                }
            }
        }
        i = i + 1;
    }
    proof {
        assert forall|c: int, rw: int, k: int|
            0 <= c < width && 0 <= rw < height && 0 <= k < 3
            implies out@[(c * (height as int) + rw) * 3 + k]
                == #[trigger] data@[(rw * (width as int) + c) * 3 + k] by {
            let wi = width as int;
            let hi = height as int;
            let j = rw * wi + c;
            assert(0 <= j < n) by (nonlinear_arith)
                requires
                    0 <= c < wi,
                    0 <= rw < hi,
                    j == rw * wi + c,
                    n == wi * hi,
                    0 < wi,
                    0 < hi,
            ;
            lemma_index_coord_round_trip(wi, c, rw);
            assert(j % wi == c && j / wi == rw);
        }
    }
    out
}

} // verus!
