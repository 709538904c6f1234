//! Small verified drawing helpers for the RGBA frame buffer.
//!
//! The frame buffer is a flat `SCREEN_WIDTH x SCREEN_HEIGHT` array of
//! 4-byte RGBA pixels; the pixel at `(x, y)` begins at byte
//! `spec_pixel_byte(x, y, 0)`.

use vstd::prelude::*;

verus! {

/// Frame buffer width in pixels.
pub const SCREEN_WIDTH: usize = 480;

/// Frame buffer height in pixels.
pub const SCREEN_HEIGHT: usize = 240;

/// Byte position of color channel `k` of the pixel at `(x, y)`.
pub open spec fn spec_pixel_byte(x: int, y: int, k: int) -> int {
    (x + y * 480) * 4 + k
}

/// Byte `p` lies in the fully painted rows `y0..y` of the rectangle.
pub open spec fn spec_in_rows(p: int, x0: int, x1: int, y0: int, y: int) -> bool {
    let yy = p / 1920;
    let xx = (p % 1920) / 4;
    x0 <= xx < x1 && y0 <= yy < y
}

/// Byte `p` lies in the painted columns `x0..x` of row `y`.
pub open spec fn spec_in_row_prefix(p: int, x0: int, x: int, y: int) -> bool {
    let yy = p / 1920;
    let xx = (p % 1920) / 4;
    x0 <= xx < x && yy == y
}

/// A pixel's bytes decompose back into its coordinates.
proof fn lemma_pixel_byte(x: int, y: int, k: int)
    requires
        0 <= x < 480,
        0 <= y,
        0 <= k < 4,
    ensures
        spec_pixel_byte(x, y, k) / 1920 == y,
        (spec_pixel_byte(x, y, k) % 1920) / 4 == x,
{
    let b = spec_pixel_byte(x, y, k);
    vstd::arithmetic::div_mod::lemma_fundamental_div_mod_converse(b, 1920, y, 4 * x + k);
    vstd::arithmetic::div_mod::lemma_fundamental_div_mod_converse(4 * x + k, 4, x, k);
}

/// Fill the rectangle `x_0..x_1` by `y_0..y_1` with one color; a
/// rectangle that reaches past the frame buffer is ignored entirely, and
/// every pixel outside the rectangle keeps its old value.
pub fn draw_rect(screen: &mut Vec<u8>, x_0: usize, y_0: usize, x_1: usize, y_1: usize, col: &[u8; 4])
    requires
        old(screen).len() == SCREEN_WIDTH * SCREEN_HEIGHT * 4,
        x_0 <= x_1,
        y_0 <= y_1,
    ensures
        final(screen).len() == old(screen).len(),
        x_1 > SCREEN_WIDTH || y_1 > SCREEN_HEIGHT ==> final(screen)@ == old(screen)@,
        x_1 <= SCREEN_WIDTH && y_1 <= SCREEN_HEIGHT ==> {
            &&& forall|x: int, y: int, k: int|
                x_0 <= x < x_1 && y_0 <= y < y_1 && 0 <= k < 4
                    ==> #[trigger] final(screen)@[spec_pixel_byte(x, y, k)] == col@[k]
            &&& forall|p: int|
                0 <= p < final(screen)@.len()
                    && !spec_in_rows(p, x_0 as int, x_1 as int, y_0 as int, y_1 as int)
                    ==> #[trigger] final(screen)@[p] == old(screen)@[p]
        },
{
    if x_0 > SCREEN_WIDTH || x_1 > SCREEN_WIDTH || y_0 > SCREEN_HEIGHT || y_1 > SCREEN_HEIGHT {
        return;
    }
    let mut y: usize = y_0;
    while y < y_1
        invariant
            old(screen).len() == SCREEN_WIDTH * SCREEN_HEIGHT * 4,
            screen.len() == old(screen).len(),
            x_0 <= x_1 <= SCREEN_WIDTH,
            y_0 <= y <= y_1,
            y_1 <= SCREEN_HEIGHT,
            forall|xx: int, yy: int, k: int|
                x_0 <= xx < x_1 && y_0 <= yy < y && 0 <= k < 4
                    ==> #[trigger] screen@[spec_pixel_byte(xx, yy, k)] == col@[k],
            forall|p: int| 0 <= p < screen@.len()
                && !spec_in_rows(p, x_0 as int, x_1 as int, y_0 as int, y as int)
                ==> #[trigger] screen@[p] == old(screen)@[p],
        decreases y_1 - y,
    {
        let mut x: usize = x_0;
        while x < x_1
            invariant
                old(screen).len() == SCREEN_WIDTH * SCREEN_HEIGHT * 4,
                screen.len() == old(screen).len(),
                x_0 <= x <= x_1 <= SCREEN_WIDTH,
                y_0 <= y < y_1,
                y_1 <= SCREEN_HEIGHT,
                forall|xx: int, yy: int, k: int|
                    x_0 <= xx < x_1 && y_0 <= yy < y && 0 <= k < 4
                        ==> #[trigger] screen@[spec_pixel_byte(xx, yy, k)] == col@[k],
                forall|xx: int, k: int|
                    x_0 <= xx < x && 0 <= k < 4
                        ==> #[trigger] screen@[spec_pixel_byte(xx, y as int, k)] == col@[k],
                forall|p: int| 0 <= p < screen@.len()
                    && !spec_in_rows(p, x_0 as int, x_1 as int, y_0 as int, y as int)
                    && !spec_in_row_prefix(p, x_0 as int, x as int, y as int)
                    ==> #[trigger] screen@[p] == old(screen)@[p],
            decreases x_1 - x,
        {
            let base: usize = (x + y * SCREEN_WIDTH) * 4;
            proof {
                assert(base == spec_pixel_byte(x as int, y as int, 0));
                assert(base + 3 < screen@.len());
                lemma_pixel_byte(x as int, y as int, 0);
                lemma_pixel_byte(x as int, y as int, 1);
                lemma_pixel_byte(x as int, y as int, 2);
                lemma_pixel_byte(x as int, y as int, 3);
            }
            screen.set(base, col[0]);
            screen.set(base + 1, col[1]);
            screen.set(base + 2, col[2]);
            screen.set(base + 3, col[3]);
            x = x + 1;
        }
        y = y + 1;
    }
    proof {
        assert forall|x: int, yy: int, k: int|
            x_0 <= x < x_1 && y_0 <= yy < y_1 && 0 <= k < 4
            implies #[trigger] screen@[spec_pixel_byte(x, yy, k)] == col@[k] by {
        }
    }
}

/// The palette color for a cell kind byte, a modified sixteen-color
/// palette.
pub open spec fn spec_get_col(c: u8) -> [u8; 4] {
    if c == 2 {
        [177u8, 62u8, 83u8, 255u8]
    } else if c == 3 {
        [239u8, 125u8, 87u8, 255u8]
    } else if c == 4 {
        [255u8, 205u8, 117u8, 255u8]
    } else if c == 5 {
        [56u8, 183u8, 100u8, 255u8]
    } else if c == 6 {
        [65u8, 166u8, 246u8, 255u8]
    } else if c == 7 {
        [59u8, 93u8, 201u8, 255u8]
    } else if c == 8 {
        [149u8, 82u8, 165u8, 255u8]
    } else {
        [244u8, 244u8, 244u8, 255u8]
    }
}

/// Map a cell kind byte to its palette color.
pub fn get_col(c: u8) -> (r: [u8; 4])
    ensures
        r == spec_get_col(c),
{
    match c {
        2 => [177, 62, 83, 0xFF],
        3 => [239, 125, 87, 0xFF],
        4 => [255, 205, 117, 0xFF],
        5 => [56, 183, 100, 0xFF],
        6 => [65, 166, 246, 0xFF],
        7 => [59, 93, 201, 0xFF],
        8 => [149, 82, 165, 0xFF],
        _ => [244, 244, 244, 0xFF],
    }
}

} // verus!
