use raycaster::fixed::{Frac, isqrt64, SCALE};
use raycaster::shape::{shape_hit, get_shape_segments};
use raycaster::map::{Cell, CellKind};
use raycaster::collision::{
    closest_point_on_seg, collide_disk_with_segment, collide_with_segments, slide_mov,
    point_2_cmp_mul, Segment, Segm, PLAYER_RADIUS,
};
use raycaster::texture::rotate_to_columns;
use raycaster::render::{draw_rect, get_col, SCREEN_WIDTH, SCREEN_HEIGHT};

fn frac_value_eq(a: &Frac, num: i128, den: i128) -> bool {
    a.num * den == num * a.den
}

#[test]
fn isqrt_exact_and_floor() {
    assert_eq!(isqrt64(0), 0);
    assert_eq!(isqrt64(10), 3);
    assert_eq!(isqrt64(16), 4);
    assert_eq!(isqrt64(24), 4);
    assert_eq!(isqrt64(25), 5);
}

#[test]
fn frac_comparisons() {
    let half = Frac { num: 1, den: 2 };
    let two_thirds = Frac { num: 2, den: 3 };
    assert!(half.lt(&two_thirds));
    assert!(half.le(&two_thirds));
    assert!(!two_thirds.lt(&half));
    let other_half = Frac { num: 3200, den: 6400 };
    assert!(half.eq_value(&other_half));
}

#[test]
fn thin_wall_hit_centered() {
    // A thin wall with orientation bit clear stands vertically at x = 0.5.
    let cell = Cell::new(4, 0, 0);
    // Ray from half a cell left of the wall cell, level with its middle.
    let h = shape_hit(&cell, 0, -3200, 3200, 6400, 0).expect("wall should be struck");
    // t = 1: the hit is one direction-vector away.
    assert!(frac_value_eq(&h.t, 1, 1));
    // Texture coordinate halfway along the wall.
    assert!(frac_value_eq(&h.along, 1, 2));
    assert_eq!(h.brightness, 192);
}

#[test]
fn thin_wall_parallel_ray_misses() {
    let cell = Cell::new(4, 0, 0);
    // A ray with zero x component can never cross the vertical wall plane.
    assert!(shape_hit(&cell, 0, -3200, 3200, 0, 6400).is_none());
    // Degenerate direction strikes nothing at all.
    assert!(shape_hit(&cell, 0, -3200, 3200, 0, 0).is_none());
}

#[test]
fn diagonal_complement_region_misses() {
    // TL-BR diagonal (flag clear): the segment is the line x == y.
    let cell = Cell::new(8, 0, 0);
    // From (0, 0.5) climbing steeply: y - x only grows, the crossing lies
    // behind the origin, so there is no hit.
    assert!(shape_hit(&cell, 0, 0, 3200, 100, 200).is_none());
    // Parallel to the diagonal: no crossing either.
    assert!(shape_hit(&cell, 0, 0, 3200, 150, 150).is_none());
}

#[test]
fn diagonal_hit_on_segment() {
    let cell = Cell::new(8, 0, 0);
    // From (0, 0.5) descending relative to the diagonal: crosses x == y at
    // the far corner (1, 1).
    let h = shape_hit(&cell, 0, 0, 3200, 200, 100).expect("diagonal should be struck");
    assert!(frac_value_eq(&h.t, 32, 1));
    assert!(frac_value_eq(&h.along, 1, 1));
    // Hit point lies on the diagonal: px + t*dx == py + t*dy.
    let hx = 0i128 * h.t.den + h.t.num * 200;
    let hy = 3200i128 * h.t.den + h.t.num * 100;
    assert_eq!(hx, hy);
}

#[test]
fn square_pillar_has_gaps() {
    let cell = Cell::new(6, 0, 0);
    // A ray skimming the cell near its top edge passes beside the inset
    // pillar (which spans 0.25..0.75).
    assert!(shape_hit(&cell, 0, -3200, 640, 6400, 0).is_none());
    // Through the middle it strikes the pillar's near face at x = 0.25.
    let h = shape_hit(&cell, 0, -3200, 3200, 6400, 0).expect("pillar face should be struck");
    // t = (1600 + 3200) / 6400 = 0.75.
    assert!(frac_value_eq(&h.t, 3, 4));
}

#[test]
fn closed_door_blocks_open_door_clears() {
    let cell = Cell::new(3, 0, 1);
    // amount == SCALE: fully blocking; the near long side stands at 0.4.
    let h = shape_hit(&cell, SCALE, -3200, 3200, 6400, 0).expect("closed door should block");
    assert!(frac_value_eq(&h.t, 3200 + 2560, 6400));
    // amount == 0: fully open; the panel has slid away.
    assert!(shape_hit(&cell, 0, -3200, 3200, 6400, 0).is_none());
}

#[test]
fn door_segment_lists() {
    let slide = Cell::new(3, 0, 1);
    assert_eq!(get_shape_segments(&slide, SCALE).len(), 3);
    let elevator = Cell::new(3, 4, 2);
    assert_eq!(get_shape_segments(&elevator, SCALE).len(), 6);
    let round = Cell::new(7, 0, 0);
    assert_eq!(get_shape_segments(&round, 0).len(), 0);
}

#[test]
fn closest_point_clamps_to_segment() {
    let s = Segment { ax: 0, ay: 0, bx: 6400, by: 0 };
    assert_eq!(closest_point_on_seg(3200, 1000, &s), (3200, 0));
    assert_eq!(closest_point_on_seg(-500, 1000, &s), (0, 0));
    assert_eq!(closest_point_on_seg(9000, 1000, &s), (6400, 0));
}

#[test]
fn closest_point_degenerate_segment() {
    let s = Segment { ax: 100, ay: 200, bx: 100, by: 200 };
    assert_eq!(closest_point_on_seg(5000, 5000, &s), (100, 200));
}

#[test]
fn disk_far_from_segment_no_collision() {
    let s = Segment { ax: 32000, ay: 6400, bx: 32000, by: 19200 };
    let line = Segm::Line(0, 0, SCALE, SCALE);
    assert!(collide_disk_with_segment(20000, 12800, &s, &line, PLAYER_RADIUS).is_none());
    // A circle obstacle never collides.
    let circle = Segm::Circle(0, 0, SCALE);
    assert!(collide_disk_with_segment(31000, 12800, &s, &circle, PLAYER_RADIUS).is_none());
}

#[test]
fn head_on_stop_exactly_at_radius() {
    // A vertical wall at x = 5 cells; the disk has overshot into it.
    let s = Segment { ax: 32000, ay: 6400, bx: 32000, by: 19200 };
    let segs = vec![s];
    let mut px: i64 = 30720;
    let mut py: i64 = 12800;
    // Move straight toward the wall by 0.15 of a cell.
    slide_mov(&mut px, &mut py, 960, 0, &segs, PLAYER_RADIUS);
    // The center stops exactly PLAYER_RADIUS from the wall.
    assert_eq!(px, 32000 - PLAYER_RADIUS);
    assert_eq!(py, 12800);
    // Zero residual penetration afterwards.
    let c = collide_with_segments(px, py, &segs, PLAYER_RADIUS).expect("resting contact");
    assert_eq!(c.depth, 0);
}

#[test]
fn sliding_keeps_tangential_component() {
    let s = Segment { ax: 32000, ay: 6400, bx: 32000, by: 19200 };
    let segs = vec![s];
    let mut px: i64 = 30720;
    let mut py: i64 = 12800;
    // Diagonal push into the wall: the y part survives untouched.
    slide_mov(&mut px, &mut py, 960, 500, &segs, PLAYER_RADIUS);
    assert_eq!(py, 12800 + 500);
    assert_eq!(px, 32000 - PLAYER_RADIUS);
}

#[test]
fn free_movement_is_unhindered() {
    let s = Segment { ax: 32000, ay: 6400, bx: 32000, by: 19200 };
    let segs = vec![s];
    let mut px: i64 = 12800;
    let mut py: i64 = 12800;
    slide_mov(&mut px, &mut py, 640, -320, &segs, PLAYER_RADIUS);
    assert_eq!((px, py), (13440, 12480));
}

#[test]
fn dot_product() {
    assert_eq!(point_2_cmp_mul(3, 4, 5, 6), 3 * 5 + 4 * 6);
}

#[test]
fn rotate_texture_to_columns() {
    // A 2x2 image with distinct bytes per pixel.
    let data: Vec<u8> = vec![
        1, 2, 3, 4, 5, 6, // row 0: pixels (0,0), (1,0)
        7, 8, 9, 10, 11, 12, // row 1: pixels (0,1), (1,1)
    ];
    let r = rotate_to_columns(&data, 2, 2);
    // Column 0 holds (0,0) then (0,1); column 1 holds (1,0) then (1,1).
    assert_eq!(r, vec![1, 2, 3, 7, 8, 9, 4, 5, 6, 10, 11, 12]);
}

#[test]
fn draw_rect_fills_and_preserves() {
    let mut screen: Vec<u8> = vec![9; SCREEN_WIDTH * SCREEN_HEIGHT * 4];
    draw_rect(&mut screen, 2, 3, 4, 5, &[10, 20, 30, 40]);
    // Inside the rectangle.
    let base = (2 + 3 * SCREEN_WIDTH) * 4;
    assert_eq!(&screen[base..base + 4], &[10, 20, 30, 40]);
    let base2 = (3 + 4 * SCREEN_WIDTH) * 4;
    assert_eq!(&screen[base2..base2 + 4], &[10, 20, 30, 40]);
    // Outside: untouched.
    let out = (4 + 5 * SCREEN_WIDTH) * 4;
    assert_eq!(&screen[out..out + 4], &[9, 9, 9, 9]);
    assert_eq!(screen[0], 9);
    // An out-of-bounds rectangle changes nothing.
    let before = screen.clone();
    draw_rect(&mut screen, 0, 0, SCREEN_WIDTH + 1, 1, &[1, 1, 1, 1]);
    assert_eq!(screen, before);
}

#[test]
fn palette_colors() {
    assert_eq!(get_col(2), [177, 62, 83, 255]);
    assert_eq!(get_col(7), [59, 93, 201, 255]);
    assert_eq!(get_col(0), [244, 244, 244, 255]);
}

#[test]
fn cell_kind_decoding() {
    assert_eq!(Cell::new(0, 0, 0).kind, CellKind::Empty);
    assert_eq!(Cell::new(1, 0, 0).kind, CellKind::Solid);
    assert_eq!(Cell::new(2, 0, 0).kind, CellKind::Light);
    assert_eq!(Cell::new(3, 0, 0).kind, CellKind::Door);
    assert_eq!(Cell::new(4, 0, 0).kind, CellKind::ThinWall);
    assert_eq!(Cell::new(5, 0, 0).kind, CellKind::ThickWall);
    assert_eq!(Cell::new(6, 0, 0).kind, CellKind::SquarePillar);
    assert_eq!(Cell::new(7, 0, 0).kind, CellKind::RoundPillar);
    assert_eq!(Cell::new(8, 0, 0).kind, CellKind::Diagonal);
    // Unknown kinds decode to pass-through emptiness.
    assert_eq!(Cell::new(77, 1, 2).kind, CellKind::Empty);
}
