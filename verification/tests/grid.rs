use raycaster::map::{Grid, CellKind};
use raycaster::door::{DoorState, step_door, interact_door, open_amount, DOOR_ANIM, DOOR_HOLD};
use raycaster::raycast::{raycast, RaycastSide};
use raycaster::fixed::SCALE;

const W: usize = 8;
const H: usize = 4;

fn set_pixel(rgb: &mut Vec<u8>, x: usize, y: usize, color: [u8; 3]) {
    let i = (y * W + x) * 3;
    rgb[i] = color[0];
    rgb[i + 1] = color[1];
    rgb[i + 2] = color[2];
}

/// An 8x4 level: a solid block, a door, a light and a diagonal.
fn demo_grid() -> Grid {
    let mut rgb: Vec<u8> = vec![0; W * H * 3];
    set_pixel(&mut rgb, 5, 1, [255, 255, 255]); // solid
    set_pixel(&mut rgb, 3, 2, [127, 81, 25]); // door
    set_pixel(&mut rgb, 1, 3, [255, 255, 0]); // light
    set_pixel(&mut rgb, 6, 2, [0, 128, 0]); // diagonal TL-BR
    Grid::from_pixels(W, H, &rgb)
}

#[test]
fn index_coordinate_round_trip() {
    let g = demo_grid();
    for y in 0..H {
        for x in 0..W {
            let i = g.coord_to_index(&x, &y);
            assert_eq!(g.index_to_coord(i), (x, y));
        }
    }
    assert_eq!(g.coord_to_index(&5, &1), 13);
}

#[test]
fn pixels_decode_to_cells() {
    let g = demo_grid();
    assert_eq!(g.width, W);
    assert_eq!(g.height, H);
    assert_eq!(g.cells.len(), W * H);
    assert_eq!(g.get(13).kind, CellKind::Solid);
    assert_eq!(g.get(19).kind, CellKind::Door);
    assert_eq!(g.get(25).kind, CellKind::Light);
    assert_eq!(g.get(22).kind, CellKind::Diagonal);
    assert_eq!(g.get(0).kind, CellKind::Empty);
}

#[test]
fn doors_start_closed_and_open_on_interact() {
    let mut g = demo_grid();
    assert_eq!(g.door_state(19), Some(DoorState::Closed));
    assert_eq!(g.door_state(0), None);
    g.interact(19);
    assert_eq!(g.door_state(19), Some(DoorState::Opening(DOOR_ANIM)));
    // Half the animation, twice, reaches the held-open state.
    g.step_doors(DOOR_ANIM / 2);
    assert_eq!(g.door_state(19), Some(DoorState::Opening(DOOR_ANIM / 2)));
    g.step_doors(DOOR_ANIM / 2);
    assert_eq!(g.door_state(19), Some(DoorState::Open(DOOR_HOLD)));
}

#[test]
fn door_state_machine_cycle() {
    assert_eq!(step_door(DoorState::Closed, 1000), DoorState::Closed);
    assert_eq!(step_door(DoorState::Opening(DOOR_ANIM), DOOR_ANIM / 2), DoorState::Opening(DOOR_ANIM / 2));
    assert_eq!(
        step_door(step_door(DoorState::Opening(DOOR_ANIM), DOOR_ANIM / 2), DOOR_ANIM / 2),
        DoorState::Open(DOOR_HOLD)
    );
    assert_eq!(step_door(DoorState::Open(100), 200), DoorState::Closing(DOOR_ANIM));
    assert_eq!(step_door(DoorState::Closing(100), 200), DoorState::Closed);
}

#[test]
fn interact_resumes_closing_door() {
    assert_eq!(interact_door(DoorState::Closed), DoorState::Opening(DOOR_ANIM));
    assert_eq!(interact_door(DoorState::Closing(1000)), DoorState::Opening(DOOR_ANIM - 1000));
    assert_eq!(interact_door(DoorState::Open(42)), DoorState::Open(42));
    assert_eq!(interact_door(DoorState::Opening(42)), DoorState::Opening(42));
}

#[test]
fn open_amounts() {
    assert_eq!(open_amount(DoorState::Closed), SCALE);
    assert_eq!(open_amount(DoorState::Open(123)), 0);
    assert_eq!(open_amount(DoorState::Opening(1600)), 3200);
    assert_eq!(open_amount(DoorState::Closing(1600)), SCALE - 3200);
}

#[test]
fn corridor_distance_is_exact() {
    let g = demo_grid();
    // From the middle of cell (0, 1) straight along +x toward the solid
    // cell at x = 5: the near face is 4.5 cells away.
    let px = SCALE / 2;
    let py = SCALE + SCALE / 2;
    let h = raycast(&g, px, py, SCALE, 0, SCALE, 0, 100 * SCALE).expect("wall should be struck");
    assert_eq!(h.cell, 13);
    assert_eq!(h.side, RaycastSide::X);
    assert_eq!(h.brightness, 191);
    // perp / (SCALE * SCALE) is the distance in cells: exactly 4.5.
    let a = (5 * SCALE - px) as i128; // travelled scaled units
    assert_eq!(h.perp.num, a * (SCALE as i128) * (SCALE as i128));
    assert_eq!(h.perp.den, SCALE as i128);
}

#[test]
fn axis_aligned_rays_terminate() {
    let g = demo_grid();
    // Straight up through open cells and out of the grid: a miss.
    assert!(raycast(&g, SCALE / 2, SCALE / 2, 0, -SCALE, SCALE, 0, 100 * SCALE).is_none());
    // Straight down.
    assert!(raycast(&g, SCALE / 2, SCALE / 2, 0, SCALE, SCALE, 0, 100 * SCALE).is_none());
    // No direction at all: defined miss.
    assert!(raycast(&g, SCALE / 2, SCALE / 2, 0, 0, SCALE, 0, 100 * SCALE).is_none());
}

#[test]
fn out_of_bounds_origin_misses() {
    let g = demo_grid();
    assert!(raycast(&g, -100, SCALE, SCALE, 0, SCALE, 0, 100 * SCALE).is_none());
    assert!(raycast(&g, SCALE, (H as i64) * SCALE + 5, SCALE, 0, SCALE, 0, 100 * SCALE).is_none());
}

#[test]
fn max_distance_limits_the_ray() {
    let g = demo_grid();
    let px = SCALE / 2;
    let py = SCALE + SCALE / 2;
    // The wall stands 4.5 cells away; a 2-cell ray gives up first.
    assert!(raycast(&g, px, py, SCALE, 0, SCALE, 0, 2 * SCALE).is_none());
}

#[test]
fn ray_passes_open_door_and_stops_at_closed() {
    let mut g = demo_grid();
    let px = SCALE / 2;
    let py = 2 * SCALE + SCALE / 2;
    // The closed door at (3, 2) blocks the ray: its near panel side sits
    // at 0.4 of the cell.
    let h = raycast(&g, px, py, SCALE, 0, SCALE, 0, 100 * SCALE).expect("closed door should block");
    assert_eq!(h.cell, 19);
    // Open the door fully: the ray now passes and hits the diagonal at
    // (6, 2) instead.
    g.interact(19);
    g.step_doors(DOOR_ANIM);
    g.step_doors(1);
    let h2 = raycast(&g, px, py, SCALE, 0, SCALE, 0, 100 * SCALE).expect("diagonal should be struck");
    assert_eq!(h2.cell, 22);
}

#[test]
fn lightmap_peaks_at_lights() {
    let g = demo_grid();
    assert_eq!(g.lightmap.len(), g.cells.len());
    assert_eq!(g.lightmap[25], 16);
    for &v in g.lightmap.iter() {
        assert!(v <= 16);
    }
    // A neighbor of the light is one level dimmer.
    assert_eq!(g.lightmap[24], 15);
    // Solid cells stay dark.
    assert_eq!(g.lightmap[13], 0);
}

#[test]
fn demo_collision_segments_installed() {
    let g = demo_grid();
    assert_eq!(g.collision.len(), 19);
    assert_eq!(g.collision[0].ax, 32000);
    assert_eq!(g.collision[0].ay, 19200);
    // The degenerate point obstacle is tolerated.
    assert_eq!(g.collision[14].ax, g.collision[14].bx);
    assert_eq!(g.collision[14].ay, g.collision[14].by);
}
