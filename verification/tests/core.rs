use raycaster::fixed::FP;
use raycaster::grid::Grid;
use raycaster::input::{intents_from_keys, HeldKey, Intents};
use raycaster::player::PositionalData;
use raycaster::texture::Texture;

fn open_room(width: usize, height: usize) -> Vec<u8> {
    // Solid border of code 1 around open cells.
    let mut cells = vec![0u8; width * height];
    for x in 0..width {
        for y in 0..height {
            if x == 0 || x == width - 1 || y == 0 || y == height - 1 {
                cells[x * height + y] = 1;
            }
        }
    }
    cells
}

fn no_intents() -> Intents {
    Intents { forward: false, backward: false, rotate_right: false, rotate_left: false }
}

#[test]
fn grid_accepts_bordered_map() {
    let g = Grid::new(4, 3, 8, open_room(4, 3)).expect("valid map");
    assert_eq!(g.width(), 4);
    assert_eq!(g.height(), 3);
    assert_eq!(g.texture_count(), 8);
    assert_eq!(g.cell_at(0, 0), 1);
    assert_eq!(g.cell_at(1, 1), 0);
    assert_eq!(g.cell_at(3, 2), 1);
}

#[test]
fn grid_rejects_open_border() {
    let mut cells = open_room(4, 4);
    cells[0 * 4 + 2] = 0; // hole in the left border
    assert!(Grid::new(4, 4, 8, cells).is_none());
}

#[test]
fn grid_rejects_code_beyond_texture_range() {
    let mut cells = open_room(4, 4);
    cells[1 * 4 + 1] = 9;
    assert!(Grid::new(4, 4, 8, cells).is_none());
}

#[test]
fn grid_rejects_wrong_cell_count() {
    assert!(Grid::new(4, 4, 8, vec![1u8; 15]).is_none());
}

#[test]
fn texture_accepts_square_pow2_image() {
    let t = Texture::new(2, vec![0x112233, 0x445566, 0x778899, 0xAABBCC]).expect("valid");
    assert_eq!(t.size(), 2);
    assert_eq!(t.pixel_at(0, 0), 0x112233);
    assert_eq!(t.pixel_at(1, 0), 0x445566);
    assert_eq!(t.pixel_at(0, 1), 0x778899);
    assert_eq!(t.pixel_at(1, 1), 0xAABBCC);
}

#[test]
fn texture_rejects_non_pow2_side() {
    assert!(Texture::new(3, vec![0; 9]).is_none());
}

#[test]
fn texture_rejects_wrong_pixel_count() {
    assert!(Texture::new(2, vec![0; 3]).is_none());
}

#[test]
fn texture_rejects_overwide_color() {
    assert!(Texture::new(2, vec![0, 0, 0, 0x1000000]).is_none());
}

#[test]
fn default_pose_matches_reference_start() {
    let p = PositionalData::default();
    assert_eq!(p.pos_x, 22 * FP);
    assert_eq!(p.pos_y, 11 * FP + FP / 2);
    assert_eq!(p.dir_x, -FP);
    assert_eq!(p.dir_y, 0);
    assert_eq!(p.plane_x, 0);
    assert_eq!(p.plane_y, 43253);
    assert_eq!(p.move_speed, 0);
    assert_eq!(p.rotation_speed, 0);
}

#[test]
fn intents_reflect_held_keys_only() {
    let keys = vec![HeldKey::ArrowUp, HeldKey::Other, HeldKey::ArrowLeft];
    let i = intents_from_keys(&keys);
    assert!(i.forward);
    assert!(!i.backward);
    assert!(!i.rotate_right);
    assert!(i.rotate_left);
    let none = intents_from_keys(&vec![]);
    assert!(!none.forward && !none.backward && !none.rotate_right && !none.rotate_left);
}

#[test]
fn forward_then_backward_restores_position() {
    let g = Grid::new(24, 24, 8, open_room(24, 24)).expect("valid map");
    let mut p = PositionalData::default();
    let forward = Intents { forward: true, ..no_intents() };
    let backward = Intents { backward: true, ..no_intents() };
    // elapsed 0.1 s in fixed point; speed 0.5 cells per frame.
    p.update(&g, forward, 6554, FP, 0);
    assert_eq!(p.pos_x, 22 * FP - 32770);
    assert_eq!(p.pos_y, 11 * FP + FP / 2);
    p.update(&g, backward, 6554, FP, 0);
    assert_eq!(p.pos_x, 22 * FP);
    assert_eq!(p.pos_y, 11 * FP + FP / 2);
}

#[test]
fn blocked_axis_slides_along_wall() {
    // A forward move whose x destination is solid but whose y destination is
    // open changes y and leaves x alone.
    let g = Grid::new(6, 6, 8, open_room(6, 6)).expect("valid map");
    let mut p = PositionalData::default();
    p.pos_x = 3 * FP / 2; // 1.5
    p.pos_y = 5 * FP / 2; // 2.5
    p.dir_x = -39321; // about -0.6
    p.dir_y = 52428; // about 0.8
    let forward = Intents { forward: true, ..no_intents() };
    p.update(&g, forward, FP / 5, FP, 0);
    // x candidate lands in the solid border column 0 and is refused;
    // y candidate lands in the open cell (1, 3) and is applied.
    assert_eq!(p.pos_x, 3 * FP / 2);
    assert_eq!(p.pos_y, 5 * FP / 2 + 52427);
}

#[test]
fn quarter_turn_left_rotates_both_vectors() {
    let g = Grid::new(6, 6, 8, open_room(6, 6)).expect("valid map");
    let mut p = PositionalData::default();
    p.pos_x = 3 * FP / 2;
    p.pos_y = 3 * FP / 2;
    let left = Intents { rotate_left: true, ..no_intents() };
    p.update(&g, left, 0, 0, FP);
    assert_eq!((p.dir_x, p.dir_y), (0, -FP));
    assert_eq!((p.plane_x, p.plane_y), (-43253, 0));
}

#[test]
fn opposite_quarter_turns_cancel() {
    let g = Grid::new(6, 6, 8, open_room(6, 6)).expect("valid map");
    let mut p = PositionalData::default();
    p.pos_x = 3 * FP / 2;
    p.pos_y = 3 * FP / 2;
    let left = Intents { rotate_left: true, ..no_intents() };
    let right = Intents { rotate_right: true, ..no_intents() };
    p.update(&g, left, 0, 0, FP);
    p.update(&g, right, 0, 0, FP);
    assert_eq!((p.dir_x, p.dir_y), (-FP, 0));
    assert_eq!((p.plane_x, p.plane_y), (0, 43253));
}

#[test]
fn long_frames_move_at_most_one_cell() {
    // A one-second frame derives move_speed 5.0, but a single move is
    // capped at one cell so the collision check cannot be tunneled past.
    let g = Grid::new(24, 24, 8, open_room(24, 24)).expect("valid map");
    let mut p = PositionalData::default();
    let forward = Intents { forward: true, ..no_intents() };
    p.update(&g, forward, FP, FP, 0);
    assert_eq!(p.move_speed, 5 * FP);
    assert_eq!(p.rotation_speed, 3 * FP);
    assert_eq!(p.pos_x, 21 * FP);
    assert_eq!(p.pos_y, 11 * FP + FP / 2);
}
