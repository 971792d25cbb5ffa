use raycaster::fixed::FP;
use raycaster::raycast::RayHit;
use raycaster::render::{darken, line_height, tex_x_of, tex_y_of};

fn hit(side: u8, ray_dir_x: i64, ray_dir_y: i64, wall_frac: i64) -> RayHit {
    RayHit {
        map_x: 1,
        map_y: 1,
        side,
        perp_dist: FP,
        wall_frac,
        ray_dir_x,
        ray_dir_y,
        steps: 1,
    }
}

#[test]
fn wall_span_shrinks_with_distance() {
    assert_eq!(line_height(1080, 9 * FP), 120);
    assert_eq!(line_height(1080, FP), 1080);
    // A wall at (clamped) zero distance fills everything it can.
    assert_eq!(line_height(1080, 0), 1080 * FP);
}

#[test]
fn tex_x_scales_the_wall_fraction() {
    assert_eq!(tex_x_of(&hit(0, -FP, 0, FP / 2), 64), 32);
    assert_eq!(tex_x_of(&hit(0, -FP, 0, 0), 64), 0);
    assert_eq!(tex_x_of(&hit(0, -FP, 0, FP - 1), 64), 63);
}

#[test]
fn tex_x_mirrors_on_positive_facing_sides() {
    // Struck from the positive x side, or from the negative y side.
    assert_eq!(tex_x_of(&hit(0, FP, 0, FP / 2), 64), 31);
    assert_eq!(tex_x_of(&hit(1, 0, -FP, FP / 2), 64), 31);
    // But not the other way round.
    assert_eq!(tex_x_of(&hit(1, 0, FP, FP / 2), 64), 32);
}

#[test]
fn tex_y_wraps_to_the_texture_height() {
    assert_eq!(tex_y_of(130 * FP + 7, 64), 2);
    assert_eq!(tex_y_of(0, 64), 0);
    assert_eq!(tex_y_of(63 * FP, 64), 63);
}

#[test]
fn darken_halves_every_channel() {
    assert_eq!(darken(0xFF8040), 0x7F4020);
    assert_eq!(darken(0x000000), 0x000000);
    assert_eq!(darken(0xFFFFFF), 0x7F7F7F);
    assert_eq!(darken(0x010101), 0x000000);
}

use raycaster::grid::Grid;
use raycaster::input::Intents;
use raycaster::player::PositionalData;
use raycaster::render::render_frame;
use raycaster::texture::Texture;

fn walled_room(width: usize, height: usize) -> Grid {
    let mut cells = vec![0u8; width * height];
    for x in 0..width {
        for y in 0..height {
            if x == 0 || x == width - 1 || y == 0 || y == height - 1 {
                cells[x * height + y] = 1;
            }
        }
    }
    Grid::new(width, height, 8, cells).expect("valid map")
}

fn eight_textures() -> Vec<Texture> {
    let mut ts = Vec::new();
    for _ in 0..8 {
        ts.push(
            Texture::new(2, vec![0x111111, 0x222222, 0x333333, 0x444444]).expect("valid"),
        );
    }
    ts
}

fn room_camera(dir: (i64, i64), plane: (i64, i64)) -> PositionalData {
    let mut p = PositionalData::default();
    p.pos_x = 3 * FP / 2;
    p.pos_y = 3 * FP / 2;
    p.dir_x = dir.0;
    p.dir_y = dir.1;
    p.plane_x = plane.0;
    p.plane_y = plane.1;
    p
}

fn no_intents() -> Intents {
    Intents { forward: false, backward: false, rotate_right: false, rotate_left: false }
}

#[test]
fn rendering_the_same_pose_twice_is_bit_identical() {
    let g = walled_room(6, 6);
    let ts = eight_textures();
    let mut p = room_camera((-FP, 0), (0, 43253));
    let mut first = vec![7u32; 16 * 12];
    render_frame(&mut p, &g, &ts, &mut first, 16, 12, no_intents(), 0, FP, 0);
    let mut second = vec![0u32; 16 * 12];
    render_frame(&mut p, &g, &ts, &mut second, 16, 12, no_intents(), 0, FP, 0);
    assert_eq!(first, second);
}

#[test]
fn frame_draws_the_facing_wall_column() {
    // A 3x3 room: the center column's ray runs along -x into the wall half a
    // cell away, whose span covers the whole 4-row screen at full brightness.
    let g = walled_room(3, 3);
    let ts = eight_textures();
    let mut p = room_camera((-FP, 0), (0, 43253));
    let mut fb = vec![9u32; 2 * 4];
    render_frame(&mut p, &g, &ts, &mut fb, 2, 4, no_intents(), 0, FP, 0);
    // Rows 0..4 of screen column 1: texel column 1, rows 0,0,1,1.
    assert_eq!(fb[1], 0x222222);
    assert_eq!(fb[3], 0x222222);
    assert_eq!(fb[5], 0x444444);
    assert_eq!(fb[7], 0x444444);
}

#[test]
fn frame_darkens_horizontal_faces_and_mirrors_them() {
    // Looking along -y, the struck face is horizontal: side 1, so the texel
    // column is mirrored and every channel is halved.
    let g = walled_room(3, 3);
    let ts = eight_textures();
    let mut p = room_camera((0, -FP), (43253, 0));
    let mut fb = vec![0u32; 2 * 4];
    render_frame(&mut p, &g, &ts, &mut fb, 2, 4, no_intents(), 0, FP, 0);
    assert_eq!(fb[1], 0x080808);
    assert_eq!(fb[3], 0x080808);
    assert_eq!(fb[5], 0x191919);
    assert_eq!(fb[7], 0x191919);
}
