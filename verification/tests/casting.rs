use raycaster::fixed::FP;
use raycaster::grid::Grid;
use raycaster::player::PositionalData;
use raycaster::raycast::cast;

/// The reference 24-by-24 map, stored column-major: cell (x, y) at x * 24 + y.
fn reference_map() -> Grid {
    let cells: Vec<u8> = vec![
        4, 4, 4, 4, 4, 4, 4, 4, 4, 4, 4, 4, 4, 4, 4, 4, 7, 7, 7, 7, 7, 7, 7, 7,
        4, 0, 0, 0, 0, 0, 0, 0, 0, 0, 0, 0, 0, 0, 0, 0, 7, 0, 0, 0, 0, 0, 0, 7,
        4, 0, 1, 0, 0, 0, 0, 0, 0, 0, 0, 0, 0, 0, 0, 0, 0, 0, 0, 0, 0, 0, 0, 7,
        4, 0, 2, 0, 0, 0, 0, 0, 0, 0, 0, 0, 0, 0, 0, 0, 0, 0, 0, 0, 0, 0, 0, 7,
        4, 0, 3, 0, 0, 0, 0, 0, 0, 0, 0, 0, 0, 0, 0, 0, 7, 0, 0, 0, 0, 0, 0, 7,
        4, 0, 4, 0, 0, 0, 0, 5, 5, 5, 5, 5, 5, 5, 5, 5, 7, 7, 0, 7, 7, 7, 7, 7,
        4, 0, 5, 0, 0, 0, 0, 5, 0, 5, 0, 5, 0, 5, 0, 5, 7, 0, 0, 0, 7, 7, 7, 1,
        4, 0, 6, 0, 0, 0, 0, 5, 0, 0, 0, 0, 0, 0, 0, 5, 7, 0, 0, 0, 0, 0, 0, 8,
        4, 0, 7, 0, 0, 0, 0, 0, 0, 0, 0, 0, 0, 0, 0, 0, 0, 0, 0, 0, 7, 7, 7, 1,
        4, 0, 8, 0, 0, 0, 0, 5, 0, 0, 0, 0, 0, 0, 0, 5, 7, 0, 0, 0, 0, 0, 0, 8,
        4, 0, 0, 0, 0, 0, 0, 5, 0, 0, 0, 0, 0, 0, 0, 5, 7, 0, 0, 0, 7, 7, 7, 1,
        4, 0, 0, 0, 0, 0, 0, 5, 5, 5, 5, 0, 5, 5, 5, 5, 7, 7, 7, 7, 7, 7, 7, 1,
        6, 6, 6, 6, 6, 6, 6, 6, 6, 6, 6, 0, 6, 6, 6, 6, 6, 6, 6, 6, 6, 6, 6, 6,
        8, 0, 0, 0, 0, 0, 0, 0, 0, 0, 0, 0, 0, 0, 0, 0, 0, 0, 0, 0, 0, 0, 0, 4,
        6, 6, 6, 6, 6, 6, 0, 6, 6, 6, 6, 0, 6, 6, 6, 6, 6, 6, 6, 6, 6, 6, 6, 6,
        4, 4, 4, 4, 4, 4, 0, 4, 4, 4, 6, 0, 6, 2, 2, 2, 2, 2, 2, 2, 3, 3, 3, 3,
        4, 0, 0, 0, 0, 0, 0, 0, 0, 4, 6, 0, 6, 2, 0, 0, 0, 0, 0, 2, 0, 0, 0, 2,
        4, 0, 0, 0, 0, 0, 0, 0, 0, 0, 0, 0, 6, 2, 0, 0, 5, 0, 0, 2, 0, 0, 0, 2,
        4, 0, 0, 0, 0, 0, 0, 0, 0, 4, 6, 0, 6, 2, 0, 0, 0, 0, 0, 2, 2, 0, 2, 2,
        4, 0, 6, 0, 6, 0, 0, 0, 0, 4, 6, 0, 0, 0, 0, 0, 5, 0, 0, 0, 0, 0, 0, 2,
        4, 0, 0, 5, 0, 0, 0, 0, 0, 4, 6, 0, 6, 2, 0, 0, 0, 0, 0, 2, 2, 0, 2, 2,
        4, 0, 6, 0, 6, 0, 0, 0, 0, 4, 6, 0, 6, 2, 0, 0, 5, 0, 0, 2, 0, 0, 0, 2,
        4, 0, 0, 0, 0, 0, 0, 0, 0, 4, 6, 0, 6, 2, 0, 0, 0, 0, 0, 2, 0, 0, 0, 2,
        4, 4, 4, 4, 4, 4, 4, 4, 4, 4, 1, 1, 1, 2, 2, 2, 2, 2, 2, 3, 3, 3, 3, 3,    ];
    Grid::new(24, 24, 8, cells).expect("the reference map is valid")
}

fn center_camera(pos_y: i64) -> PositionalData {
    let mut p = PositionalData::default();
    p.pos_y = pos_y;
    p
}

#[test]
fn center_ray_hits_wall_row_twelve() {
    // Camera at (22, 6.5) looking along -x with the center column: the ray
    // runs along row 6 and strikes the all-six wall column at x = 12.
    let g = reference_map();
    let p = center_camera(6 * FP + FP / 2);
    let hit = cast(&p, &g, 1, 2);
    assert_eq!(hit.map_x, 12);
    assert_eq!(hit.map_y, 6);
    assert_eq!(hit.side, 0);
    assert_eq!(hit.steps, 10);
    assert_eq!(hit.perp_dist, 9 * FP);
    assert_eq!(hit.wall_frac, FP / 2);
    assert_eq!(g.cell_at(hit.map_x, hit.map_y), 6);
}

#[test]
fn center_ray_passes_the_door_gap() {
    // At the starting row 11.5 the wall column x = 12 has its gap at y = 11,
    // so the same ray passes through and strikes the five-code wall at x = 6.
    let g = reference_map();
    let p = center_camera(11 * FP + FP / 2);
    let hit = cast(&p, &g, 1, 2);
    assert_eq!(hit.map_x, 6);
    assert_eq!(hit.map_y, 11);
    assert_eq!(hit.side, 0);
    assert_eq!(hit.steps, 16);
    assert_eq!(hit.perp_dist, 15 * FP);
    assert_eq!(hit.wall_frac, FP / 2);
    assert_eq!(g.cell_at(hit.map_x, hit.map_y), 5);
}

#[test]
fn every_column_terminates_within_the_step_bound() {
    // The DDA is proved to stop within width + height steps; exercise a
    // fan of rays from the starting pose across a 64-column screen.
    let g = reference_map();
    let p = center_camera(11 * FP + FP / 2);
    for column in 0..64 {
        let hit = cast(&p, &g, column, 64);
        assert!(hit.steps <= 48);
        assert!(g.cell_at(hit.map_x, hit.map_y) > 0);
        assert!(hit.perp_dist >= 0);
        assert!(hit.wall_frac >= 0 && hit.wall_frac < FP);
    }
}

#[test]
fn off_grid_camera_keeps_distance_positive() {
    // With the camera half a cell away from every grid line the struck
    // face is provably at a strictly positive perpendicular distance.
    let g = reference_map();
    let mut p = center_camera(11 * FP + FP / 2);
    p.pos_x = 22 * FP + FP / 2;
    let hit = cast(&p, &g, 1, 2);
    assert_eq!(hit.map_x, 6);
    assert_eq!(hit.perp_dist, 15 * FP + FP / 2);
    assert!(hit.perp_dist >= 1);
}
