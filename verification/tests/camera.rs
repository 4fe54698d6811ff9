use raycaster::camera::{Camera, MOVE_SPEED};
use raycaster::tile_map::{Grid, TileMap, MAX_CELLS, SOLID};

const ONE: i32 = 65536;

fn room() -> TileMap {
    let walls = vec![
        vec![1, 1, 1, 1, 1],
        vec![1, 0, 0, 0, 1],
        vec![1, 0, 3, 0, 1],
        vec![1, 0, 0, 0, 1],
        vec![1, 1, 1, 1, 1],
    ];
    let floor = vec![vec![7u32; 5]; 5];
    let ceiling = vec![vec![0u32; 5]; 5];
    TileMap::new(walls, floor, ceiling)
}

fn camera_at(x: i32, y: i32) -> Camera {
    Camera { x, y, dir_x: -ONE, dir_y: 0, plane_x: 0, plane_y: 43254 }
}

#[test]
fn cells_outside_the_map_are_solid() {
    let map = room();
    assert_eq!(map.width(), 5);
    assert_eq!(map.height(), 5);
    assert_eq!(map.cell(Grid::Walls, 2, 2), 3);
    assert_eq!(map.cell(Grid::Walls, 1, 2), 0);
    assert_eq!(map.cell(Grid::Floor, 1, 2), 7);
    assert_eq!(map.cell(Grid::Ceiling, 4, 4), 0);
    for which in [Grid::Walls, Grid::Floor, Grid::Ceiling] {
        assert_eq!(map.cell(which, -1, 2), SOLID);
        assert_eq!(map.cell(which, 5, 2), SOLID);
        assert_eq!(map.cell(which, 2, -1), SOLID);
        assert_eq!(map.cell(which, 2, 5), SOLID);
        assert_eq!(map.cell(which, i32::MAX, i32::MIN), SOLID);
    }
    assert!(SOLID != 0);
    assert!(map.is_solid(0, 0));
    assert!(map.is_solid(2, 2));
    assert!(map.is_solid(-1, 1));
    assert!(!map.is_solid(1, 1));
    assert!(!map.is_solid(3, 2));
}

#[test]
fn grids_must_be_rectangles_of_one_size() {
    let good = vec![vec![0u32; 3]; 2];
    assert!(TileMap::grids_valid(&good, &good, &good));
    assert!(TileMap::grids_valid(&vec![], &vec![], &vec![]));
    let ragged = vec![vec![0u32; 3], vec![0u32; 2]];
    assert!(!TileMap::grids_valid(&ragged, &good, &good));
    assert!(!TileMap::grids_valid(&good, &ragged, &good));
    assert!(!TileMap::grids_valid(&good, &good, &ragged));
    let taller = vec![vec![0u32; 3]; 3];
    assert!(!TileMap::grids_valid(&good, &taller, &good));
    let wider = vec![vec![0u32; 4]; 2];
    assert!(!TileMap::grids_valid(&good, &good, &wider));
    let too_wide = vec![vec![0u32; MAX_CELLS + 1]];
    assert!(!TileMap::grids_valid(&too_wide, &too_wide, &too_wide));
    let widest = vec![vec![0u32; MAX_CELLS]];
    assert!(TileMap::grids_valid(&widest, &widest, &widest));
    let empty_map = TileMap::new(vec![], vec![], vec![]);
    assert_eq!((empty_map.width(), empty_map.height()), (0, 0));
    assert!(empty_map.is_solid(0, 0));
}

#[test]
fn quarter_turn_swaps_the_axes() {
    let mut c = camera_at(98304, 98304);
    c.rotate(0, ONE);
    assert_eq!((c.dir_x, c.dir_y), (0, -ONE));
    assert_eq!((c.plane_x, c.plane_y), (-43254, 0));
    assert_eq!((c.x, c.y), (98304, 98304));
    c.rotate(ONE, 0);
    assert_eq!((c.dir_x, c.dir_y), (0, -ONE));
    c.rotate(0, -ONE);
    assert_eq!((c.dir_x, c.dir_y), (-ONE, 0));
    assert_eq!((c.plane_x, c.plane_y), (0, 43254));
}

#[test]
fn turn_by_thirty_degrees() {
    let mut c = camera_at(0, 0);
    c.rotate(56756, 32768);
    assert_eq!((c.dir_x, c.dir_y), (-56756, -32768));
    assert_eq!((c.plane_x, c.plane_y), (-21627, 37459));
}

#[test]
fn turn_saturates() {
    let mut c = Camera { x: 0, y: 0, dir_x: i32::MAX, dir_y: i32::MIN, plane_x: 1, plane_y: 1 };
    c.rotate(i32::MAX, i32::MAX);
    assert_eq!((c.dir_x, c.dir_y), (i32::MAX, -32768));
    assert_eq!((c.plane_x, c.plane_y), (0, 65535));
    let mut c = Camera { x: 0, y: 0, dir_x: i32::MIN, dir_y: i32::MAX, plane_x: 0, plane_y: 0 };
    c.rotate(i32::MAX, i32::MAX);
    assert_eq!((c.dir_x, c.dir_y), (i32::MIN, -32768));
}

#[test]
fn movement_has_the_length_of_the_step() {
    let c = camera_at(98304, 98304);
    assert_eq!(MOVE_SPEED, 5);
    assert_eq!(c.movement(true, false, false, false, 6554), (-32770, 0));
    assert_eq!(c.movement(false, true, false, false, 6554), (32770, 0));
    assert_eq!(c.movement(false, false, false, true, 6554), (0, -32770));
    assert_eq!(c.movement(false, false, true, false, 6554), (0, 32770));
    assert_eq!(c.movement(false, false, false, false, 6554), (0, 0));
    assert_eq!(c.movement(true, true, false, false, 6554), (0, 0));
    assert_eq!(c.movement(true, true, true, true, 6554), (0, 0));
    assert_eq!(c.movement(true, false, false, false, 0), (0, 0));
}

#[test]
fn diagonal_movement_is_no_faster() {
    let c = Camera { x: 0, y: 0, dir_x: ONE, dir_y: 0, plane_x: 0, plane_y: 0 };
    let d = c.movement(true, false, false, true, ONE);
    assert_eq!(d, (231707, 231707));
    let straight = c.movement(true, false, false, false, ONE);
    assert_eq!(straight, (327680, 0));
    assert!(d.0 < straight.0 && d.1 < straight.0);
}

#[test]
fn movement_of_extreme_vectors_stays_in_range() {
    let c = Camera { x: 0, y: 0, dir_x: i32::MIN, dir_y: i32::MIN, plane_x: 0, plane_y: 0 };
    let d = c.movement(true, false, true, false, i32::MAX);
    let step = 5 * (i32::MAX as i64);
    assert!(-step <= d.0 && d.0 <= step);
    assert!(-step <= d.1 && d.1 <= step);
    assert_eq!(d.1, 0);
    assert_eq!(d.0, -step);
}

#[test]
fn moving_into_a_wall_changes_nothing_on_that_axis() {
    let map = room();
    let mut c = camera_at(98304, 98304);
    c.try_move(&map, -65536, 0);
    assert_eq!((c.x, c.y), (98304, 98304));
    c.try_move(&map, 0, -40000);
    assert_eq!((c.x, c.y), (98304, 98304));
    c.try_move(&map, 65536, 65536);
    assert_eq!((c.x, c.y), (163840, 98304));
    let mut c = camera_at(98304, 98304);
    c.try_move(&map, -40000, 70000);
    assert_eq!((c.x, c.y), (98304, 168304));
}

#[test]
fn moving_into_an_empty_cell_takes_the_full_step() {
    let map = room();
    let mut c = camera_at(98304, 98304);
    c.try_move(&map, 100, -200);
    assert_eq!((c.x, c.y), (98404, 98104));
    c.try_move(&map, 131072 - 100, 131072 + 200);
    assert_eq!((c.x, c.y), (98304 + 131072, 98304 + 131072));
    c.try_move(&map, -32768, 0);
    assert_eq!(c.x, 98304 + 131072 - 32768);
}

#[test]
fn sliding_along_a_wall() {
    let map = room();
    let mut c = camera_at(ONE + 100, ONE + ONE / 2);
    c.try_move(&map, -200, 3000);
    assert_eq!((c.x, c.y), (ONE + 100, ONE + ONE / 2 + 3000));
}

#[test]
fn steps_beyond_the_number_range_are_blocked() {
    let map = room();
    let mut c = camera_at(98304, 98304);
    c.try_move(&map, i64::MAX, i64::MIN);
    assert_eq!((c.x, c.y), (98304, 98304));
    c.try_move(&map, i32::MAX as i64, i32::MAX as i64);
    assert_eq!((c.x, c.y), (98304, 98304));
}

#[test]
fn a_camera_outside_the_map_can_walk_in() {
    let map = room();
    let mut c = camera_at(-ONE, 98304);
    c.try_move(&map, 10, 0);
    assert_eq!(c.x, -ONE);
    c.try_move(&map, (2 * ONE + ONE / 2) as i64, 0);
    assert_eq!(c.x, ONE + ONE / 2);
}
