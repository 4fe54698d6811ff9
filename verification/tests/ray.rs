use raycaster::camera::Camera;
use raycaster::ray::{cast, cast_ray, cast_rays, Ray};
use raycaster::tile_map::TileMap;

const ONE: i32 = 65536;

fn demo_walls() -> Vec<Vec<u32>> {
    vec![
        vec![1, 1, 1, 1, 1, 1, 1, 1, 1, 1],
        vec![2, 0, 0, 0, 0, 0, 0, 0, 0, 1],
        vec![1, 0, 0, 0, 0, 0, 0, 0, 0, 1],
        vec![1, 1, 0, 1, 0, 0, 1, 0, 0, 1],
        vec![1, 0, 0, 1, 0, 0, 1, 0, 0, 1],
        vec![1, 0, 0, 1, 1, 1, 1, 0, 1, 1],
        vec![1, 0, 0, 1, 0, 0, 0, 0, 0, 1],
        vec![1, 0, 0, 1, 0, 0, 0, 0, 0, 1],
        vec![1, 0, 0, 0, 0, 0, 0, 0, 0, 1],
        vec![1, 1, 1, 1, 1, 1, 1, 1, 1, 1],
    ]
}

fn demo_map() -> TileMap {
    let flat = vec![vec![1u32; 10]; 10];
    TileMap::new(demo_walls(), flat.clone(), flat)
}

fn bordered_map(n: usize) -> TileMap {
    let mut walls = vec![vec![0u32; n]; n];
    for k in 0..n {
        walls[0][k] = 1;
        walls[n - 1][k] = 1;
        walls[k][0] = 1;
        walls[k][n - 1] = 1;
    }
    let flat = vec![vec![0u32; n]; n];
    TileMap::new(walls, flat.clone(), flat)
}

fn start_camera() -> Camera {
    Camera { x: 98304, y: 98304, dir_x: -ONE, dir_y: 0, plane_x: 0, plane_y: 43254 }
}

#[test]
fn centre_ray_of_the_start_pose_hits_the_west_border() {
    let map = bordered_map(10);
    let ray = cast_ray(&map, &start_camera(), 480, 960);
    assert_eq!(ray.side, 0);
    assert_eq!(ray.map_x, 0);
    assert_eq!(ray.map_y, 1);
    assert_eq!(ray.ray_dist, 32768);
    assert_eq!(ray.ray_dir_x, -65536);
    assert_eq!(ray.ray_dir_y, 0);
    assert_eq!(ray.wall_x, 32767);
}

#[test]
fn column_rays_fan_across_the_plane() {
    let map = demo_map();
    let rays = cast_rays(&map, &start_camera(), 8);
    assert_eq!(rays.len(), 8);
    let dir_y = [-43254, -32441, -21627, -10814, 0, 10813, 21627, 32440];
    let wall_x = [54394, 48988, 43581, 38174, 32767, 27361, 21954, 16547];
    for x in 0..8 {
        assert_eq!(
            rays[x],
            Ray {
                ray_dir_x: -65536,
                ray_dir_y: dir_y[x],
                ray_dist: 32768,
                map_x: 0,
                map_y: 1,
                side: 0,
                wall_x: wall_x[x],
            }
        );
        assert_eq!(rays[x], cast_ray(&map, &start_camera(), x as i32, 8));
    }
}

#[test]
fn no_columns_no_rays() {
    let map = demo_map();
    assert_eq!(cast_rays(&map, &start_camera(), 0).len(), 0);
    assert_eq!(cast_rays(&map, &start_camera(), -3).len(), 0);
}

#[test]
fn straight_ray_reports_the_exact_distance() {
    let map = demo_map();
    let east = cast(&map, 2 * ONE, 5 * ONE + ONE / 2, 65536, 0);
    assert_eq!((east.map_x, east.map_y, east.side), (3, 5, 0));
    assert_eq!(east.ray_dist, 65536);
    assert_eq!(east.wall_x, 32768);
    let west = cast(&map, 2 * ONE + ONE / 4, 5 * ONE + ONE / 2, -65536, 0);
    assert_eq!((west.map_x, west.map_y, west.side), (0, 5, 0));
    assert_eq!(west.ray_dist, 81920);
    assert_eq!(west.wall_x, 32767);
    let south = cast(&map, 4 * ONE + 100, 4 * ONE + ONE / 2, 0, 65536);
    assert_eq!((south.map_x, south.map_y, south.side), (4, 5, 1));
    assert_eq!(south.ray_dist, 32768);
    assert_eq!(south.wall_x, 65435);
    for d in 1..8 {
        let map = bordered_map(10);
        let ray = cast(&map, (9 - d) * ONE, 3 * ONE + 7, 65536, 0);
        assert_eq!(ray.ray_dist, (d as i64) * 65536);
        assert_eq!(ray.map_x, 9);
    }
}

#[test]
fn distance_is_measured_in_lengths_of_the_direction() {
    let map = demo_map();
    let north = cast(&map, 4 * ONE + 100, 4 * ONE + ONE / 2, 0, -131072);
    assert_eq!((north.map_x, north.map_y, north.side), (4, 0, 1));
    assert_eq!(north.ray_dist, 114688);
    assert_eq!(north.wall_x, 100);
}

#[test]
fn slanted_rays_walk_the_grid() {
    let map = demo_map();
    let a = cast(&map, 5 * ONE + ONE / 2, ONE + ONE / 4, 30000, 50000);
    assert_eq!(
        a,
        Ray {
            ray_dir_x: 30000,
            ray_dir_y: 50000,
            ray_dist: 150323,
            map_x: 6,
            map_y: 3,
            side: 1,
            wall_x: 29491
        }
    );
    let b = cast(&map, 5 * ONE + ONE / 2, ONE + ONE / 4, -70000, -1);
    assert_eq!(
        b,
        Ray {
            ray_dir_x: -70000,
            ray_dir_y: -1,
            ray_dist: 276105,
            map_x: 0,
            map_y: 1,
            side: 0,
            wall_x: 49156
        }
    );
}

#[test]
fn ray_without_direction_is_infinitely_far() {
    let map = demo_map();
    let ray = cast(&map, 4 * ONE + 100, 4 * ONE + ONE / 2, 0, 0);
    assert_eq!(ray.side, 1);
    assert_eq!(ray.ray_dist, i64::MAX);
    assert_eq!((ray.map_x, ray.map_y), (4, 5));
    assert_eq!(ray.wall_x, 100);
}

#[test]
fn ray_from_outside_the_map_stops_at_once() {
    let map = demo_map();
    let ray = cast(&map, -3 * ONE, 4 * ONE + ONE / 2, 65536, 0);
    assert_eq!((ray.map_x, ray.map_y, ray.side), (-2, 4, 0));
    assert_eq!(ray.ray_dist, 65536);
    let empty = TileMap::new(vec![], vec![], vec![]);
    let ray = cast(&empty, 0, 0, i64::MIN, i64::MAX);
    assert_eq!((ray.map_x, ray.map_y), (-1, 0));
}

#[test]
fn every_ray_in_a_closed_room_ends_on_a_wall() {
    let map = demo_map();
    let walls = demo_walls();
    let dirs: [i64; 9] = [-200000, -65536, -4097, -1, 0, 1, 4097, 65536, 200000];
    for dx in dirs {
        for dy in dirs {
            for (px, py) in [(98304, 98304), (7 * ONE + 1, 7 * ONE + 65535), (4 * ONE, 2 * ONE)] {
                let ray = cast(&map, px, py, dx, dy);
                assert!(ray.ray_dist >= 0);
                assert!(0 <= ray.wall_x && ray.wall_x < 65536);
                assert!(ray.side == 0 || ray.side == 1);
                assert!(0 <= ray.map_x && ray.map_x < 10 && 0 <= ray.map_y && ray.map_y < 10);
                assert!(walls[ray.map_y as usize][ray.map_x as usize] != 0);
                let far = (ray.map_x - px / ONE).abs() + (ray.map_y - py / ONE).abs();
                assert!(1 <= far && far <= 20);
            }
        }
    }
}

#[test]
fn rays_cross_a_large_empty_map() {
    let map = bordered_map(300);
    let ray = cast(&map, ONE + ONE / 2, ONE + ONE / 2, 65536, 65536);
    assert_eq!((ray.map_x, ray.map_y), (298, 299));
    assert_eq!(ray.side, 1);
    assert_eq!(ray.ray_dist, 297 * 65536 + 32768);
}
