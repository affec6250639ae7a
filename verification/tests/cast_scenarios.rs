use raycaster::dda::{cast, Ray, FAR, MAX_STEPS, MIN_DIST};
use raycaster::fixed::ONE;
use raycaster::map::{to_map, TileMap, BOUNDARY_WALL};

fn fixed(v: f64) -> i32 {
    (v * 65536.0).round() as i32
}

fn ray_at(angle: f64) -> Ray {
    Ray { dx: fixed(angle.cos()), dy: fixed(angle.sin()) }
}

fn open_map(w: usize, h: usize) -> TileMap {
    TileMap { w, h, tiles: vec![0; w * h] }
}

#[test]
fn single_empty_cell_facing_east() {
    let map = open_map(1, 1);
    let hit = cast(&map, 32768, 32768, Ray { dx: 65536, dy: 0 });
    assert_eq!(hit.tile, BOUNDARY_WALL);
    assert_eq!(hit.dist, 32768);
    assert_eq!(hit.side, 0);
    assert_eq!(hit.u, 32768);
    assert_eq!(hit.coord, 32768);
    assert_eq!(ONE, 65536);
}

#[test]
fn single_empty_cell_facing_each_axis() {
    let map = open_map(1, 1);
    let west = cast(&map, 16384, 32768, Ray { dx: -65536, dy: 0 });
    assert_eq!((west.tile, west.side, west.dist, west.u), (1, 0, 16384, 32768));
    let south = cast(&map, 16384, 49152, Ray { dx: 0, dy: 65536 });
    assert_eq!((south.tile, south.side, south.dist, south.u), (1, 1, 16384, 16384));
    let north = cast(&map, 16384, 49152, Ray { dx: 0, dy: -65536 });
    assert_eq!((north.tile, north.side, north.dist, north.u), (1, 1, 49152, 16384));
}

#[test]
fn walled_in_centre_hits_within_two_cells() {
    let map = TileMap { w: 3, h: 3, tiles: vec![1, 1, 1, 1, 0, 1, 1, 1, 1] };
    let limit = (2.0 * 2.0f64.sqrt() * 65536.0) as i64;
    let mut k = 0;
    while k < 720 {
        let angle = (k as f64) * std::f64::consts::PI / 360.0;
        let hit = cast(&map, fixed(1.5), fixed(1.5), ray_at(angle));
        assert_eq!(hit.tile, 1);
        assert!(hit.dist > 0 && hit.dist <= limit, "angle {} gives {}", k, hit.dist);
        assert!(hit.side == 0 || hit.side == 1);
        assert!(hit.u >= 0 && (hit.u as i64) < ONE);
        k += 1;
    }
}

#[test]
fn walled_in_centre_distance_follows_the_angle() {
    let map = TileMap { w: 3, h: 3, tiles: vec![1, 1, 1, 1, 0, 1, 1, 1, 1] };
    let angle = 0.3f64;
    let hit = cast(&map, fixed(1.5), fixed(1.5), ray_at(angle));
    let expected = 0.5 / angle.cos();
    let got = hit.dist as f64 / 65536.0;
    assert!((got - expected).abs() < 0.001);
    assert_eq!(hit.side, 0);
    let along = 1.5 + 0.5 * angle.tan();
    assert!((hit.coord as f64 / 65536.0 - along).abs() < 0.001);
}

#[test]
fn axis_rays_stop_and_report_a_finite_distance() {
    let map = TileMap::level1();
    let rays = [
        Ray { dx: 65536, dy: 0 },
        Ray { dx: -65536, dy: 0 },
        Ray { dx: 0, dy: 65536 },
        Ray { dx: 0, dy: -65536 },
    ];
    for ray in rays {
        let hit = cast(&map, fixed(1.5), fixed(1.5), ray);
        assert!(hit.dist >= MIN_DIST && hit.dist < FAR);
        assert_ne!(hit.tile, 0);
    }
    let east = cast(&map, fixed(1.5), fixed(1.5), rays[0]);
    assert_eq!((east.tile, east.side, east.dist), (1, 0, fixed(10.5) as i64));
    let south = cast(&map, fixed(1.5), fixed(1.5), rays[2]);
    assert_eq!((south.tile, south.side, south.dist), (1, 1, fixed(9.5) as i64));
}

#[test]
fn axis_ray_stops_at_the_first_wall_of_its_row() {
    let map = TileMap::level1();
    let hit = cast(&map, fixed(1.5), fixed(2.5), Ray { dx: 65536, dy: 0 });
    assert_eq!(hit.tile, 2);
    assert_eq!(hit.dist, fixed(0.5) as i64);
    assert_eq!(hit.side, 0);
    assert_eq!(hit.coord, fixed(2.5) as i64);
    assert_eq!(hit.u, 32768);
}

#[test]
fn open_map_is_left_through_the_border_ahead() {
    let map = open_map(5, 4);
    let hit = cast(&map, fixed(2.25), fixed(1.5), Ray { dx: 65536, dy: 0 });
    assert_eq!((hit.tile, hit.side, hit.dist), (BOUNDARY_WALL, 0, fixed(2.75) as i64));
    let hit = cast(&map, fixed(2.25), fixed(1.5), Ray { dx: -65536, dy: 0 });
    assert_eq!((hit.tile, hit.side, hit.dist), (BOUNDARY_WALL, 0, fixed(2.25) as i64));
    let hit = cast(&map, fixed(2.25), fixed(1.5), Ray { dx: 0, dy: 65536 });
    assert_eq!((hit.tile, hit.side, hit.dist), (BOUNDARY_WALL, 1, fixed(2.5) as i64));
    let diag = cast(&map, fixed(2.5), fixed(1.5), ray_at(0.7));
    assert_eq!(diag.tile, BOUNDARY_WALL);
    let exact = if diag.side == 0 { 2.5 / 0.7f64.cos() } else { 2.5 / 0.7f64.sin() };
    assert!((diag.dist as f64 / 65536.0 - exact).abs() < 0.001);
}

#[test]
fn a_walk_is_cut_off_after_its_steps() {
    let map = open_map(400, 1);
    let hit = cast(&map, fixed(0.5), fixed(0.5), Ray { dx: 65536, dy: 0 });
    assert_eq!(MAX_STEPS, 200);
    assert_eq!(hit.tile, BOUNDARY_WALL);
    assert_eq!(hit.side, 0);
    assert_eq!(hit.dist, fixed(199.5) as i64);
}

#[test]
fn a_ray_from_inside_a_wall_stops_at_once() {
    let map = TileMap { w: 2, h: 1, tiles: vec![3, 0] };
    let hit = cast(&map, fixed(0.25), fixed(0.5), Ray { dx: 65536, dy: 0 });
    assert_eq!(hit.tile, 3);
    assert_eq!(hit.side, 0);
    assert_eq!(hit.dist, fixed(0.25) as i64);
}

#[test]
fn a_ray_from_outside_the_map_hits_the_boundary() {
    let map = open_map(2, 2);
    let hit = cast(&map, fixed(-3.5), fixed(0.5), Ray { dx: 65536, dy: 0 });
    assert_eq!(hit.tile, BOUNDARY_WALL);
    assert!(hit.dist >= MIN_DIST);
    let hit = cast(&map, i32::MIN, i32::MAX, Ray { dx: i32::MIN, dy: i32::MAX });
    assert_eq!(hit.tile, BOUNDARY_WALL);
    assert!(hit.dist >= MIN_DIST && hit.dist <= FAR);
}

#[test]
fn a_ray_without_direction_reports_the_far_distance() {
    let map = open_map(3, 3);
    let hit = cast(&map, fixed(1.5), fixed(1.5), Ray { dx: 0, dy: 0 });
    assert_eq!(hit.tile, BOUNDARY_WALL);
    assert_eq!(hit.dist, FAR);
    assert!(hit.u >= 0 && (hit.u as i64) < ONE);
}

#[test]
fn the_least_distance_is_kept() {
    let map = TileMap { w: 2, h: 1, tiles: vec![0, 1] };
    let hit = cast(&map, 65536 - 3, fixed(0.5), Ray { dx: 65536, dy: 0 });
    assert_eq!(hit.tile, 1);
    assert_eq!(hit.dist, MIN_DIST);
}

#[test]
fn lookups_outside_the_grid_read_the_boundary() {
    let map = TileMap { w: 2, h: 2, tiles: vec![0, 5, 9, 0] };
    assert_eq!(map.at(0, 0), 0);
    assert_eq!(map.at(1, 0), 5);
    assert_eq!(map.at(0, 1), 9);
    assert_eq!(map.at(1, 1), 0);
    assert_eq!(map.at(-1, 0), BOUNDARY_WALL);
    assert_eq!(map.at(0, -1), BOUNDARY_WALL);
    assert_eq!(map.at(2, 0), BOUNDARY_WALL);
    assert_eq!(map.at(0, 2), BOUNDARY_WALL);
    assert_eq!(map.at(i32::MIN, i32::MAX), BOUNDARY_WALL);
    assert_ne!(BOUNDARY_WALL, 0);
}

#[test]
fn levels_are_walled_rooms() {
    let one = TileMap::level1();
    assert_eq!((one.w, one.h, one.tiles.len()), (13, 12, 156));
    assert_eq!(one.at(0, 0), 1);
    assert_eq!(one.at(1, 1), 0);
    assert_eq!(one.at(2, 2), 2);
    assert_eq!(one.at(8, 2), 3);
    assert_eq!(one.at(4, 5), 5);
    assert_eq!(one.at(10, 8), 4);
    assert_eq!(one.at(10, 9), 9);
    assert_eq!(one.at(12, 11), 1);
    let two = TileMap::level2();
    assert_eq!((two.w, two.h, two.tiles.len()), (15, 12, 180));
    assert_eq!(two.at(0, 0), 2);
    assert_eq!(two.at(2, 2), 3);
    assert_eq!(two.at(8, 2), 4);
    assert_eq!(two.at(5, 6), 5);
    assert_eq!(two.at(10, 9), 9);
    assert_eq!(two.at(1, 1), 0);
    let demo = TileMap::demo();
    assert_eq!(demo.tiles, one.tiles);
}

#[test]
fn a_level_is_read_from_its_text() {
    let map = to_map(&["0.1", "2x9", "345"]);
    assert_eq!((map.w, map.h), (3, 3));
    assert_eq!(map.tiles, vec![0, 0, 1, 2, 1, 9, 3, 4, 5]);
}

#[test]
fn a_map_without_cells_is_all_boundary() {
    let map = TileMap { w: 0, h: 0, tiles: vec![] };
    assert_eq!(map.at(0, 0), BOUNDARY_WALL);
    let hit = cast(&map, fixed(0.5), fixed(0.5), Ray { dx: 46341, dy: 46341 });
    assert_eq!(hit.tile, BOUNDARY_WALL);
    assert!(hit.dist >= MIN_DIST && hit.dist < FAR);
    let map = TileMap { w: 0, h: 3, tiles: vec![] };
    let hit = cast(&map, fixed(0.5), fixed(0.5), Ray { dx: 0, dy: -65536 });
    assert_eq!(hit.tile, BOUNDARY_WALL);
}

#[test]
fn the_distance_in_an_open_map_is_the_way_out() {
    let map = open_map(5, 4);
    let origins = [(2.3f64, 1.7f64), (0.5, 0.5), (4.9, 3.2), (0.02, 3.98), (2.0, 2.0)];
    for (ox, oy) in origins {
        for k in 0..360 {
            let angle = (k as f64) * std::f64::consts::PI / 180.0 + 0.001;
            let (c, s) = (angle.cos(), angle.sin());
            let tx = if c > 0.0 { (5.0 - ox) / c } else { -ox / c };
            let ty = if s > 0.0 { (4.0 - oy) / s } else { -oy / s };
            let t = tx.min(ty);
            let hit = cast(&map, fixed(ox), fixed(oy), ray_at(angle));
            assert_eq!(hit.tile, BOUNDARY_WALL);
            let got = hit.dist as f64 / 65536.0;
            assert!(
                (got - t).abs() <= 0.001 * t.max(1.0),
                "from {} {} at {} degrees: {} for {}",
                ox,
                oy,
                k,
                got,
                t
            );
        }
    }
    let map = open_map(1, 1);
    for k in 0..360 {
        let angle = (k as f64) * std::f64::consts::PI / 180.0 + 0.001;
        let (c, s) = (angle.cos(), angle.sin());
        let tx = if c > 0.0 { 0.5 / c } else { -0.5 / c };
        let ty = if s > 0.0 { 0.5 / s } else { -0.5 / s };
        let hit = cast(&map, 32768, 32768, ray_at(angle));
        assert!((hit.dist as f64 / 65536.0 - tx.min(ty)).abs() <= 0.001);
    }
}
