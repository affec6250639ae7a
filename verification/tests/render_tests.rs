use raycaster::dda::{cast, Ray};
use raycaster::map::TileMap;
use raycaster::procedural::generate_texture_pixel;
use raycaster::raycaster::{
    clip, paint_backdrop, project_height, ray_angle, strip_bounds, Light, Raycaster, FAR_CLIP,
    NEAR_CLIP,
};

const W: usize = 1024;
const H: usize = 576;

fn fixed(v: f64) -> i32 {
    (v * 65536.0).round() as i32
}

fn pixel(frame: &[u8], x: usize, y: usize) -> [u8; 4] {
    let i = (y * W + x) * 4;
    [frame[i], frame[i + 1], frame[i + 2], frame[i + 3]]
}

fn fan(angle: f64, fov: f64) -> Vec<Ray> {
    let mut rays = Vec::new();
    for sx in 0..W {
        let a = angle - fov * 0.5 + (sx as f64 / W as f64) * fov;
        rays.push(Ray { dx: fixed(a.cos()), dy: fixed(a.sin()) });
    }
    rays
}

fn sky_by_float(y: u32) -> [u8; 3] {
    let t = y as f32 / 288.0;
    let t_smooth = t * t * (3.0 - 2.0 * t);
    [
        (135.0 * (1.0 - t_smooth) + 40.0 * t_smooth) as u8,
        (206.0 * (1.0 - t_smooth) + 70.0 * t_smooth) as u8,
        (235.0 * (1.0 - t_smooth) + 130.0 * t_smooth) as u8,
    ]
}

fn ground_by_float(x: u32, y: u32) -> [u8; 3] {
    let t = (y - 288) as f32 / 288.0;
    let base_r = (40.0 + t * 30.0) as u8;
    let base_g = (80.0 + t * 40.0) as u8;
    let base_b = (30.0 + t * 20.0) as u8;
    let grass = ((x * 5 + y * 7) % 13) as i8 - 6;
    [
        (base_r as i16 + grass as i16).clamp(0, 255) as u8,
        (base_g as i16 + grass as i16).clamp(0, 255) as u8,
        (base_b as i16 + grass as i16 / 2).clamp(0, 255) as u8,
    ]
}

#[test]
fn backdrop_is_sky_stars_and_ground() {
    let mut frame = vec![7u8; W * H * 4 + 5];
    paint_backdrop(&mut frame);
    let mut stars = 0;
    for y in 0..H as u32 {
        for x in 0..W as u32 {
            let got = pixel(&frame, x as usize, y as usize);
            let want = if y < 288 {
                if y < 144 && (x * 73 + y * 97) % 997 < 2 {
                    stars += 1;
                    let b = 200 + ((x + y) % 55) as u8;
                    [b, b, b]
                } else {
                    sky_by_float(y)
                }
            } else {
                ground_by_float(x, y)
            };
            assert_eq!(got, [want[0], want[1], want[2], 255], "at {} {}", x, y);
        }
    }
    assert_eq!(stars, 297);
    assert_eq!(&frame[W * H * 4..], &[7u8; 5]);
    assert_eq!(pixel(&frame, 519, 0), [224, 224, 224, 255]);
    assert_eq!(pixel(&frame, 5, 10), [134, 205, 234, 255]);
    assert_eq!(pixel(&frame, 1023, 575), [64, 114, 47, 255]);
}

#[test]
fn a_wall_ahead_fills_the_middle_of_each_column() {
    let map = TileMap::level1();
    let rays = vec![Ray { dx: 65536, dy: 0 }; W];
    let mut r = Raycaster::new();
    let mut frame = vec![0u8; W * H * 4];
    r.render(&mut frame, &map, fixed(6.5), fixed(3.5), &rays);
    assert_eq!(r.zbuffer, vec![360448; W]);
    assert_eq!(pixel(&frame, 0, 0), [200, 200, 200, 255]);
    assert_eq!(pixel(&frame, 100, 100), [108, 168, 205, 255]);
    assert_eq!(pixel(&frame, 512, 200), [61, 100, 153, 255]);
    assert_eq!(pixel(&frame, 512, 235), [48, 82, 139, 255]);
    assert_eq!(pixel(&frame, 512, 236), [90, 82, 75, 255]);
    assert_eq!(pixel(&frame, 512, 238), [90, 82, 75, 255]);
    assert_eq!(pixel(&frame, 512, 288), [150, 37, 33, 255]);
    assert_eq!(pixel(&frame, 512, 337), [161, 42, 39, 255]);
    assert_eq!(pixel(&frame, 512, 339), [161, 42, 39, 255]);
    assert_eq!(pixel(&frame, 7, 300), [164, 44, 40, 255]);
    assert_eq!(pixel(&frame, 1023, 575), [64, 114, 47, 255]);
}

#[test]
fn a_close_wall_fills_the_column_and_side_faces_are_darker() {
    let map = TileMap::level1();
    let mut r = Raycaster::new();
    let mut frame = vec![0u8; W * H * 4];
    let east = vec![Ray { dx: 65536, dy: 0 }; W];
    r.render(&mut frame, &map, fixed(3.5), fixed(5.5), &east);
    assert_eq!(r.zbuffer[3], 32768);
    assert_eq!(r.hits[3].tile, 5);
    assert_eq!(r.hits[3].side, 0);
    assert_eq!(pixel(&frame, 3, 0), [191, 191, 135, 255]);
    assert_eq!(pixel(&frame, 3, 100), [191, 177, 45, 255]);
    assert_eq!(pixel(&frame, 3, 288), [191, 177, 45, 255]);
    assert_eq!(pixel(&frame, 3, 575), [191, 183, 48, 255]);
    let south = vec![Ray { dx: 0, dy: 65536 }; W];
    r.render(&mut frame, &map, fixed(6.2), fixed(4.5), &south);
    assert_eq!(r.hits[3].side, 1);
    assert_eq!(pixel(&frame, 3, 0), [255, 255, 180, 255]);
    assert_eq!(pixel(&frame, 3, 100), [255, 245, 65, 255]);
    assert_eq!(pixel(&frame, 3, 287), [255, 236, 60, 255]);
    assert_eq!(pixel(&frame, 3, 575), [255, 200, 40, 255]);
}

#[test]
fn rendering_twice_gives_the_same_bytes() {
    let map = TileMap::level2();
    let rays = fan(0.4, 1.0);
    let mut first = vec![3u8; W * H * 4 + 9];
    let mut second = vec![3u8; W * H * 4 + 9];
    let mut a = Raycaster::new();
    let mut b = Raycaster::new();
    a.render(&mut first, &map, fixed(7.5), fixed(5.25), &rays);
    b.render(&mut second, &map, fixed(7.5), fixed(5.25), &rays);
    assert!(first == second);
    assert_eq!(a.zbuffer, b.zbuffer);
    let again = first.clone();
    a.render(&mut first, &map, fixed(7.5), fixed(5.25), &rays);
    assert!(first == again);
    assert_eq!(&first[W * H * 4..], &[3u8; 9]);
    let mut dirty = vec![200u8; W * H * 4 + 9];
    dirty[W * H * 4..].copy_from_slice(&[3u8; 9]);
    b.render(&mut dirty, &map, fixed(7.5), fixed(5.25), &rays);
    assert!(dirty == first);
}

#[test]
fn depths_are_the_clipped_distances_of_the_rays() {
    let map = TileMap::level1();
    let rays = fan(-1.2, 1.1);
    let mut r = Raycaster::new();
    let mut frame = vec![0u8; W * H * 4];
    let (px, py) = (fixed(2.75), fixed(7.5));
    r.render(&mut frame, &map, px, py, &rays);
    for sx in 0..W {
        let hit = cast(&map, px, py, rays[sx]);
        assert_eq!(r.zbuffer[sx], hit.dist.max(NEAR_CLIP).min(FAR_CLIP));
        assert_eq!(r.zbuffer[sx], clip(hit.dist));
        assert_eq!(r.hits[sx].dist, hit.dist);
        assert_eq!(r.hits[sx].tile, hit.tile);
        assert_eq!(r.hits[sx].side, hit.side);
        assert_eq!(r.hits[sx].u, hit.u);
        let h = project_height(r.zbuffer[sx]);
        let (top, bottom) = strip_bounds(h);
        let mid = ((top + bottom) / 2) as usize;
        assert_eq!(pixel(&frame, sx, mid)[3], 255);
    }
}

#[test]
fn a_farther_wall_is_never_higher() {
    let mut last = i32::MAX;
    let mut d = NEAR_CLIP;
    while d <= FAR_CLIP {
        let h = project_height(d);
        assert!(h >= 0 && h <= 1152);
        assert!(h <= last);
        last = h;
        d += 997;
    }
    assert_eq!(project_height(NEAR_CLIP), 1152);
    assert_eq!(project_height(2 * NEAR_CLIP), 1152);
    assert_eq!(project_height(65536), 576);
    assert_eq!(project_height(2 * 65536), 288);
    assert_eq!(project_height(3 * 65536), 192);
    assert_eq!(project_height(FAR_CLIP), 5);
    assert_eq!(project_height(50 * 65536), project_height(50 * 65536 + 655));
    assert_eq!(strip_bounds(576), (0, 576));
    assert_eq!(strip_bounds(1152), (0, 576));
    assert_eq!(strip_bounds(104), (236, 340));
    assert_eq!(strip_bounds(5), (286, 291));
    assert_eq!(clip(0), NEAR_CLIP);
    assert_eq!(clip(i64::MAX), FAR_CLIP);
    assert_eq!(clip(70000), 70000);
}

#[test]
fn moving_back_along_a_corridor_lowers_the_wall() {
    let map = TileMap { w: 12, h: 1, tiles: vec![0, 0, 0, 0, 0, 0, 0, 0, 0, 0, 0, 2] };
    let ray = Ray { dx: 65536, dy: 0 };
    let mut last = i32::MAX;
    let mut x = fixed(10.5);
    while x > fixed(0.5) {
        let hit = cast(&map, x, fixed(0.5), ray);
        assert_eq!(hit.tile, 2);
        assert_eq!(hit.dist, (fixed(11.0) - x) as i64);
        let h = project_height(clip(hit.dist));
        assert!(h > 0 && h <= last);
        last = h;
        x -= fixed(0.5);
    }
    assert_eq!(last, 57);
}

#[test]
fn lighting_mixes_fog_into_the_walls_only() {
    let map = TileMap::level1();
    let rays = vec![Ray { dx: 65536, dy: 0 }; W];
    let mut r = Raycaster::new();
    let mut frame = vec![0u8; W * H * 4];
    r.render(&mut frame, &map, fixed(6.5), fixed(3.5), &rays);
    let plain = frame.clone();
    let mut lights = vec![Light { shade: 65536, fog: 65536 }; W];
    r.shade(&mut frame, &lights);
    assert!(frame == plain);
    lights[512] = Light { shade: 32768, fog: 49152 };
    lights[7] = Light { shade: -5, fog: 0 };
    lights[8] = Light { shade: 700000, fog: 700000 };
    lights[9] = Light { shade: 65536, fog: 0 };
    r.shade(&mut frame, &lights);
    assert_eq!(pixel(&frame, 512, 288), [97, 53, 66, 255]);
    assert_eq!(pixel(&frame, 512, 200), pixel(&plain, 512, 200));
    assert_eq!(pixel(&frame, 512, 340), pixel(&plain, 512, 340));
    assert_eq!(pixel(&frame, 7, 300), [90, 140, 200, 255]);
    assert_eq!(pixel(&frame, 8, 300), pixel(&plain, 8, 300));
    assert_eq!(pixel(&frame, 9, 236), [180, 222, 255, 255]);
    assert_eq!(pixel(&frame, 300, 300), pixel(&plain, 300, 300));
}

#[test]
fn columns_divide_the_field_of_view_evenly() {
    assert_eq!(ray_angle(0, 65536, 0), -32768);
    assert_eq!(ray_angle(0, 65536, 512), 0);
    assert_eq!(ray_angle(0, 65536, 1023), 32704);
    assert_eq!(ray_angle(1000, 65536, 256), 1000 - 16384);
    assert_eq!(ray_angle(7, 3, 1), 7 - 1);
    assert_eq!(ray_angle(7, -3, 1), 7 + 2 - 1);
    assert_eq!(ray_angle(i32::MAX, i32::MIN, 1023), 2147483647i64 + 1073741824 - 2145386496);
    for sx in 0..1024u32 {
        let by_float = 0.25f32 - 1.0 * 0.5 + (sx as f32 / 1024.0) * 1.0;
        let got = ray_angle(16384, 65536, sx) as f32 / 65536.0;
        assert!((got - by_float).abs() < 0.0001);
    }
}

#[test]
fn textures_are_sampled_by_fractions() {
    let r = Raycaster::new();
    assert_eq!(r.sample(1, 0, 0), generate_texture_pixel(1, 0, 0));
    assert_eq!(r.sample(1, 65535, 65535), generate_texture_pixel(1, 31, 31));
    assert_eq!(r.sample(5, 32768, 2048), generate_texture_pixel(5, 16, 1));
    assert_eq!(r.sample(9, 2047, 2048), generate_texture_pixel(9, 0, 1));
    assert_eq!(r.sample(10, 100, 100), [200, 200, 200]);
    assert_eq!(r.sample(255, 65535, 0), [200, 200, 200]);
}
