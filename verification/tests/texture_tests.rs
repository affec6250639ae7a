use raycaster::procedural::{generate_texture_pixel, TEX_SIZE};
use raycaster::raycaster::Raycaster;

fn lava_by_float(tx: u32, ty: u32) -> [u8; 3] {
    let flow_pattern = ((tx + ty * 2) % 12) as f32 / 12.0;
    let bubble = (tx * ty) % 37 < 5;
    let heat_base = 200 + (flow_pattern * 55.0) as u8;
    if bubble {
        [255, 255, 180]
    } else {
        [255, heat_base, 40 + (flow_pattern * 30.0) as u8]
    }
}

#[test]
fn lava_matches_its_fractions() {
    for ty in 0..TEX_SIZE {
        for tx in 0..TEX_SIZE {
            assert_eq!(generate_texture_pixel(5, tx, ty), lava_by_float(tx, ty));
        }
    }
}

#[test]
fn bricks_have_mortar_and_offset_rows() {
    assert_eq!(generate_texture_pixel(1, 0, 0), [120, 110, 100]);
    assert_eq!(generate_texture_pixel(1, 9, 1), [120, 110, 100]);
    assert_eq!(generate_texture_pixel(1, 3, 5), [120, 110, 100]);
    assert_eq!(generate_texture_pixel(1, 5, 6), [120, 110, 100]);
    assert_eq!(generate_texture_pixel(1, 1, 1), [200, 50, 45]);
    assert_eq!(generate_texture_pixel(1, 2, 1), [207, 54, 49]);
    assert_eq!(generate_texture_pixel(1, 3, 1), [214, 57, 52]);
}

#[test]
fn every_texture_has_its_pattern() {
    assert_eq!(generate_texture_pixel(2, 0, 0), [40, 200, 80]);
    assert_eq!(generate_texture_pixel(2, 16, 1), [30, 130, 50]);
    assert_eq!(generate_texture_pixel(2, 1, 1), [51, 181, 81]);
    assert_eq!(generate_texture_pixel(2, 4, 1), [44, 202, 81]);
    assert_eq!(generate_texture_pixel(3, 0, 3), [35, 65, 180]);
    assert_eq!(generate_texture_pixel(3, 1, 1), [120, 160, 255]);
    assert_eq!(generate_texture_pixel(3, 4, 4), [60, 110, 230]);
    assert_eq!(generate_texture_pixel(3, 12, 4), [50, 95, 215]);
    assert_eq!(generate_texture_pixel(4, 0, 0), [255, 240, 180]);
    assert_eq!(generate_texture_pixel(4, 2, 2), [230, 200, 70]);
    assert_eq!(generate_texture_pixel(4, 4, 2), [210, 180, 50]);
    assert_eq!(generate_texture_pixel(4, 8, 2), [190, 165, 40]);
    assert_eq!(generate_texture_pixel(5, 0, 0), [255, 255, 180]);
    assert_eq!(generate_texture_pixel(5, 1, 6), [255, 204, 42]);
    assert_eq!(generate_texture_pixel(9, 0, 0), [200, 200, 255]);
    assert_eq!(generate_texture_pixel(9, 1, 4), [244, 244, 255]);
    assert_eq!(generate_texture_pixel(9, 5, 4), [210, 210, 255]);
    assert_eq!(generate_texture_pixel(0, 0, 0), [165, 165, 165]);
    assert_eq!(generate_texture_pixel(7, 1, 1), [165, 165, 165]);
    assert_eq!(generate_texture_pixel(200, 2, 1), [178, 178, 178]);
}

#[test]
fn the_cache_holds_every_texel() {
    let r = Raycaster::new();
    assert_eq!(r.tex_cache.len(), 10);
    assert_eq!(r.zbuffer, vec![0; 1024]);
    assert_eq!(r.hits.len(), 1024);
    for id in 0..10u8 {
        assert_eq!(r.tex_cache[id as usize].len(), 1024);
        for ty in 0..32u32 {
            for tx in 0..32u32 {
                assert_eq!(
                    r.tex_cache[id as usize][(ty * 32 + tx) as usize],
                    generate_texture_pixel(id, tx, ty)
                );
            }
        }
    }
}
