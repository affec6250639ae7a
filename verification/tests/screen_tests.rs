use raycaster::dda::Ray;
use raycaster::draw::{
    draw_border, draw_line, draw_line_large, draw_rect_alpha, gradient_vertical, line_basic,
    line_thick, measure_line, measure_line_large, rect, soft_halo,
};
use raycaster::map::TileMap;
use raycaster::minimap::draw_minimap;
use raycaster::screens::{
    draw_menu, draw_menu_option_text_only, draw_star_outline, draw_title, draw_win,
    paint_win_backdrop,
};

const W: usize = 1024;
const H: usize = 576;

fn blank(fill: u8) -> Vec<u8> {
    vec![fill; W * H * 4]
}

fn pixel(frame: &[u8], x: usize, y: usize) -> [u8; 4] {
    let i = (y * W + x) * 4;
    [frame[i], frame[i + 1], frame[i + 2], frame[i + 3]]
}

fn star(cx: i32, cy: i32, r: f32, rot: f32) -> Vec<(i32, i32)> {
    let mut pts = Vec::new();
    for k in 0..10 {
        let radius = if k % 2 == 0 { r } else { r * 0.45 };
        let ang = -std::f32::consts::FRAC_PI_2 + rot + (k as f32) * (std::f32::consts::PI / 5.0);
        pts.push((
            (cx as f32 + ang.cos() * radius).round() as i32,
            (cy as f32 + ang.sin() * radius).round() as i32,
        ));
    }
    pts
}

fn title(frame: &mut [u8], text: &str, x: i32, y: i32, c: [[u8; 3]; 4]) {
    for off in 2..=3 {
        draw_line_large(frame, text, x + off, y, c[0]);
        draw_line_large(frame, text, x - off, y, c[0]);
        draw_line_large(frame, text, x, y + off, c[0]);
        draw_line_large(frame, text, x, y - off, c[0]);
    }
    draw_line_large(frame, text, x + 1, y, c[1]);
    draw_line_large(frame, text, x - 1, y, c[1]);
    draw_line_large(frame, text, x, y + 1, c[1]);
    draw_line_large(frame, text, x, y - 1, c[1]);
    draw_line_large(frame, text, x + 2, y + 2, c[2]);
    draw_line_large(frame, text, x, y, c[3]);
}

#[test]
fn the_small_map_shows_tiles_and_the_player() {
    let map = TileMap::level1();
    let mut frame = blank(60);
    draw_minimap(&mut frame, &map, (6.5f32 * 65536.0) as i32, (3.5f32 * 65536.0) as i32, Ray { dx: 65536, dy: 0 });
    let mut expect = blank(60);
    let (mw, mh) = (13 * 8 + 20, 12 * 8 + 20);
    for offset in 0..6 {
        draw_rect_alpha(&mut expect, 20 + offset, 20 + offset, mw, mh, [0, 0, 0], (40 - offset * 6) as u8);
    }
    gradient_vertical(&mut expect, 20, 20, mw, mh, [25, 28, 35], [18, 20, 26]);
    draw_border(&mut expect, 20, 20, mw, mh, [100, 110, 130], 2);
    for y in 0..12 {
        for x in 0..13 {
            let id = map.at(x, y);
            let c: [u8; 3] = match id {
                0 => [22, 24, 28],
                1 => [200, 70, 70],
                2 => [70, 190, 85],
                3 => [70, 120, 210],
                4 => [210, 190, 70],
                5 => [255, 130, 50],
                9 => [200, 200, 255],
                _ => [80, 80, 90],
            };
            let (tx, ty) = (30 + x * 8, 30 + y * 8);
            rect(&mut expect, tx, ty, 8, 8, c);
            if id != 0 {
                let darker = [
                    (c[0] as f32 * 0.7) as u8,
                    (c[1] as f32 * 0.7) as u8,
                    (c[2] as f32 * 0.7) as u8,
                ];
                rect(&mut expect, tx, ty, 8, 1, darker);
                rect(&mut expect, tx, ty, 1, 8, darker);
            }
        }
    }
    let (px, py) = (30 + 6 * 8 + 1, 30 + 3 * 8 + 1);
    rect(&mut expect, px - 1, py - 1, 8, 8, [180, 80, 255]);
    rect(&mut expect, px, py, 6, 6, [230, 120, 255]);
    line_thick(&mut expect, px + 3, py + 3, px + 3 + 16, py + 3, [255, 230, 255], 2);
    assert!(frame == expect);
    assert_eq!(pixel(&frame, 30, 30), [140, 49, 49, 255]);
    assert_eq!(pixel(&frame, 31, 31), [200, 70, 70, 255]);
    assert_eq!(pixel(&frame, 39, 39), [22, 24, 28, 255]);
    assert_eq!(pixel(&frame, 90, 58), [255, 230, 255, 255]);
    let mut frame = blank(60);
    draw_minimap(&mut frame, &map, -70000, -5, Ray { dx: 0, dy: -65536 });
    assert_eq!(pixel(&frame, 31, 31), [230, 120, 255, 255]);
    assert_eq!(pixel(&frame, 34, 20), [255, 230, 255, 255]);
}

#[test]
fn outlines_join_their_corners() {
    let pts = star(512, 138, 24.0, 0.3);
    let mut frame = blank(0);
    draw_star_outline(&mut frame, &pts, [255, 245, 180]);
    let mut expect = blank(0);
    for k in 0..10 {
        let (x0, y0) = pts[k];
        let (x1, y1) = pts[(k + 1) % 10];
        line_basic(&mut expect, x0, y0, x1, y1, [255, 245, 180]);
    }
    assert!(frame == expect);
    for (x, y) in pts {
        assert_eq!(pixel(&frame, x as usize, y as usize), [255, 245, 180, 255]);
    }
    let mut frame = blank(0);
    draw_star_outline(&mut frame, &[], [1, 1, 1]);
    assert!(frame == blank(0));
    draw_star_outline(&mut frame, &[(5, 5)], [1, 1, 1]);
    assert_eq!(pixel(&frame, 5, 5), [1, 1, 1, 255]);
}

#[test]
fn the_win_screen_is_its_parts() {
    let (top, left, right) =
        (star(512, 138, 24.0, 0.9), star(417, 188, 18.0, -1.08), star(607, 188, 18.0, 1.17));
    let mut frame = vec![77u8; W * H * 4 + 3];
    draw_win(&mut frame, &top, &left, &right);
    let mut expect = vec![77u8; W * H * 4 + 3];
    for y in 0..H as u32 {
        for x in 0..W as u32 {
            let i = ((y * 1024 + x) * 4) as usize;
            let depth = y as f32 / 576.0;
            expect[i] = (12.0 + depth * 42.0) as u8;
            expect[i + 1] = (34.0 + depth * 70.0) as u8;
            expect[i + 2] = (12.0 + depth * 28.0) as u8;
            expect[i + 3] = 255;
            let seed = x.wrapping_mul(47) ^ y.wrapping_mul(73);
            if seed % 900 == 0 {
                expect[i] = expect[i].saturating_add(160 / 6);
                expect[i + 1] = expect[i + 1].saturating_add(160 / 4);
                expect[i + 2] = expect[i + 2].saturating_add(160 / 8);
            }
        }
    }
    let mut backdrop = vec![77u8; W * H * 4 + 3];
    paint_win_backdrop(&mut backdrop);
    assert!(backdrop == expect);
    let (tw, th) = measure_line_large("VICTORIA!");
    let y = 576 / 2 - 90;
    let title_x = (1024 - tw) / 2;
    title(
        &mut expect,
        "VICTORIA!",
        title_x,
        y,
        [[210, 165, 70], [255, 210, 120], [20, 15, 6], [255, 232, 160]],
    );
    for pts in [&top, &left, &right] {
        for k in 0..10 {
            let (x0, y0) = pts[k];
            let (x1, y1) = pts[(k + 1) % 10];
            line_basic(&mut expect, x0, y0, x1, y1, [255, 245, 180]);
        }
    }
    let hint = "ESPACIO - VOLVER AL MENU";
    let (hw, _) = measure_line(hint, 9, 16, 1, 95);
    let hx = (1024 - hw) / 2;
    let hy = y + th + 60;
    draw_line(&mut expect, hint, hx + 1, hy + 1, [14, 18, 12], 9, 1, 95, 1);
    draw_line(&mut expect, hint, hx, hy, [210, 255, 200], 9, 1, 95, 1);
    assert!(frame == expect);
    assert_eq!(&frame[W * H * 4..], &[77, 77, 77]);
}

#[test]
fn the_menu_text_is_its_parts() {
    for selected in [0usize, 1, 2] {
        let mut frame = blank(20);
        draw_menu(&mut frame, selected, 210, 120);
        let mut expect = blank(20);
        let name = "RAYCASTING UWU";
        let (tw, th) = measure_line_large(name);
        let title_x = (1024 - tw) / 2;
        let mut y = (576 - (th + 16 + 28 + 8 + 28 + 26 + (5 * (16 + 6) - 6) + 28 + 28)) / 2;
        title(
            &mut expect,
            name,
            title_x,
            y,
            [[70, 120, 200], [110, 170, 230], [14, 20, 32], [218, 236, 255]],
        );
        y += th + 16;
        for (k, opt) in ["NIVEL 1 - EASY", "NIVEL 2 - COMPLICADO"].iter().enumerate() {
            let (text_w, h) = measure_line(opt, 18, 28, 1, 90);
            let x = 512 - text_w / 2;
            if selected == k + 1 {
                soft_halo(&mut expect, x, y, text_w, h, [64, 200, 255], 210, 5, 2);
                draw_line(&mut expect, opt, x, y, [255, 255, 255], 18, 1, 90, 2);
            } else {
                draw_line(&mut expect, opt, x + 1, y + 1, [18, 24, 36], 18, 1, 90, 2);
                draw_line(&mut expect, opt, x, y, [170, 210, 255], 18, 1, 90, 2);
            }
            y += if k == 0 { 28 + 8 } else { 28 + 26 };
        }
        let tips = [
            "CONTROLES",
            "WASD  -  MOVIMIENTO",
            "MOUSE -  CAMARA",
            "ESC   -  PAUSA",
            "TAB   -  LIBERAR MOUSE",
        ];
        let mut max_w = 0;
        for line in tips.iter() {
            max_w = max_w.max(measure_line(line, 9, 16, 1, 90).0);
        }
        let tips_x = (1024 - max_w) / 2;
        let mut ty = y;
        for (k, line) in tips.iter().enumerate() {
            let lw = measure_line(line, 9, 16, 1, 90).0;
            let lx = tips_x + (max_w - lw) / 2;
            let ink = if k == 0 { [210, 218, 230] } else { [188, 198, 210] };
            draw_line(&mut expect, line, lx + 1, ty + 1, [12, 16, 24], 9, 1, 90, 1);
            draw_line(&mut expect, line, lx, ty, ink, 9, 1, 90, 1);
            ty += 22;
        }
        y += (ty - y) + 28;
        let cta = "PRESIONA ENTER";
        let (ctaw, ctah) = measure_line(cta, 18, 28, 1, 90);
        let cta_x = (1024 - ctaw) / 2;
        soft_halo(&mut expect, cta_x, y, ctaw, ctah, [120, 230, 230], 120, 4, 2);
        draw_line(&mut expect, cta, cta_x + 2, y + 2, [16, 22, 30], 18, 1, 90, 2);
        draw_line(&mut expect, cta, cta_x, y, [210, 255, 255], 18, 1, 90, 2);
        assert!(frame == expect);
    }
}

#[test]
fn titles_and_options_are_their_parts() {
    let mut frame = blank(5);
    draw_title(&mut frame, "GO!", 100, 100, [1, 1, 1], [2, 2, 2], [3, 3, 3], [4, 4, 4]);
    let mut expect = blank(5);
    title(&mut expect, "GO!", 100, 100, [[1, 1, 1], [2, 2, 2], [3, 3, 3], [4, 4, 4]]);
    assert!(frame == expect);
    let mut frame = blank(5);
    draw_menu_option_text_only(&mut frame, "", 512, 100, false, 0, [1, 1, 1], [2, 2, 2]);
    assert!(frame == blank(5));
    draw_menu_option_text_only(&mut frame, "", 512, 100, true, 255, [1, 1, 1], [2, 2, 2]);
    let mut expect = blank(5);
    soft_halo(&mut expect, 512, 100, 0, 28, [64, 200, 255], 255, 5, 2);
    assert!(frame == expect);
}
