use raycaster::draw::{
    blend_color, decimal_digits, draw_border, draw_char, draw_char_large,
    draw_char_large_alpha, draw_circle_alpha, draw_damage_overlay, draw_fps, draw_heart_empty,
    draw_heart_filled, draw_life, draw_line, draw_line_large, draw_rect_alpha, draw_text,
    draw_text_large, draw_text_large_alpha, gradient_vertical, line_basic, line_thick,
    measure_line, measure_line_large, put, rect, set_px, soft_halo,
};

const W: usize = 1024;
const H: usize = 576;

fn blank(fill: u8) -> Vec<u8> {
    vec![fill; W * H * 4]
}

fn pixel(frame: &[u8], x: usize, y: usize) -> [u8; 4] {
    let i = (y * W + x) * 4;
    [frame[i], frame[i + 1], frame[i + 2], frame[i + 3]]
}

fn count_rgb(frame: &[u8], rgb: [u8; 3]) -> usize {
    let mut n = 0;
    for k in 0..W * H {
        if frame[4 * k] == rgb[0] && frame[4 * k + 1] == rgb[1] && frame[4 * k + 2] == rgb[2] {
            n += 1;
        }
    }
    n
}

fn changed(a: &[u8], b: &[u8]) -> usize {
    let mut n = 0;
    for k in 0..W * H {
        if a[4 * k..4 * k + 4] != b[4 * k..4 * k + 4] {
            n += 1;
        }
    }
    n
}

#[test]
fn put_sets_one_pixel_or_none() {
    let mut frame = blank(9);
    put(&mut frame, 3, 2, [10, 20, 30]);
    assert_eq!(pixel(&frame, 3, 2), [10, 20, 30, 255]);
    assert_eq!(&frame[(2 * W + 3) * 4..(2 * W + 3) * 4 + 4], &[10, 20, 30, 255]);
    assert_eq!(changed(&frame, &blank(9)), 1);
    let before = frame.clone();
    put(&mut frame, -1, 0, [1, 2, 3]);
    put(&mut frame, 0, -1, [1, 2, 3]);
    put(&mut frame, 1024, 0, [1, 2, 3]);
    put(&mut frame, 0, 576, [1, 2, 3]);
    put(&mut frame, i32::MIN, i32::MAX, [1, 2, 3]);
    assert!(frame == before);
    put(&mut frame, 1023, 575, [1, 2, 3]);
    assert_eq!(&frame[W * H * 4 - 4..], &[1, 2, 3, 255]);
    set_px(&mut frame, 0, 0, [4, 5, 6]);
    assert_eq!(pixel(&frame, 0, 0), [4, 5, 6, 255]);
    set_px(&mut frame, -1, 5, [4, 5, 6]);
    assert_eq!(changed(&frame, &blank(9)), 3);
}

#[test]
fn rect_fills_what_lies_on_the_screen() {
    let mut frame = blank(0);
    rect(&mut frame, 10, 20, 30, 40, [1, 2, 3]);
    assert_eq!(count_rgb(&frame, [1, 2, 3]), 1200);
    assert_eq!(pixel(&frame, 10, 20), [1, 2, 3, 255]);
    assert_eq!(pixel(&frame, 39, 59), [1, 2, 3, 255]);
    assert_eq!(pixel(&frame, 40, 59), [0, 0, 0, 0]);
    assert_eq!(pixel(&frame, 39, 60), [0, 0, 0, 0]);
    assert_eq!(pixel(&frame, 9, 20), [0, 0, 0, 0]);
    rect(&mut frame, -5, -5, 10, 10, [7, 7, 7]);
    assert_eq!(count_rgb(&frame, [7, 7, 7]), 25);
    rect(&mut frame, 1020, 570, 100, 100, [8, 8, 8]);
    assert_eq!(count_rgb(&frame, [8, 8, 8]), 24);
    let before = frame.clone();
    rect(&mut frame, 50, 50, 0, 10, [9, 9, 9]);
    rect(&mut frame, 50, 50, 10, -3, [9, 9, 9]);
    rect(&mut frame, 5000, 50, 10, 10, [9, 9, 9]);
    assert!(frame == before);
}

#[test]
fn colours_blend_by_parts() {
    assert_eq!(blend_color([0, 100, 255], [255, 0, 255], 0, 4), [0, 100, 255]);
    assert_eq!(blend_color([0, 100, 255], [255, 0, 255], 4, 4), [255, 0, 255]);
    assert_eq!(blend_color([0, 100, 255], [255, 0, 255], 1, 4), [63, 75, 255]);
    assert_eq!(blend_color([15, 18, 25], [10, 12, 18], 13, 40), [13, 16, 22]);
}

#[test]
fn gradient_runs_from_the_first_colour_towards_the_second() {
    let mut frame = blank(0);
    gradient_vertical(&mut frame, 100, 50, 20, 40, [15, 18, 25], [10, 12, 18]);
    for yy in 0..40usize {
        let t = yy as f32 / 40.0;
        let want = [
            (15.0 * (1.0 - t) + 10.0 * t) as u8,
            (18.0 * (1.0 - t) + 12.0 * t) as u8,
            (25.0 * (1.0 - t) + 18.0 * t) as u8,
        ];
        assert_eq!(pixel(&frame, 100, 50 + yy), [want[0], want[1], want[2], 255]);
        assert_eq!(pixel(&frame, 119, 50 + yy), [want[0], want[1], want[2], 255]);
    }
    assert_eq!(pixel(&frame, 100, 50), [15, 18, 25, 255]);
    assert_eq!(pixel(&frame, 100, 89), [10, 12, 18, 255]);
    assert_eq!(pixel(&frame, 99, 50), [0, 0, 0, 0]);
    assert_eq!(pixel(&frame, 120, 50), [0, 0, 0, 0]);
    assert_eq!(pixel(&frame, 100, 90), [0, 0, 0, 0]);
    assert_eq!(changed(&frame, &blank(0)), 800);
    let before = frame.clone();
    gradient_vertical(&mut frame, 0, 0, 10, 0, [1, 1, 1], [2, 2, 2]);
    gradient_vertical(&mut frame, 0, 0, 10, -4, [1, 1, 1], [2, 2, 2]);
    assert!(frame == before);
}

#[test]
fn alpha_blends_and_keeps_the_alpha_byte() {
    let mut frame = blank(100);
    draw_rect_alpha(&mut frame, 5, 5, 2, 2, [200, 0, 100], 128);
    assert_eq!(pixel(&frame, 5, 5), [150, 49, 100, 100]);
    assert_eq!(pixel(&frame, 6, 6), [150, 49, 100, 100]);
    assert_eq!(pixel(&frame, 7, 5), [100, 100, 100, 100]);
    draw_rect_alpha(&mut frame, 20, 5, 1, 1, [200, 0, 100], 255);
    assert_eq!(pixel(&frame, 20, 5), [200, 0, 100, 100]);
    draw_rect_alpha(&mut frame, 30, 5, 1, 1, [200, 0, 100], 0);
    assert_eq!(pixel(&frame, 30, 5), [100, 100, 100, 100]);
    draw_rect_alpha(&mut frame, -3, -3, 4, 4, [0, 0, 0], 30);
    assert_eq!(pixel(&frame, 0, 0), [88, 88, 88, 100]);
    assert_eq!(changed(&frame, &blank(100)), 6);
}

#[test]
fn discs_are_blended_once() {
    let mut frame = blank(100);
    draw_circle_alpha(&mut frame, 50, 50, 3, [0, 0, 0], 255);
    assert_eq!(count_rgb(&frame, [0, 0, 0]), 29);
    assert_eq!(pixel(&frame, 53, 50), [0, 0, 0, 100]);
    assert_eq!(pixel(&frame, 52, 52), [0, 0, 0, 100]);
    assert_eq!(pixel(&frame, 53, 51), [100, 100, 100, 100]);
    draw_circle_alpha(&mut frame, 0, 0, 1, [200, 200, 200], 128);
    assert_eq!(pixel(&frame, 0, 0), [150, 150, 150, 100]);
    assert_eq!(pixel(&frame, 1, 0), [150, 150, 150, 100]);
    assert_eq!(pixel(&frame, 1, 1), [100, 100, 100, 100]);
    let before = frame.clone();
    draw_circle_alpha(&mut frame, 10, 10, -1, [1, 1, 1], 255);
    assert!(frame == before);
    draw_circle_alpha(&mut frame, 300, 300, 0, [1, 1, 1], 255);
    assert_eq!(changed(&frame, &before), 1);
}

#[test]
fn borders_run_along_the_inside() {
    let mut frame = blank(0);
    draw_border(&mut frame, 10, 10, 20, 10, [5, 6, 7], 2);
    assert_eq!(count_rgb(&frame, [5, 6, 7]), 2 * 20 * 2 + 2 * 6 * 2);
    assert_eq!(pixel(&frame, 10, 10), [5, 6, 7, 255]);
    assert_eq!(pixel(&frame, 29, 19), [5, 6, 7, 255]);
    assert_eq!(pixel(&frame, 12, 12), [0, 0, 0, 0]);
    assert_eq!(pixel(&frame, 27, 17), [0, 0, 0, 0]);
    assert_eq!(pixel(&frame, 28, 17), [5, 6, 7, 255]);
}

#[test]
fn lines_reach_both_ends() {
    let mut frame = blank(0);
    raycaster::draw::line(&mut frame, 10, 10, 20, 15, [9, 9, 9]);
    assert_eq!(count_rgb(&frame, [9, 9, 9]), 11);
    assert_eq!(pixel(&frame, 10, 10), [9, 9, 9, 255]);
    assert_eq!(pixel(&frame, 20, 15), [9, 9, 9, 255]);
    for x in 10..=20usize {
        let mut in_column = 0;
        for y in 10..=15usize {
            if pixel(&frame, x, y)[0] == 9 {
                in_column += 1;
            }
        }
        assert_eq!(in_column, 1);
    }
    let mut frame = blank(0);
    raycaster::draw::line(&mut frame, 5, 5, 5, 5, [9, 9, 9]);
    assert_eq!(count_rgb(&frame, [9, 9, 9]), 1);
    raycaster::draw::line(&mut frame, 30, 40, 30, 20, [8, 8, 8]);
    assert_eq!(count_rgb(&frame, [8, 8, 8]), 21);
    raycaster::draw::line(&mut frame, -10, 100, 9, 100, [7, 7, 7]);
    assert_eq!(count_rgb(&frame, [7, 7, 7]), 10);
    let mut frame = blank(0);
    line_basic(&mut frame, 20, 15, 10, 10, [9, 9, 9]);
    assert_eq!(count_rgb(&frame, [9, 9, 9]), 11);
    assert_eq!(pixel(&frame, 10, 10), [9, 9, 9, 255]);
    assert_eq!(pixel(&frame, 20, 15), [9, 9, 9, 255]);
    line_basic(&mut frame, 100, 100, 100, 100, [6, 6, 6]);
    assert_eq!(count_rgb(&frame, [6, 6, 6]), 1);
    line_basic(&mut frame, 200, 100, 210, 110, [5, 5, 5]);
    assert_eq!(count_rgb(&frame, [5, 5, 5]), 11);
    line_basic(&mut frame, 1020, 300, 1030, 300, [4, 4, 4]);
    assert_eq!(count_rgb(&frame, [4, 4, 4]), 4);
}

#[test]
fn thick_lines_are_pairs_of_lines() {
    let mut frame = blank(0);
    line_thick(&mut frame, 10, 10, 20, 10, [9, 9, 9], 2);
    let mut expect = blank(0);
    raycaster::draw::line(&mut expect, 9, 10, 19, 10, [9, 9, 9]);
    raycaster::draw::line(&mut expect, 10, 9, 20, 9, [9, 9, 9]);
    raycaster::draw::line(&mut expect, 10, 10, 20, 10, [9, 9, 9]);
    raycaster::draw::line(&mut expect, 10, 10, 20, 10, [9, 9, 9]);
    assert!(frame == expect);
    assert_eq!(count_rgb(&frame, [9, 9, 9]), 12 + 11);
    let before = frame.clone();
    line_thick(&mut frame, 10, 10, 20, 10, [1, 1, 1], 0);
    line_thick(&mut frame, 10, 10, 20, 10, [1, 1, 1], -2);
    assert!(frame == before);
}

#[test]
fn glyphs_are_their_rectangles() {
    let mut frame = blank(0);
    draw_char(&mut frame, 100, 100, 'I', [9, 9, 9], 2);
    assert_eq!(count_rgb(&frame, [9, 9, 9]), 4 * 24);
    assert_eq!(pixel(&frame, 106, 100), [9, 9, 9, 255]);
    assert_eq!(pixel(&frame, 109, 123), [9, 9, 9, 255]);
    assert_eq!(pixel(&frame, 105, 100), [0, 0, 0, 0]);
    let mut lower = blank(0);
    draw_char(&mut lower, 100, 100, 'i', [9, 9, 9], 2);
    assert!(frame == lower);
    let mut frame = blank(50);
    draw_char(&mut frame, 10, 10, '0', [9, 9, 9], 1);
    assert_eq!(count_rgb(&frame, [9, 9, 9]), 96 - 32);
    assert_eq!(count_rgb(&frame, [0, 0, 0]), 32);
    assert_eq!(pixel(&frame, 12, 12), [0, 0, 0, 255]);
    let mut frame = blank(0);
    draw_char(&mut frame, 10, 10, 'A', [9, 9, 9], 0);
    assert_eq!(count_rgb(&frame, [9, 9, 9]), 64);
    let mut frame = blank(0);
    draw_char(&mut frame, 10, 10, '?', [9, 9, 9], 3);
    draw_char(&mut frame, 10, 10, ' ', [9, 9, 9], 3);
    assert!(frame == blank(0));
    draw_char_large(&mut frame, 10, 10, '?', [9, 9, 9]);
    assert_eq!(count_rgb(&frame, [9, 9, 9]), 64);
    assert_eq!(pixel(&frame, 16, 22), [9, 9, 9, 255]);
    let mut frame = blank(0);
    draw_char_large(&mut frame, 10, 10, ' ', [9, 9, 9]);
    assert!(frame == blank(0));
    draw_char_large(&mut frame, 10, 10, 'T', [9, 9, 9]);
    assert_eq!(count_rgb(&frame, [9, 9, 9]), 80 + 128 - 16);
    let mut frame = blank(100);
    draw_char_large_alpha(&mut frame, 10, 10, 'E', [200, 200, 200], 128);
    assert_eq!(count_rgb(&frame, [150, 150, 150]), 64);
    let mut frame = blank(100);
    draw_char_large_alpha(&mut frame, 10, 10, 'T', [200, 200, 200], 128);
    assert_eq!(pixel(&frame, 10, 10), [150, 150, 150, 100]);
    assert_eq!(pixel(&frame, 18, 10), [175, 175, 175, 100]);
    assert_eq!(pixel(&frame, 18, 20), [150, 150, 150, 100]);
}

#[test]
fn text_advances_by_its_step() {
    let mut frame = blank(0);
    draw_text(&mut frame, "I I", 10, 10, [9, 9, 9], 1);
    let mut expect = blank(0);
    draw_char(&mut expect, 10, 10, 'I', [9, 9, 9], 1);
    draw_char(&mut expect, 38, 10, 'I', [9, 9, 9], 1);
    assert!(frame == expect);
    let mut frame = blank(0);
    draw_text(&mut frame, "AB", 10, 10, [9, 9, 9], 2);
    let mut expect = blank(0);
    draw_char(&mut expect, 10, 10, 'A', [9, 9, 9], 2);
    draw_char(&mut expect, 38, 10, 'B', [9, 9, 9], 2);
    assert!(frame == expect);
    let mut frame = blank(0);
    draw_text_large(&mut frame, "TI", 10, 10, [9, 9, 9]);
    let mut expect = blank(0);
    draw_char_large(&mut expect, 10, 10, 'T', [9, 9, 9]);
    draw_char_large(&mut expect, 42, 10, 'I', [9, 9, 9]);
    assert!(frame == expect);
    let mut frame = blank(0);
    draw_text_large_alpha(&mut frame, "TI", 10, 10, [9, 9, 9], 200);
    let mut expect = blank(0);
    draw_char_large_alpha(&mut expect, 10, 10, 'T', [9, 9, 9], 200);
    draw_char_large_alpha(&mut expect, 42, 10, 'I', [9, 9, 9], 200);
    assert!(frame == expect);
    let mut frame = blank(0);
    draw_line_large(&mut frame, "TI", 10, 10, [9, 9, 9]);
    let mut expect = blank(0);
    draw_char_large(&mut expect, 10, 10, 'T', [9, 9, 9]);
    draw_char_large(&mut expect, 38, 10, 'I', [9, 9, 9]);
    assert!(frame == expect);
    let mut frame = blank(0);
    draw_line(&mut frame, "TIT", 10, 10, [9, 9, 9], 9, 1, 95, 1);
    let mut expect = blank(0);
    draw_char(&mut expect, 10, 10, 'T', [9, 9, 9], 1);
    draw_char(&mut expect, 20, 10, 'I', [9, 9, 9], 1);
    draw_char(&mut expect, 30, 10, 'T', [9, 9, 9], 1);
    assert!(frame == expect);
    let mut frame = blank(0);
    draw_text(&mut frame, "", 10, 10, [9, 9, 9], 2);
    assert!(frame == blank(0));
}

#[test]
fn lines_are_measured_with_their_kerning() {
    assert_eq!(measure_line("", 18, 28, 1, 90), (0, 28));
    assert_eq!(measure_line("A", 18, 28, 1, 90), (17, 28));
    assert_eq!(measure_line("NIVEL 1 - EASY", 18, 28, 1, 90), (239, 28));
    assert_eq!(measure_line("ESPACIO - VOLVER AL MENU", 9, 16, 1, 95), (227, 16));
    assert_eq!(measure_line_large("VICTORIA!"), (251, 48));
    assert_eq!(measure_line_large("RAYCASTING UWU"), (390, 48));
    assert_eq!(measure_line_large(""), (0, 48));
    for n in 1..40usize {
        let text = "X".repeat(n);
        let adv = 10.0f32;
        let want = ((adv * n as f32 * 0.9f32).ceil() as i32) - 1;
        assert_eq!(measure_line(&text, 9, 16, 1, 90), (want, 16));
    }
}

#[test]
fn numbers_are_written_in_decimal() {
    assert_eq!(decimal_digits(0), vec!['0']);
    assert_eq!(decimal_digits(7), vec!['7']);
    assert_eq!(decimal_digits(60), vec!['6', '0']);
    assert_eq!(decimal_digits(1234567890), vec!['1', '2', '3', '4', '5', '6', '7', '8', '9', '0']);
    let all: String = decimal_digits(u32::MAX).into_iter().collect();
    assert_eq!(all, format!("{}", u32::MAX));
}

#[test]
fn frame_counter_shows_the_number_in_its_colour() {
    let mut frame = blank(40);
    draw_fps(&mut frame, 60);
    let mut expect = blank(40);
    for i in 0..4 {
        draw_rect_alpha(&mut expect, 20 + i, 526 + i, 110, 40, [0, 0, 0], 30);
    }
    gradient_vertical(&mut expect, 20, 526, 110, 40, [15, 18, 25], [10, 12, 18]);
    draw_border(&mut expect, 20, 526, 110, 40, [60, 70, 90], 2);
    draw_text(&mut expect, &format!("FPS: {}", 60), 30, 538, [120, 255, 140], 2);
    assert!(frame == expect);
    assert!(count_rgb(&frame, [120, 255, 140]) > 0);
    let mut frame = blank(40);
    draw_fps(&mut frame, 54);
    assert!(count_rgb(&frame, [255, 230, 120]) > 0);
    assert_eq!(count_rgb(&frame, [120, 255, 140]), 0);
    let mut frame = blank(40);
    draw_fps(&mut frame, 39);
    assert!(count_rgb(&frame, [255, 120, 120]) > 0);
    let mut expect = blank(40);
    for i in 0..4 {
        draw_rect_alpha(&mut expect, 20 + i, 526 + i, 110, 40, [0, 0, 0], 30);
    }
    gradient_vertical(&mut expect, 20, 526, 110, 40, [15, 18, 25], [10, 12, 18]);
    draw_border(&mut expect, 20, 526, 110, 40, [60, 70, 90], 2);
    draw_text(&mut expect, "FPS: 39", 30, 538, [255, 120, 120], 2);
    assert!(frame == expect);
    assert_eq!(pixel(&frame, 21, 527), [60, 70, 90, 255]);
    assert_eq!(pixel(&frame, 131, 540), [30, 30, 30, 40]);
}

#[test]
fn hearts_are_full_up_to_the_life() {
    let mut frame = blank(0);
    draw_heart_filled(&mut frame, 100, 100, [240, 70, 90]);
    assert_eq!(count_rgb(&frame, [255, 91, 117]), 28);
    assert_eq!(count_rgb(&frame, [120, 35, 45]), 48);
    assert_eq!(count_rgb(&frame, [240, 70, 90]), 4 * 68 - 28 - 48);
    assert_eq!(pixel(&frame, 104, 100), [240, 70, 90, 255]);
    assert_eq!(pixel(&frame, 106, 100), [255, 91, 117, 255]);
    assert_eq!(pixel(&frame, 110, 124), [120, 35, 45, 255]);
    assert_eq!(pixel(&frame, 100, 100), [0, 0, 0, 0]);
    assert_eq!(pixel(&frame, 104, 102), [0, 0, 0, 0]);
    let mut frame = blank(0);
    draw_heart_empty(&mut frame, 100, 100, [60, 60, 65]);
    assert_eq!(count_rgb(&frame, [60, 60, 65]), 2 * 24);
    assert_eq!(pixel(&frame, 104, 100), [60, 60, 65, 255]);
    assert_eq!(pixel(&frame, 104, 101), [0, 0, 0, 0]);
    for life in [-1, 0, 3, 5, 9] {
        let mut frame = blank(40);
        draw_life(&mut frame, life);
        let mut expect = blank(40);
        for i in 0..4 {
            draw_rect_alpha(&mut expect, 804 + i, 20 + i, 200, 50, [0, 0, 0], 30);
        }
        gradient_vertical(&mut expect, 804, 20, 200, 50, [30, 15, 18], [20, 10, 12]);
        draw_border(&mut expect, 804, 20, 200, 50, [120, 60, 70], 2);
        for i in 0..5 {
            if i < life {
                draw_heart_filled(&mut expect, 819 + i * 36, 30, [240, 70, 90]);
            } else {
                draw_heart_empty(&mut expect, 819 + i * 36, 30, [60, 60, 65]);
            }
        }
        assert!(frame == expect);
        let full = life.clamp(0, 5) as usize;
        assert_eq!(count_rgb(&frame, [240, 70, 90]), full * (4 * 68 - 28 - 48));
        assert_eq!(count_rgb(&frame, [60, 60, 65]), (5 - full) * 48);
    }
}

#[test]
fn halos_grow_and_fade() {
    let mut frame = blank(0);
    soft_halo(&mut frame, 100, 100, 10, 10, [200, 100, 50], 255, 1, 2);
    assert_eq!(count_rgb(&frame, [200, 100, 50]), 14 * 14);
    assert_eq!(pixel(&frame, 98, 98), [200, 100, 50, 255]);
    assert_eq!(pixel(&frame, 111, 111), [200, 100, 50, 255]);
    assert_eq!(pixel(&frame, 112, 111), [0, 0, 0, 0]);
    let mut frame = blank(0);
    soft_halo(&mut frame, 100, 100, 10, 10, [200, 100, 50], 100, 2, 2);
    assert_eq!(pixel(&frame, 100, 100), [101, 50, 25, 255]);
    assert_eq!(pixel(&frame, 96, 96), [39, 19, 9, 255]);
    assert_eq!(pixel(&frame, 95, 96), [0, 0, 0, 0]);
    let mut frame = blank(0);
    soft_halo(&mut frame, 1, 1, 2, 2, [200, 100, 50], 255, 1, 3);
    assert_eq!(count_rgb(&frame, [200, 100, 50]), 64);
    let mut frame = blank(0);
    soft_halo(&mut frame, 100, 100, 10, 10, [200, 100, 50], 255, 0, 2);
    soft_halo(&mut frame, 2000, 100, 10, 10, [200, 100, 50], 255, 3, 2);
    assert!(frame == blank(0));
}

#[test]
fn damage_reddens_every_pixel() {
    let mut frame = blank(100);
    frame[4] = 250;
    draw_damage_overlay(&mut frame, 60);
    assert_eq!(pixel(&frame, 0, 0), [160, 100, 100, 100]);
    assert_eq!(pixel(&frame, 1, 0), [255, 100, 100, 100]);
    assert_eq!(pixel(&frame, 1023, 575), [160, 100, 100, 100]);
    let before = frame.clone();
    draw_damage_overlay(&mut frame, 0);
    assert!(frame == before);
}

#[test]
fn put_needs_the_frame_only_up_to_its_pixel() {
    let mut short = vec![0u8; 12];
    put(&mut short, 2, 0, [9, 8, 7]);
    assert_eq!(short, vec![0, 0, 0, 0, 0, 0, 0, 0, 9, 8, 7, 255]);
    put(&mut short, -1, 0, [1, 1, 1]);
    put(&mut short, 0, 576, [1, 1, 1]);
    put(&mut short, 1024, 3, [1, 1, 1]);
    assert_eq!(short, vec![0, 0, 0, 0, 0, 0, 0, 0, 9, 8, 7, 255]);
    let mut none: Vec<u8> = Vec::new();
    put(&mut none, -5, -5, [1, 1, 1]);
    assert!(none.is_empty());
}
