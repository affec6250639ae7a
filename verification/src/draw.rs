//! Painting on a frame: pixels, rectangles, gradients, lines, panels and
//! the counters of the heads-up display.

use vstd::prelude::*;
use crate::canvas::{
    Rgba, basic_line_screen, blend, blend_disc, blend_rect, border, dot, fill_rect, frame_bytes,
    glow, glow_rect, gradient, gradient_rows, halo, halo_alpha, halo_rect, in_disc, in_rect, larger,
    lemma_plot, lemma_tint, line_screen, line_trace, mix, mix_channel, on_screen, opaque, panel,
    pixel_count, pixel_index, pixel_of, plot, reddened, same_tail, screen, shadows, span,
    thick_line_screen, tint, toward,
};
use crate::fixed::{lemma_div_monotone};
use crate::font::{
    HEART_BODY, HEART_OUTLINE, HEART_SHADE, HEART_SHINE, empty_heart, fps_label, fps_screen,
    full_heart, heart_highlight, heart_shadow, hearts, lemma_decimal_len, life_screen,
};
use crate::text::{REACH, TEXT_REACH};
use crate::util::{WIDTH, HEIGHT};

pub use crate::text::{
    decimal_digits, draw_char, draw_char_large, draw_char_large_alpha, draw_chars, draw_line,
    draw_line_large, draw_text, draw_text_large, draw_text_large_alpha, measure_line,
    measure_line_large, paint_strokes,
};

verus! {

/// Sets pixel `k` of the row-major order to the opaque colour `rgb`.
pub fn plot_at(frame: &mut [u8], k: usize, rgb: [u8; 3])
    requires
        k < pixel_count(),
        old(frame)@.len() >= 4 * k + 4,
    ensures
        final(frame)@ == plot(old(frame)@, k as int, rgb@),
{
    let i: usize = k * 4;
    frame[i] = rgb[0];
    frame[i + 1] = rgb[1];
    frame[i + 2] = rgb[2];
    frame[i + 3] = 255;
}

/// Sets the pixel at `(x, y)` to the opaque colour `rgb`; does nothing where
/// `(x, y)` is off the screen. The frame need only reach as far as the pixel
/// that is set.
pub fn put(frame: &mut [u8], x: i32, y: i32, rgb: [u8; 3])
    requires
        on_screen(x as int, y as int) ==> old(frame)@.len() >= 4 * pixel_index(x as int, y as int)
            + 4,
    ensures
        on_screen(x as int, y as int) ==> final(frame)@ == plot(
            old(frame)@,
            pixel_index(x as int, y as int),
            rgb@,
        ),
        !on_screen(x as int, y as int) ==> final(frame)@ == old(frame)@,
{
    if x < 0 || y < 0 {
        return ;
    }
    let (x, y) = (x as u32, y as u32);
    if x >= WIDTH || y >= HEIGHT {
        return ;
    }
    plot_at(frame, (y * WIDTH + x) as usize, rgb);
}

/// Fills the rectangle with corner `(x, y)`, width `w` and height `h` with
/// the opaque colour `rgb`, as far as it lies on the screen.
pub fn rect(frame: &mut [u8], x: i32, y: i32, w: i32, h: i32, rgb: [u8; 3])
    requires
        old(frame)@.len() >= frame_bytes(),
        i32::MIN <= x + w <= i32::MAX,
        i32::MIN <= y + h <= i32::MAX,
    ensures
        screen(final(frame)@) == fill_rect(
            screen(old(frame)@),
            x as int,
            y as int,
            w as int,
            h as int,
            rgb@,
        ),
        same_tail(final(frame)@, old(frame)@),
{
    let mut yy: i32 = y;
    while yy < y + h
        invariant
            y <= yy,
            h >= 0 ==> yy <= y + h,
            h < 0 ==> yy == y,
            i32::MIN <= x + w <= i32::MAX,
            i32::MIN <= y + h <= i32::MAX,
            old(frame)@.len() >= frame_bytes(),
            same_tail(frame@, old(frame)@),
            forall|k: int|
                0 <= k < pixel_count() ==> #[trigger] pixel_of(frame@, k) == (if in_rect(
                    k % 1024,
                    k / 1024,
                    x as int,
                    y as int,
                    w as int,
                    yy - y,
                ) {
                    opaque(rgb@)
                } else {
                    pixel_of(old(frame)@, k)
                }),
        decreases y + h - yy,
    {
        let mut xx: i32 = x;
        while xx < x + w
            invariant
                y <= yy < y + h,
                x <= xx,
                w >= 0 ==> xx <= x + w,
                w < 0 ==> xx == x,
                i32::MIN <= x + w <= i32::MAX,
                old(frame)@.len() >= frame_bytes(),
                same_tail(frame@, old(frame)@),
                forall|k: int|
                    0 <= k < pixel_count() ==> #[trigger] pixel_of(frame@, k) == (if in_rect(
                        k % 1024,
                        k / 1024,
                        x as int,
                        y as int,
                        w as int,
                        yy - y,
                    ) || (k / 1024 == yy && x <= k % 1024 < xx) {
                        opaque(rgb@)
                    } else {
                        pixel_of(old(frame)@, k)
                    }),
            decreases x + w - xx,
        {
            let ghost before = frame@;
            put(frame, xx, yy, rgb);
            proof {
                if on_screen(xx as int, yy as int) {
                    lemma_plot(before, pixel_index(xx as int, yy as int), rgb@);
                }
            }
            xx = xx + 1;
        }
        yy = yy + 1;
    }
    assert(screen(frame@) =~= fill_rect(
        screen(old(frame)@),
        x as int,
        y as int,
        w as int,
        h as int,
        rgb@,
    ));
}

/// The colour between `c1` and `c2`, at `num` parts of `den` from `c1`.
pub fn blend_color(c1: [u8; 3], c2: [u8; 3], num: i32, den: i32) -> (c: [u8; 3])
    requires
        0 <= num <= den,
        0 < den,
    ensures
        c@ == blend(c1@, c2@, num as int, den as int),
{
    let n: i64 = num as i64;
    let d: i64 = den as i64;
    [blend_channel(c1[0], c2[0], n, d), blend_channel(c1[1], c2[1], n, d), blend_channel(
        c1[2],
        c2[2],
        n,
        d,
    )]
}

/// One channel of [`blend_color`].
fn blend_channel(a: u8, b: u8, n: i64, d: i64) -> (v: u8)
    requires
        0 <= n <= d,
        0 < d <= i32::MAX,
    ensures
        v == (a * (d - n) + b * n) / (d as int),
{
    assert(0 <= a * (d - n) + b * n <= 255 * d) by (nonlinear_arith)
        requires
            0 <= a <= 255,
            0 <= b <= 255,
            0 <= n <= d,
    ;
    assert(0 <= a * (d - n) <= 255 * d) by (nonlinear_arith)
        requires
            0 <= a <= 255,
            0 <= n <= d,
    ;
    assert(0 <= b * n <= 255 * d) by (nonlinear_arith)
        requires
            0 <= b <= 255,
            0 <= n <= d,
    ;
    proof {
        lemma_div_monotone(a * (d - n) + b * n, 255 * d, d as int);
        lemma_div_monotone(0, a * (d - n) + b * n, d as int);
        vstd::arithmetic::div_mod::lemma_div_multiples_vanish(255, d as int);
        vstd::arithmetic::div_mod::lemma_div_basics(d as int);
    }
    ((a as i64 * (d - n) + b as i64 * n) / d) as u8
}

/// Fills a rectangle with a gradient from `c1` in its first row towards
/// `c2`: row `i` of `h` has the colour at `i` parts of `h` between them.
pub fn gradient_vertical(
    frame: &mut [u8],
    x: i32,
    y: i32,
    w: i32,
    h: i32,
    c1: [u8; 3],
    c2: [u8; 3],
)
    requires
        old(frame)@.len() >= frame_bytes(),
        i32::MIN <= x + w <= i32::MAX,
        i32::MIN <= y + h <= i32::MAX,
    ensures
        screen(final(frame)@) == gradient(
            screen(old(frame)@),
            x as int,
            y as int,
            w as int,
            h as int,
            c1@,
            c2@,
        ),
        same_tail(final(frame)@, old(frame)@),
{
    let mut yy: i32 = 0;
    assert(screen(frame@) =~= gradient_rows(
        screen(old(frame)@),
        x as int,
        y as int,
        w as int,
        0,
        h as int,
        c1@,
        c2@,
    ));
    while yy < h
        invariant
            0 <= yy,
            h >= 0 ==> yy <= h,
            h < 0 ==> yy == 0,
            i32::MIN <= x + w <= i32::MAX,
            i32::MIN <= y + h <= i32::MAX,
            old(frame)@.len() >= frame_bytes(),
            same_tail(frame@, old(frame)@),
            screen(frame@) == gradient_rows(
                screen(old(frame)@),
                x as int,
                y as int,
                w as int,
                yy as int,
                h as int,
                c1@,
                c2@,
            ),
        decreases h - yy,
    {
        let color: [u8; 3] = blend_color(c1, c2, yy, h);
        let ghost before = screen(frame@);
        rect(frame, x, y + yy, w, 1, color);
        assert(screen(frame@) =~= gradient_rows(
            screen(old(frame)@),
            x as int,
            y as int,
            w as int,
            yy + 1,
            h as int,
            c1@,
            c2@,
        ));
        yy = yy + 1;
    }
    assert(screen(frame@) =~= gradient(
        screen(old(frame)@),
        x as int,
        y as int,
        w as int,
        h as int,
        c1@,
        c2@,
    ));
}

/// One channel of `src` blended over `dst` with weight `alpha` of 255.
fn mix_byte(dst: u8, src: u8, alpha: u8) -> (v: u8)
    ensures
        v == mix_channel(dst as int, src as int, alpha as int),
{
    assert(0 <= dst * (255 - alpha) + src * alpha <= 255 * 255) by (nonlinear_arith)
        requires
            0 <= dst <= 255,
            0 <= src <= 255,
            0 <= alpha <= 255,
    ;
    assert(0 <= dst * (255 - alpha) <= 255 * 255) by (nonlinear_arith)
        requires
            0 <= dst <= 255,
            0 <= alpha <= 255,
    ;
    assert(0 <= src * alpha <= 255 * 255) by (nonlinear_arith)
        requires
            0 <= src <= 255,
            0 <= alpha <= 255,
    ;
    ((dst as u32 * (255 - alpha as u32) + src as u32 * alpha as u32) / 255) as u8
}

/// Blends `color` over the pixel at `(x, y)` with weight `alpha` of 255;
/// does nothing where `(x, y)` is off the screen.
pub fn blend_pixel(frame: &mut [u8], x: i32, y: i32, color: [u8; 3], alpha: u8)
    requires
        old(frame)@.len() >= frame_bytes(),
    ensures
        same_tail(final(frame)@, old(frame)@),
        forall|k: int|
            0 <= k < pixel_count() ==> #[trigger] pixel_of(final(frame)@, k) == (if on_screen(
                x as int,
                y as int,
            ) && k == pixel_index(x as int, y as int) {
                mix(pixel_of(old(frame)@, k), color@, alpha)
            } else {
                pixel_of(old(frame)@, k)
            }),
{
    if x >= 0 && y >= 0 && (x as u32) < WIDTH && (y as u32) < HEIGHT {
        let k: usize = (y as u32 * WIDTH + x as u32) as usize;
        let i: usize = k * 4;
        let r: u8 = mix_byte(frame[i], color[0], alpha);
        let g: u8 = mix_byte(frame[i + 1], color[1], alpha);
        let b: u8 = mix_byte(frame[i + 2], color[2], alpha);
        frame[i] = r;
        frame[i + 1] = g;
        frame[i + 2] = b;
        proof {
            lemma_tint(old(frame)@, k as int, Rgba { r, g, b, a: 0 });
            assert(frame@ == tint(old(frame)@, k as int, Rgba { r, g, b, a: 0 }));
        }
    }
}

/// Blends `color` over a rectangle with weight `alpha` of 255, as far as
/// the rectangle lies on the screen.
pub fn draw_rect_alpha(
    frame: &mut [u8],
    x: i32,
    y: i32,
    w: i32,
    h: i32,
    color: [u8; 3],
    alpha: u8,
)
    requires
        old(frame)@.len() >= frame_bytes(),
        i32::MIN <= x + w <= i32::MAX,
        i32::MIN <= y + h <= i32::MAX,
    ensures
        screen(final(frame)@) == blend_rect(
            screen(old(frame)@),
            x as int,
            y as int,
            w as int,
            h as int,
            color@,
            alpha,
        ),
        same_tail(final(frame)@, old(frame)@),
{
    let mut yy: i32 = y;
    while yy < y + h
        invariant
            y <= yy,
            h >= 0 ==> yy <= y + h,
            h < 0 ==> yy == y,
            i32::MIN <= x + w <= i32::MAX,
            i32::MIN <= y + h <= i32::MAX,
            old(frame)@.len() >= frame_bytes(),
            same_tail(frame@, old(frame)@),
            forall|k: int|
                0 <= k < pixel_count() ==> #[trigger] pixel_of(frame@, k) == (if in_rect(
                    k % 1024,
                    k / 1024,
                    x as int,
                    y as int,
                    w as int,
                    yy - y,
                ) {
                    mix(pixel_of(old(frame)@, k), color@, alpha)
                } else {
                    pixel_of(old(frame)@, k)
                }),
        decreases y + h - yy,
    {
        let mut xx: i32 = x;
        while xx < x + w
            invariant
                y <= yy < y + h,
                x <= xx,
                w >= 0 ==> xx <= x + w,
                w < 0 ==> xx == x,
                i32::MIN <= x + w <= i32::MAX,
                old(frame)@.len() >= frame_bytes(),
                same_tail(frame@, old(frame)@),
                forall|k: int|
                    0 <= k < pixel_count() ==> #[trigger] pixel_of(frame@, k) == (if in_rect(
                        k % 1024,
                        k / 1024,
                        x as int,
                        y as int,
                        w as int,
                        yy - y,
                    ) || (k / 1024 == yy && x <= k % 1024 < xx) {
                        mix(pixel_of(old(frame)@, k), color@, alpha)
                    } else {
                        pixel_of(old(frame)@, k)
                    }),
            decreases x + w - xx,
        {
            blend_pixel(frame, xx, yy, color, alpha);
            xx = xx + 1;
        }
        yy = yy + 1;
    }
    assert(screen(frame@) =~= blend_rect(
        screen(old(frame)@),
        x as int,
        y as int,
        w as int,
        h as int,
        color@,
        alpha,
    ));
}

/// Draws a frame of the given thickness along the inside of a rectangle's
/// edges.
pub fn draw_border(
    frame: &mut [u8],
    x: i32,
    y: i32,
    w: i32,
    h: i32,
    color: [u8; 3],
    thickness: i32,
)
    requires
        old(frame)@.len() >= frame_bytes(),
        i32::MIN <= x + w <= i32::MAX,
        i32::MIN <= y + h <= i32::MAX,
        i32::MIN <= x + thickness <= i32::MAX,
        i32::MIN <= y + thickness <= i32::MAX,
        i32::MIN <= x + w - thickness <= i32::MAX,
        i32::MIN <= y + h - thickness <= i32::MAX,
    ensures
        screen(final(frame)@) == border(
            screen(old(frame)@),
            x as int,
            y as int,
            w as int,
            h as int,
            color@,
            thickness as int,
        ),
        same_tail(final(frame)@, old(frame)@),
{
    rect(frame, x, y, w, thickness, color);
    rect(frame, x, y + h - thickness, w, thickness, color);
    rect(frame, x, y, thickness, h, color);
    rect(frame, x + w - thickness, y, thickness, h, color);
}

/// Draws a panel: four soft shadows, a vertical gradient and an edge.
pub fn draw_panel(
    frame: &mut [u8],
    x0: i32,
    y0: i32,
    w: i32,
    h: i32,
    top: [u8; 3],
    bottom: [u8; 3],
    edge: [u8; 3],
)
    requires
        old(frame)@.len() >= frame_bytes(),
        -TEXT_REACH <= x0 <= TEXT_REACH,
        -TEXT_REACH <= y0 <= TEXT_REACH,
        0 <= w <= TEXT_REACH,
        0 <= h <= TEXT_REACH,
    ensures
        screen(final(frame)@) == panel(
            screen(old(frame)@),
            x0 as int,
            y0 as int,
            w as int,
            h as int,
            top@,
            bottom@,
            edge@,
        ),
        same_tail(final(frame)@, old(frame)@),
{
    let mut i: i32 = 0;
    while i < 4
        invariant
            0 <= i <= 4,
            -TEXT_REACH <= x0 <= TEXT_REACH,
            -TEXT_REACH <= y0 <= TEXT_REACH,
            0 <= w <= TEXT_REACH,
            0 <= h <= TEXT_REACH,
            old(frame)@.len() >= frame_bytes(),
            same_tail(frame@, old(frame)@),
            screen(frame@) == shadows(
                screen(old(frame)@),
                x0 as int,
                y0 as int,
                w as int,
                h as int,
                i as nat,
            ),
        decreases 4 - i,
    {
        draw_rect_alpha(frame, x0 + i, y0 + i, w, h, [0, 0, 0], 30);
        i = i + 1;
    }
    gradient_vertical(frame, x0, y0, w, h, top, bottom);
    draw_border(frame, x0, y0, w, h, edge, 2);
}

/// Draws the frame counter in the bottom left corner: a panel with `FPS: `
/// and the number, green from 55, yellow from 40, red below.
pub fn draw_fps(frame: &mut [u8], fps: u32)
    requires
        old(frame)@.len() >= frame_bytes(),
    ensures
        screen(final(frame)@) == fps_screen(screen(old(frame)@), fps as nat),
        same_tail(final(frame)@, old(frame)@),
{
    let x0: i32 = 20;
    let y0: i32 = HEIGHT as i32 - 50;
    draw_panel(frame, x0, y0, 110, 40, [15, 18, 25], [10, 12, 18], [60, 70, 90]);
    let color: [u8; 3] = if fps >= 55 {
        [120, 255, 140]
    } else if fps >= 40 {
        [255, 230, 120]
    } else {
        [255, 120, 120]
    };
    let mut label: Vec<char> = Vec::new();
    label.push('F');
    label.push('P');
    label.push('S');
    label.push(':');
    label.push(' ');
    let digits: Vec<char> = decimal_digits(fps);
    proof {
        lemma_decimal_len(fps as nat);
    }
    let ghost head = label@;
    let mut i: usize = 0;
    while i < digits.len()
        invariant
            i <= digits@.len(),
            digits@.len() <= 10,
            label@ == head + digits@.subrange(0, i as int),
        decreases digits@.len() - i,
    {
        label.push(digits[i]);
        assert(label@ =~= head + digits@.subrange(0, i + 1));
        i = i + 1;
    }
    assert(label@ =~= fps_label(fps as nat));
    draw_chars(frame, label.as_slice(), x0 + 10, y0 + 12, color, 2);
}

/// Draws a full heart with its top left corner at `(x, y)`: lit at the upper
/// left, in shadow at the tip.
pub fn draw_heart_filled(frame: &mut [u8], x: i32, y: i32, color: [u8; 3])
    requires
        old(frame)@.len() >= frame_bytes(),
        -REACH <= x <= REACH,
        -REACH <= y <= REACH,
    ensures
        screen(final(frame)@) == full_heart(screen(old(frame)@), x as int, y as int, color@),
        same_tail(final(frame)@, old(frame)@),
{
    let shadow: [u8; 3] = [color[0] / 2, color[1] / 2, color[2] / 2];
    let g: u16 = color[1] as u16 * 13 / 10;
    let b: u16 = color[2] as u16 * 13 / 10;
    let highlight: [u8; 3] = [255, if g > 255 {
        255
    } else {
        g as u8
    }, if b > 255 {
        255
    } else {
        b as u8
    }];
    assert(shadow@ =~= heart_shadow(color@));
    assert(highlight@ =~= heart_highlight(color@));
    paint_strokes(frame, HEART_SHINE.as_slice(), x, y, 1, highlight);
    paint_strokes(frame, HEART_BODY.as_slice(), x, y, 1, color);
    paint_strokes(frame, HEART_SHADE.as_slice(), x, y, 1, shadow);
}

/// Draws the outline of a heart with its top left corner at `(x, y)`.
pub fn draw_heart_empty(frame: &mut [u8], x: i32, y: i32, color: [u8; 3])
    requires
        old(frame)@.len() >= frame_bytes(),
        -REACH <= x <= REACH,
        -REACH <= y <= REACH,
    ensures
        screen(final(frame)@) == empty_heart(screen(old(frame)@), x as int, y as int, color@),
        same_tail(final(frame)@, old(frame)@),
{
    paint_strokes(frame, HEART_OUTLINE.as_slice(), x, y, 1, color);
}

/// Draws the life panel in the top right corner: five hearts, of which the
/// first `life` are full.
pub fn draw_life(frame: &mut [u8], life: i32)
    requires
        old(frame)@.len() >= frame_bytes(),
    ensures
        screen(final(frame)@) == life_screen(screen(old(frame)@), life as int),
        same_tail(final(frame)@, old(frame)@),
{
    let x0: i32 = WIDTH as i32 - 220;
    let y0: i32 = 20;
    draw_panel(frame, x0, y0, 200, 50, [30, 15, 18], [20, 10, 12], [120, 60, 70]);
    let ghost base = screen(frame@);
    let mut i: i32 = 0;
    while i < 5
        invariant
            0 <= i <= 5,
            x0 == 804,
            y0 == 20,
            old(frame)@.len() >= frame_bytes(),
            same_tail(frame@, old(frame)@),
            screen(frame@) == hearts(base, life as int, i as nat),
        decreases 5 - i,
    {
        let x: i32 = x0 + 15 + i * 36;
        let y: i32 = y0 + 10;
        if i < life {
            draw_heart_filled(frame, x, y, [240, 70, 90]);
        } else {
            draw_heart_empty(frame, x, y, [60, 60, 65]);
        }
        i = i + 1;
    }
}

/// Sets the pixel at `(x, y)` to the opaque colour `c`; does nothing where
/// `(x, y)` is off the screen.
pub fn set_px(frame: &mut [u8], x: i32, y: i32, c: [u8; 3])
    requires
        old(frame)@.len() >= frame_bytes(),
    ensures
        screen(final(frame)@) == dot(screen(old(frame)@), x as int, y as int, c@),
        same_tail(final(frame)@, old(frame)@),
        on_screen(x as int, y as int) ==> final(frame)@ == plot(
            old(frame)@,
            pixel_index(x as int, y as int),
            c@,
        ),
        !on_screen(x as int, y as int) ==> final(frame)@ == old(frame)@,
{
    if x < 0 || y < 0 || x >= WIDTH as i32 || y >= HEIGHT as i32 {
        return ;
    }
    let k: usize = y as usize * WIDTH as usize + x as usize;
    plot_at(frame, k, c);
    proof {
        lemma_plot(old(frame)@, k as int, c@);
    }
}

/// The greatest magnitude of a coordinate of a line's end.
pub const LINE_REACH: i32 = 0x1000_0000;

/// Draws a line from `(x0, y0)` to `(x1, y1)`.
pub fn line(frame: &mut [u8], x0: i32, y0: i32, x1: i32, y1: i32, color: [u8; 3])
    requires
        old(frame)@.len() >= frame_bytes(),
        -LINE_REACH <= x0 <= LINE_REACH,
        -LINE_REACH <= y0 <= LINE_REACH,
        -LINE_REACH <= x1 <= LINE_REACH,
        -LINE_REACH <= y1 <= LINE_REACH,
    ensures
        screen(final(frame)@) == line_screen(
            screen(old(frame)@),
            x0 as int,
            y0 as int,
            x1 as int,
            y1 as int,
            color@,
        ),
        same_tail(final(frame)@, old(frame)@),
{
    let dx: i32 = if x0 < x1 {
        x1 - x0
    } else {
        x0 - x1
    };
    let dy: i32 = if y0 < y1 {
        y1 - y0
    } else {
        y0 - y1
    };
    let sx: i32 = if x0 < x1 {
        1
    } else {
        -1
    };
    let sy: i32 = if y0 < y1 {
        1
    } else {
        -1
    };
    let limit: i32 = if dx < dy {
        dy + 1
    } else {
        dx + 1
    };
    let mut err: i32 = dx - dy;
    let mut x: i32 = x0;
    let mut y: i32 = y0;
    let mut n: i32 = 0;
    let mut done: bool = false;
    while n < limit && !done
        invariant
            0 <= n <= limit,
            limit == larger(dx as int, dy as int) + 1,
            dx == span(x0 as int, x1 as int),
            dy == span(y0 as int, y1 as int),
            0 <= dx <= 2 * LINE_REACH,
            0 <= dy <= 2 * LINE_REACH,
            sx == toward(x0 as int, x1 as int),
            sy == toward(y0 as int, y1 as int),
            x0 - n <= x <= x0 + n,
            y0 - n <= y <= y0 + n,
            -LINE_REACH <= x0 <= LINE_REACH,
            -LINE_REACH <= y0 <= LINE_REACH,
            -3 * dy <= 2 * err <= 3 * dx,
            old(frame)@.len() >= frame_bytes(),
            same_tail(frame@, old(frame)@),
            !done ==> line_screen(
                screen(old(frame)@),
                x0 as int,
                y0 as int,
                x1 as int,
                y1 as int,
                color@,
            ) == line_trace(
                screen(frame@),
                x as int,
                y as int,
                x1 as int,
                y1 as int,
                dx as int,
                dy as int,
                sx as int,
                sy as int,
                err as int,
                false,
                (limit - n) as nat,
                color@,
            ),
            done ==> line_screen(
                screen(old(frame)@),
                x0 as int,
                y0 as int,
                x1 as int,
                y1 as int,
                color@,
            ) == screen(frame@),
        decreases limit - n + (if done { 0int } else { 1int }),
    {
        set_px(frame, x, y, color);
        if x == x1 && y == y1 {
            done = true;
        } else {
            let e2: i32 = 2 * err;
            let step_x: bool = e2 > -dy;
            let step_y: bool = e2 < dx;
            if step_x {
                err = err - dy;
                x = x + sx;
            }
            if step_y {
                err = err + dx;
                y = y + sy;
            }
            n = n + 1;
        }
    }
}

/// Draws a line from `(x0, y0)` to `(x1, y1)` with the inclusive rule.
pub fn line_basic(frame: &mut [u8], x0: i32, y0: i32, x1: i32, y1: i32, c: [u8; 3])
    requires
        old(frame)@.len() >= frame_bytes(),
        -LINE_REACH <= x0 <= LINE_REACH,
        -LINE_REACH <= y0 <= LINE_REACH,
        -LINE_REACH <= x1 <= LINE_REACH,
        -LINE_REACH <= y1 <= LINE_REACH,
    ensures
        screen(final(frame)@) == basic_line_screen(
            screen(old(frame)@),
            x0 as int,
            y0 as int,
            x1 as int,
            y1 as int,
            c@,
        ),
        same_tail(final(frame)@, old(frame)@),
{
    let dx: i32 = if x0 < x1 {
        x1 - x0
    } else {
        x0 - x1
    };
    let sx: i32 = if x0 < x1 {
        1
    } else {
        -1
    };
    let dy: i32 = if y0 < y1 {
        y0 - y1
    } else {
        y1 - y0
    };
    let sy: i32 = if y0 < y1 {
        1
    } else {
        -1
    };
    let mut err: i32 = dx + dy;
    let mut x: i32 = x0;
    let mut y: i32 = y0;
    let mut done: bool = false;
    let ghost a: int = dx as int;
    let ghost b: int = -dy as int;
    let ghost mut i: int = 0;
    let ghost mut j: int = 0;
    let ghost mut n: int = 0;
    let ghost total: int = a + b + 1;
    proof {
        assert(0 * b == 0 && 0 * a == 0) by (nonlinear_arith);
    }
    while !done
        invariant
            a == span(x0 as int, x1 as int),
            b == span(y0 as int, y1 as int),
            a == dx,
            b == -dy,
            0 <= a <= 2 * LINE_REACH,
            0 <= b <= 2 * LINE_REACH,
            sx == toward(x0 as int, x1 as int),
            sy == toward(y0 as int, y1 as int),
            total == a + b + 1,
            0 <= i <= a,
            0 <= j <= b,
            0 <= n <= i + j,
            x == x0 + i * sx,
            y == y0 + j * sy,
            x1 == x0 + a * sx,
            y1 == y0 + b * sy,
            err == a - b - i * b + j * a,
            -3 * b <= 2 * err <= 3 * a,
            -LINE_REACH <= x0 <= LINE_REACH,
            -LINE_REACH <= y0 <= LINE_REACH,
            old(frame)@.len() >= frame_bytes(),
            same_tail(frame@, old(frame)@),
            !done ==> basic_line_screen(
                screen(old(frame)@),
                x0 as int,
                y0 as int,
                x1 as int,
                y1 as int,
                c@,
            ) == line_trace(
                screen(frame@),
                x as int,
                y as int,
                x1 as int,
                y1 as int,
                a,
                b,
                sx as int,
                sy as int,
                err as int,
                true,
                (total - n) as nat,
                c@,
            ),
            done ==> basic_line_screen(
                screen(old(frame)@),
                x0 as int,
                y0 as int,
                x1 as int,
                y1 as int,
                c@,
            ) == screen(frame@),
        decreases (a - i) + (b - j) + (if done { 0int } else { 1int }),
    {
        proof {
            lemma_unit_steps(i, a, sx as int);
            lemma_unit_steps(j, b, sy as int);
        }
        set_px(frame, x, y, c);
        if x == x1 && y == y1 {
            done = true;
        } else {
            let e2: i32 = 2 * err;
            proof {
                lemma_tracer_moves(a, b, i, j, err as int);
            }
            if e2 >= dy {
                proof {
                    assert((i + 1) * b == i * b + b) by (nonlinear_arith);
                    assert((i + 1) * sx == i * sx + sx) by (nonlinear_arith);
                    i = i + 1;
                }
                err = err + dy;
                x = x + sx;
            }
            if e2 <= dx {
                proof {
                    assert((j + 1) * a == j * a + a) by (nonlinear_arith);
                    assert((j + 1) * sy == j * sy + sy) by (nonlinear_arith);
                    j = j + 1;
                }
                err = err + dx;
                y = y + sy;
            }
            proof {
                n = n + 1;
            }
        }
    }
}

/// `i` steps of one pixel from a coordinate reach its end exactly where `i`
/// is the whole distance.
proof fn lemma_unit_steps(i: int, a: int, s: int)
    requires
        0 <= i <= a,
        s == 1 || s == -1,
    ensures
        i * s == a * s <==> i == a,
        -a <= i * s <= a,
{
    assert(i * s == a * s <==> i == a) by (nonlinear_arith)
        requires
            s == 1 || s == -1,
    ;
    assert(-a <= i * s <= a) by (nonlinear_arith)
        requires
            0 <= i <= a,
            s == 1 || s == -1,
    ;
}

/// A tracer that has not reached its end moves at least one pixel, and
/// along no axis beyond the end: where it has covered the whole of `a`, the
/// error tells it to step along y only, and likewise for `b`.
proof fn lemma_tracer_moves(a: int, b: int, i: int, j: int, err: int)
    requires
        0 <= i <= a,
        0 <= j <= b,
        i < a || j < b,
        err == a - b - i * b + j * a,
    ensures
        2 * err >= -b || 2 * err <= a,
        i == a ==> 2 * err < -b,
        j == b ==> 2 * err > a,
{
    if i == a {
        assert(j * a <= (b - 1) * a) by (nonlinear_arith)
            requires
                0 <= j <= b - 1,
                0 <= a,
        ;
        assert((b - 1) * a == a * b - a) by (nonlinear_arith);
        assert(i * b == a * b) by (nonlinear_arith)
            requires
                i == a,
        ;
    }
    if j == b {
        assert(i * b <= (a - 1) * b) by (nonlinear_arith)
            requires
                0 <= i <= a - 1,
                0 <= b,
        ;
        assert((a - 1) * b == a * b - b) by (nonlinear_arith);
        assert(j * a == a * b) by (nonlinear_arith)
            requires
                j == b,
        ;
    }
}

/// Draws a thick line: for each `t` below `thickness`, the line moved by
/// `t - thickness / 2` along x and the line moved as far along y.
pub fn line_thick(
    frame: &mut [u8],
    x0: i32,
    y0: i32,
    x1: i32,
    y1: i32,
    color: [u8; 3],
    thickness: i32,
)
    requires
        old(frame)@.len() >= frame_bytes(),
        thickness <= 0x1000,
        -LINE_REACH + 0x1000 <= x0 <= LINE_REACH - 0x1000,
        -LINE_REACH + 0x1000 <= y0 <= LINE_REACH - 0x1000,
        -LINE_REACH + 0x1000 <= x1 <= LINE_REACH - 0x1000,
        -LINE_REACH + 0x1000 <= y1 <= LINE_REACH - 0x1000,
    ensures
        screen(final(frame)@) == thick_line_screen(
            screen(old(frame)@),
            x0 as int,
            y0 as int,
            x1 as int,
            y1 as int,
            color@,
            thickness as int,
            (if thickness < 0 {
                0
            } else {
                thickness as int
            }) as nat,
        ),
        same_tail(final(frame)@, old(frame)@),
{
    let mut t: i32 = 0;
    while t < thickness
        invariant
            0 <= t,
            thickness >= 0 ==> t <= thickness,
            thickness < 0 ==> t == 0,
            thickness <= 0x1000,
            -LINE_REACH + 0x1000 <= x0 <= LINE_REACH - 0x1000,
            -LINE_REACH + 0x1000 <= y0 <= LINE_REACH - 0x1000,
            -LINE_REACH + 0x1000 <= x1 <= LINE_REACH - 0x1000,
            -LINE_REACH + 0x1000 <= y1 <= LINE_REACH - 0x1000,
            old(frame)@.len() >= frame_bytes(),
            same_tail(frame@, old(frame)@),
            screen(frame@) == thick_line_screen(
                screen(old(frame)@),
                x0 as int,
                y0 as int,
                x1 as int,
                y1 as int,
                color@,
                thickness as int,
                t as nat,
            ),
        decreases thickness - t,
    {
        let offset: i32 = t - thickness / 2;
        line(frame, x0 + offset, y0, x1 + offset, y1, color);
        line(frame, x0, y0 + offset, x1, y1 + offset, color);
        t = t + 1;
    }
}

/// Blends `color` over the disc of radius `radius` about `(cx, cy)`.
pub fn draw_circle_alpha(
    frame: &mut [u8],
    cx: i32,
    cy: i32,
    radius: i32,
    color: [u8; 3],
    alpha: u8,
)
    requires
        old(frame)@.len() >= frame_bytes(),
        radius <= 0x4000,
        -LINE_REACH <= cx <= LINE_REACH,
        -LINE_REACH <= cy <= LINE_REACH,
    ensures
        screen(final(frame)@) == blend_disc(
            screen(old(frame)@),
            cx as int,
            cy as int,
            radius as int,
            color@,
            alpha,
        ),
        same_tail(final(frame)@, old(frame)@),
{
    if radius < 0 {
        assert(screen(frame@) =~= blend_disc(
            screen(old(frame)@),
            cx as int,
            cy as int,
            radius as int,
            color@,
            alpha,
        ));
        return ;
    }
    let mut y: i32 = -radius;
    while y <= radius
        invariant
            0 <= radius <= 0x4000,
            -radius <= y <= radius + 1,
            -LINE_REACH <= cx <= LINE_REACH,
            -LINE_REACH <= cy <= LINE_REACH,
            old(frame)@.len() >= frame_bytes(),
            same_tail(frame@, old(frame)@),
            forall|k: int|
                0 <= k < pixel_count() ==> #[trigger] pixel_of(frame@, k) == (if k / 1024 - cy < y
                    && in_disc(k % 1024 - cx, k / 1024 - cy, radius as int) {
                    mix(pixel_of(old(frame)@, k), color@, alpha)
                } else {
                    pixel_of(old(frame)@, k)
                }),
        decreases radius + 1 - y,
    {
        let mut x: i32 = -radius;
        while x <= radius
            invariant
                0 <= radius <= 0x4000,
                -radius <= y <= radius,
                -radius <= x <= radius + 1,
                -LINE_REACH <= cx <= LINE_REACH,
                -LINE_REACH <= cy <= LINE_REACH,
                old(frame)@.len() >= frame_bytes(),
                same_tail(frame@, old(frame)@),
                forall|k: int|
                    0 <= k < pixel_count() ==> #[trigger] pixel_of(frame@, k) == (if (k / 1024
                        - cy < y || (k / 1024 - cy == y && k % 1024 - cx < x)) && in_disc(
                        k % 1024 - cx,
                        k / 1024 - cy,
                        radius as int,
                    ) {
                        mix(pixel_of(old(frame)@, k), color@, alpha)
                    } else {
                        pixel_of(old(frame)@, k)
                    }),
            decreases radius + 1 - x,
        {
            assert(0 <= x * x <= 0x4000 * 0x4000) by (nonlinear_arith)
                requires
                    -0x4000 <= x <= 0x4000,
            ;
            assert(0 <= y * y <= 0x4000 * 0x4000) by (nonlinear_arith)
                requires
                    -0x4000 <= y <= 0x4000,
            ;
            assert(0 <= radius * radius <= 0x4000 * 0x4000) by (nonlinear_arith)
                requires
                    0 <= radius <= 0x4000,
            ;
            if x * x + y * y <= radius * radius {
                blend_pixel(frame, cx + x, cy + y, color, alpha);
            }
            x = x + 1;
        }
        y = y + 1;
    }
    assert(screen(frame@) =~= blend_disc(
        screen(old(frame)@),
        cx as int,
        cy as int,
        radius as int,
        color@,
        alpha,
    ));
}

/// Raises the red channel of every pixel by `intensity`, up to 255.
pub fn draw_damage_overlay(frame: &mut [u8], intensity: u8)
    requires
        old(frame)@.len() >= frame_bytes(),
    ensures
        screen(final(frame)@) == reddened(screen(old(frame)@), intensity),
        same_tail(final(frame)@, old(frame)@),
{
    let mut k: usize = 0;
    while k < (WIDTH * HEIGHT) as usize
        invariant
            0 <= k <= pixel_count(),
            old(frame)@.len() >= frame_bytes(),
            frame@.len() == old(frame)@.len(),
            forall|i: int|
                0 <= i < frame@.len() ==> #[trigger] frame@[i] == (if i < 4 * k && i % 4 == 0 {
                    (if old(frame)@[i] + intensity > 255 {
                        255
                    } else {
                        old(frame)@[i] + intensity
                    }) as u8
                } else {
                    old(frame)@[i]
                }),
        decreases pixel_count() - k,
    {
        let i: usize = k * 4;
        let sum: u16 = frame[i] as u16 + intensity as u16;
        frame[i] = if sum > 255 {
            255
        } else {
            sum as u8
        };
        k = k + 1;
    }
    assert(screen(frame@) =~= reddened(screen(old(frame)@), intensity));
}

/// Blends `color` over the pixel at `(x, y)` with weight `alpha` of 255 and
/// makes the pixel opaque; does nothing where `(x, y)` is off the screen.
pub fn glow_pixel(frame: &mut [u8], x: i32, y: i32, color: [u8; 3], alpha: u8)
    requires
        old(frame)@.len() >= frame_bytes(),
    ensures
        same_tail(final(frame)@, old(frame)@),
        forall|k: int|
            0 <= k < pixel_count() ==> #[trigger] pixel_of(final(frame)@, k) == (if on_screen(
                x as int,
                y as int,
            ) && k == pixel_index(x as int, y as int) {
                glow(pixel_of(old(frame)@, k), color@, alpha)
            } else {
                pixel_of(old(frame)@, k)
            }),
{
    if x >= 0 && y >= 0 && (x as u32) < WIDTH && (y as u32) < HEIGHT {
        let k: usize = (y as u32 * WIDTH + x as u32) as usize;
        let i: usize = k * 4;
        let c: [u8; 3] = [
            mix_byte(frame[i], color[0], alpha),
            mix_byte(frame[i + 1], color[1], alpha),
            mix_byte(frame[i + 2], color[2], alpha),
        ];
        plot_at(frame, k, c);
        proof {
            lemma_plot(old(frame)@, k as int, c@);
        }
    }
}

/// Blends `color` over a rectangle with weight `alpha` of 255 and makes the
/// rectangle opaque, as far as it lies on the screen.
pub fn draw_rect_glow(
    frame: &mut [u8],
    x: i32,
    y: i32,
    w: i32,
    h: i32,
    color: [u8; 3],
    alpha: u8,
)
    requires
        old(frame)@.len() >= frame_bytes(),
        i32::MIN <= x + w <= i32::MAX,
        i32::MIN <= y + h <= i32::MAX,
    ensures
        screen(final(frame)@) == glow_rect(
            screen(old(frame)@),
            x as int,
            y as int,
            w as int,
            h as int,
            color@,
            alpha,
        ),
        same_tail(final(frame)@, old(frame)@),
{
    let mut yy: i32 = y;
    while yy < y + h
        invariant
            y <= yy,
            h >= 0 ==> yy <= y + h,
            h < 0 ==> yy == y,
            i32::MIN <= x + w <= i32::MAX,
            i32::MIN <= y + h <= i32::MAX,
            old(frame)@.len() >= frame_bytes(),
            same_tail(frame@, old(frame)@),
            forall|k: int|
                0 <= k < pixel_count() ==> #[trigger] pixel_of(frame@, k) == (if in_rect(
                    k % 1024,
                    k / 1024,
                    x as int,
                    y as int,
                    w as int,
                    yy - y,
                ) {
                    glow(pixel_of(old(frame)@, k), color@, alpha)
                } else {
                    pixel_of(old(frame)@, k)
                }),
        decreases y + h - yy,
    {
        let mut xx: i32 = x;
        while xx < x + w
            invariant
                y <= yy < y + h,
                x <= xx,
                w >= 0 ==> xx <= x + w,
                w < 0 ==> xx == x,
                i32::MIN <= x + w <= i32::MAX,
                old(frame)@.len() >= frame_bytes(),
                same_tail(frame@, old(frame)@),
                forall|k: int|
                    0 <= k < pixel_count() ==> #[trigger] pixel_of(frame@, k) == (if in_rect(
                        k % 1024,
                        k / 1024,
                        x as int,
                        y as int,
                        w as int,
                        yy - y,
                    ) || (k / 1024 == yy && x <= k % 1024 < xx) {
                        glow(pixel_of(old(frame)@, k), color@, alpha)
                    } else {
                        pixel_of(old(frame)@, k)
                    }),
            decreases x + w - xx,
        {
            glow_pixel(frame, xx, yy, color, alpha);
            xx = xx + 1;
        }
        yy = yy + 1;
    }
    assert(screen(frame@) =~= glow_rect(
        screen(old(frame)@),
        x as int,
        y as int,
        w as int,
        h as int,
        color@,
        alpha,
    ));
}

/// The greatest magnitude of the measures of a halo.
pub const HALO_REACH: i32 = 0x10_0000;

/// Draws a soft halo about a rectangle: `layers` layers, each `step` pixels
/// wider on every side than the one before and fainter by an equal share of
/// `base_alpha`.
pub fn soft_halo(
    frame: &mut [u8],
    x: i32,
    y: i32,
    w: i32,
    h: i32,
    base: [u8; 3],
    base_alpha: u8,
    layers: u8,
    step: i32,
)
    requires
        old(frame)@.len() >= frame_bytes(),
        -HALO_REACH <= x <= HALO_REACH,
        -HALO_REACH <= y <= HALO_REACH,
        -HALO_REACH <= w <= HALO_REACH,
        -HALO_REACH <= h <= HALO_REACH,
        -0x1000 <= step <= 0x1000,
    ensures
        screen(final(frame)@) == halo(
            screen(old(frame)@),
            x as int,
            y as int,
            w as int,
            h as int,
            base@,
            base_alpha,
            layers,
            step as int,
            layers as nat,
        ),
        same_tail(final(frame)@, old(frame)@),
{
    let mut l: u8 = 0;
    while l < layers
        invariant
            l <= layers,
            -HALO_REACH <= x <= HALO_REACH,
            -HALO_REACH <= y <= HALO_REACH,
            -HALO_REACH <= w <= HALO_REACH,
            -HALO_REACH <= h <= HALO_REACH,
            -0x1000 <= step <= 0x1000,
            old(frame)@.len() >= frame_bytes(),
            same_tail(frame@, old(frame)@),
            screen(frame@) == halo(
                screen(old(frame)@),
                x as int,
                y as int,
                w as int,
                h as int,
                base@,
                base_alpha,
                layers,
                step as int,
                l as nat,
            ),
        decreases layers - l,
    {
        let alpha: u8 = halo_layer_alpha(base_alpha, layers, l);
        let (rx, ry, rw, rh) = halo_layer_rect(x, y, w, h, step, l);
        draw_rect_glow(frame, rx, ry, rw, rh, base, alpha);
        l = l + 1;
    }
}

/// The weight of layer `l` of a halo.
fn halo_layer_alpha(base_alpha: u8, layers: u8, l: u8) -> (alpha: u8)
    ensures
        alpha == halo_alpha(base_alpha, layers, l as int),
{
    let share: u8 = base_alpha / (if layers < 1 {
        1
    } else {
        layers
    });
    assert(0 <= l * share <= 255 * 255) by (nonlinear_arith)
        requires
            0 <= l <= 255,
            0 <= share <= 255,
    ;
    let taken: u16 = l as u16 * share as u16;
    if taken > base_alpha as u16 {
        0
    } else {
        base_alpha - taken as u8
    }
}

/// The rectangle of layer `l` of a halo.
fn halo_layer_rect(x: i32, y: i32, w: i32, h: i32, step: i32, l: u8) -> (r: (i32, i32, i32, i32))
    requires
        -HALO_REACH <= x <= HALO_REACH,
        -HALO_REACH <= y <= HALO_REACH,
        -HALO_REACH <= w <= HALO_REACH,
        -HALO_REACH <= h <= HALO_REACH,
        -0x1000 <= step <= 0x1000,
    ensures
        (r.0 as int, r.1 as int, r.2 as int, r.3 as int) == halo_rect(
            x as int,
            y as int,
            w as int,
            h as int,
            step as int,
            l as int,
        ),
        i32::MIN <= r.0 + r.2 <= i32::MAX,
        i32::MIN <= r.1 + r.3 <= i32::MAX,
{
    assert(-0x1000 * 256 <= step * (l + 1) <= 0x1000 * 256) by (nonlinear_arith)
        requires
            -0x1000 <= step <= 0x1000,
            0 <= l <= 255,
    ;
    let grow: i32 = step * (l as i32 + 1);
    let rx: i32 = if x - grow < 0 {
        0
    } else {
        x - grow
    };
    let ry: i32 = if y - grow < 0 {
        0
    } else {
        y - grow
    };
    let rw: i32 = if w + grow * 2 < WIDTH as i32 - rx {
        w + grow * 2
    } else {
        WIDTH as i32 - rx
    };
    let rh: i32 = if h + grow * 2 < HEIGHT as i32 - ry {
        h + grow * 2
    } else {
        HEIGHT as i32 - ry
    };
    (rx, ry, rw, rh)
}

} // verus!
