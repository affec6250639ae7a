//! The full-frame screens: the menu's text and the screen after a win.

use vstd::prelude::*;
use crate::canvas::{
    Rgba, Screen, basic_line_screen, fill_rect, frame_bytes, halo, lemma_plot, opaque, pixel_count,
    pixel_of, same_tail, screen, thick_line_screen,
};
use crate::draw::{
    draw_line, draw_line_large, line_basic, line_thick, measure_line, measure_line_large, plot_at,
    rect, soft_halo, LINE_REACH,
};
use crate::font::{large_spaced_text_screen, line_measure, line_step, spaced_text_screen};
use crate::util::{WIDTH, HEIGHT};

verus! {

/// The number of corners of a star's outline.
pub const STAR_POINTS: usize = 10;

/// A picture with the first `n` edges of a closed outline through `pts`:
/// edge `k` runs from corner `k` to the next, and the last back to the
/// first.
pub open spec fn outline_screen(cv: Screen, pts: Seq<(i32, i32)>, c: Seq<u8>, n: nat) -> Screen
    decreases n,
{
    if n == 0 {
        cv
    } else {
        let from = pts[n - 1];
        let to = pts[(n as int) % (pts.len() as int)];
        basic_line_screen(
            outline_screen(cv, pts, c, (n - 1) as nat),
            from.0 as int,
            from.1 as int,
            to.0 as int,
            to.1 as int,
            c,
        )
    }
}

/// Whether every corner lies where a line may end.
pub open spec fn in_reach(pts: Seq<(i32, i32)>) -> bool {
    forall|k: int|
        0 <= k < pts.len() ==> -LINE_REACH <= (#[trigger] pts[k]).0 <= LINE_REACH && -LINE_REACH
            <= pts[k].1 <= LINE_REACH
}

/// Draws the closed outline through the corners `pts`, in their order.
pub fn draw_star_outline(frame: &mut [u8], pts: &[(i32, i32)], color: [u8; 3])
    requires
        old(frame)@.len() >= frame_bytes(),
        in_reach(pts@),
    ensures
        screen(final(frame)@) == outline_screen(screen(old(frame)@), pts@, color@, pts@.len()),
        same_tail(final(frame)@, old(frame)@),
{
    let n: usize = pts.len();
    let mut k: usize = 0;
    while k < n
        invariant
            n == pts@.len(),
            k <= n,
            in_reach(pts@),
            old(frame)@.len() >= frame_bytes(),
            same_tail(frame@, old(frame)@),
            screen(frame@) == outline_screen(screen(old(frame)@), pts@, color@, k as nat),
        decreases n - k,
    {
        let (x0, y0) = pts[k];
        let (x1, y1) = pts[(k + 1) % n];
        line_basic(frame, x0, y0, x1, y1, color);
        k = k + 1;
    }
}

/// A picture with the first `n` arms of a star: arm `k` is a thick line
/// from corner `k` to the next.
pub open spec fn arms_screen(cv: Screen, pts: Seq<(i32, i32)>, c: Seq<u8>, n: nat) -> Screen
    decreases n,
{
    if n == 0 {
        cv
    } else {
        let from = pts[n - 1];
        let to = pts[n as int];
        thick_line_screen(
            arms_screen(cv, pts, c, (n - 1) as nat),
            from.0 as int,
            from.1 as int,
            to.0 as int,
            to.1 as int,
            c,
            2,
            2,
        )
    }
}

/// Whether every corner lies where a thick line may end.
pub open spec fn in_thick_reach(pts: Seq<(i32, i32)>) -> bool {
    forall|k: int|
        0 <= k < pts.len() ==> -LINE_REACH + 0x1000 <= (#[trigger] pts[k]).0 <= LINE_REACH - 0x1000
            && -LINE_REACH + 0x1000 <= pts[k].1 <= LINE_REACH - 0x1000
}

/// Draws a filled star about `(cx, cy)`: a thick line from each of the
/// corners `pts` to the next, and a square of six pixels on the centre.
pub fn draw_star(frame: &mut [u8], cx: i32, cy: i32, pts: &[(i32, i32)], color: [u8; 3])
    requires
        old(frame)@.len() >= frame_bytes(),
        in_thick_reach(pts@),
        -LINE_REACH <= cx <= LINE_REACH,
        -LINE_REACH <= cy <= LINE_REACH,
    ensures
        screen(final(frame)@) == fill_rect(
            arms_screen(
                screen(old(frame)@),
                pts@,
                color@,
                (if pts@.len() == 0 {
                    0
                } else {
                    pts@.len() - 1
                }) as nat,
            ),
            cx - 3,
            cy - 3,
            6,
            6,
            color@,
        ),
        same_tail(final(frame)@, old(frame)@),
{
    let n: usize = pts.len();
    let mut k: usize = 0;
    while k + 1 < n
        invariant
            n == pts@.len(),
            k <= n,
            n > 0 ==> k <= n - 1,
            n == 0 ==> k == 0,
            in_thick_reach(pts@),
            old(frame)@.len() >= frame_bytes(),
            same_tail(frame@, old(frame)@),
            screen(frame@) == arms_screen(screen(old(frame)@), pts@, color@, k as nat),
        decreases n - k,
    {
        let (x0, y0) = pts[k];
        let (x1, y1) = pts[k + 1];
        line_thick(frame, x0, y0, x1, y1, color, 2);
        k = k + 1;
    }
    rect(frame, cx - 3, cy - 3, 6, 6, color);
}

/// A picture with a title in the large font: two rings of glow about it, a
/// shadow below and to the right, and the title itself on top.
pub open spec fn title_screen(
    cv: Screen,
    text: Seq<char>,
    x: int,
    y: int,
    outer: Seq<u8>,
    inner: Seq<u8>,
    shadow: Seq<u8>,
    ink: Seq<u8>,
) -> Screen {
    let n = text.len();
    let a = ring_screen(ring_screen(cv, text, x, y, 2, outer), text, x, y, 3, outer);
    let b = ring_screen(a, text, x, y, 1, inner);
    let c = large_spaced_text_screen(b, text, n, x + 2, y + 2, shadow, 28);
    large_spaced_text_screen(c, text, n, x, y, ink, 28)
}

/// A picture with a text drawn four times in the large font: moved by
/// `off` to the right, to the left, down and up.
pub open spec fn ring_screen(cv: Screen, text: Seq<char>, x: int, y: int, off: int, c: Seq<u8>) -> Screen {
    let n = text.len();
    large_spaced_text_screen(
        large_spaced_text_screen(
            large_spaced_text_screen(
                large_spaced_text_screen(cv, text, n, x + off, y, c, 28),
                text,
                n,
                x - off,
                y,
                c,
                28,
            ),
            text,
            n,
            x,
            y + off,
            c,
            28,
        ),
        text,
        n,
        x,
        y - off,
        c,
        28,
    )
}

/// The greatest magnitude of a coordinate at which a title may stand.
pub const TITLE_REACH: i32 = 0x10_0000;

/// The greatest number of characters of a title or a line of a screen.
pub const MAX_LINE: usize = 256;

/// Draws a text four times, moved by `off` in each direction.
fn draw_ring(frame: &mut [u8], text: &str, x: i32, y: i32, off: i32, color: [u8; 3])
    requires
        old(frame)@.len() >= frame_bytes(),
        text@.len() <= MAX_LINE,
        -TITLE_REACH <= x <= TITLE_REACH,
        -TITLE_REACH <= y <= TITLE_REACH,
        0 <= off <= 16,
    ensures
        screen(final(frame)@) == ring_screen(
            screen(old(frame)@),
            text@,
            x as int,
            y as int,
            off as int,
            color@,
        ),
        same_tail(final(frame)@, old(frame)@),
{
    draw_line_large(frame, text, x + off, y, color);
    draw_line_large(frame, text, x - off, y, color);
    draw_line_large(frame, text, x, y + off, color);
    draw_line_large(frame, text, x, y - off, color);
}

/// Draws a title in the large font with its glow and shadow.
pub fn draw_title(
    frame: &mut [u8],
    text: &str,
    x: i32,
    y: i32,
    outer: [u8; 3],
    inner: [u8; 3],
    shadow: [u8; 3],
    ink: [u8; 3],
)
    requires
        old(frame)@.len() >= frame_bytes(),
        text@.len() <= MAX_LINE,
        -TITLE_REACH <= x <= TITLE_REACH,
        -TITLE_REACH <= y <= TITLE_REACH,
    ensures
        screen(final(frame)@) == title_screen(
            screen(old(frame)@),
            text@,
            x as int,
            y as int,
            outer@,
            inner@,
            shadow@,
            ink@,
        ),
        same_tail(final(frame)@, old(frame)@),
{
    draw_ring(frame, text, x, y, 2, outer);
    draw_ring(frame, text, x, y, 3, outer);
    draw_ring(frame, text, x, y, 1, inner);
    draw_line_large(frame, text, x + 2, y + 2, shadow);
    draw_line_large(frame, text, x, y, ink);
}

/// Where a line of `n` characters begins so that it is centred in a frame
/// `1024` wide.
pub open spec fn centered_x(n: int, glyph_w: int, kern: int) -> int {
    trunc_half(1024 - line_measure(n, glyph_w, 0, 1, kern).0)
}

/// Half of `v`, rounded towards zero.
pub open spec fn trunc_half(v: int) -> int {
    if v >= 0 {
        v / 2
    } else {
        -((-v) / 2)
    }
}

/// A picture with a line of text in the small font and its shadow one pixel
/// below and to the right.
pub open spec fn shadowed_line_screen(
    cv: Screen,
    text: Seq<char>,
    x: int,
    y: int,
    off: int,
    shadow: Seq<u8>,
    ink: Seq<u8>,
    glyph_w: int,
    kern: int,
    scale: int,
) -> Screen {
    let n = text.len();
    let step = line_step(glyph_w, 1, kern);
    spaced_text_screen(
        spaced_text_screen(cv, text, n, x + off, y + off, shadow, step, scale),
        text,
        n,
        x,
        y,
        ink,
        step,
        scale,
    )
}

/// Draws a line of text in the small font over its shadow.
pub fn draw_shadowed_line(
    frame: &mut [u8],
    text: &str,
    x: i32,
    y: i32,
    off: i32,
    shadow: [u8; 3],
    ink: [u8; 3],
    glyph_w: i32,
    kern: i32,
    scale: i32,
)
    requires
        old(frame)@.len() >= frame_bytes(),
        text@.len() <= MAX_LINE,
        -TITLE_REACH <= x <= TITLE_REACH,
        -TITLE_REACH <= y <= TITLE_REACH,
        0 <= off <= 16,
        0 <= glyph_w <= 64,
        0 <= kern <= 100,
        scale <= 16,
    ensures
        screen(final(frame)@) == shadowed_line_screen(
            screen(old(frame)@),
            text@,
            x as int,
            y as int,
            off as int,
            shadow@,
            ink@,
            glyph_w as int,
            kern as int,
            scale as int,
        ),
        same_tail(final(frame)@, old(frame)@),
{
    draw_line(frame, text, x + off, y + off, shadow, glyph_w, 1, kern, scale);
    draw_line(frame, text, x, y, ink, glyph_w, 1, kern, scale);
}

/// A picture with one level of the menu: with a halo where it is selected,
/// over its shadow where it is not.
pub open spec fn option_screen(
    cv: Screen,
    text: Seq<char>,
    center_x: int,
    y: int,
    selected: bool,
    glow_alpha: u8,
    col_normal: Seq<u8>,
    col_selected: Seq<u8>,
) -> Screen {
    let size = line_measure(text.len() as int, 18, 28, 1, 90);
    let x = center_x - trunc_half(size.0);
    if selected {
        spaced_text_screen(
            halo(cv, x, y, size.0, size.1, seq![64u8, 200u8, 255u8], glow_alpha, 5, 2, 5),
            text,
            text.len(),
            x,
            y,
            col_selected,
            line_step(18, 1, 90),
            2,
        )
    } else {
        shadowed_line_screen(cv, text, x, y, 1, seq![18u8, 24u8, 36u8], col_normal, 18, 90, 2)
    }
}

/// Half of `v`, rounded towards zero.
fn half(v: i32) -> (h: i32)
    ensures
        h == trunc_half(v as int),
{
    v / 2
}

/// Draws one level of the menu, centred on `center_x`: under a halo of
/// weight `glow_alpha` where it is selected.
pub fn draw_menu_option_text_only(
    frame: &mut [u8],
    text: &str,
    center_x: i32,
    y: i32,
    selected: bool,
    glow_alpha: u8,
    col_normal: [u8; 3],
    col_selected: [u8; 3],
)
    requires
        old(frame)@.len() >= frame_bytes(),
        text@.len() <= MAX_LINE,
        -0x1_0000 <= center_x <= 0x1_0000,
        -0x1_0000 <= y <= 0x1_0000,
    ensures
        screen(final(frame)@) == option_screen(
            screen(old(frame)@),
            text@,
            center_x as int,
            y as int,
            selected,
            glow_alpha,
            col_normal@,
            col_selected@,
        ),
        same_tail(final(frame)@, old(frame)@),
{
    let (text_w, h) = measure_line(text, 18, 28, 1, 90);
    proof {
        lemma_measure_small(text@.len() as int, 18, 28, 90);
    }
    let x: i32 = center_x - half(text_w);
    if selected {
        soft_halo(frame, x, y, text_w, h, [64, 200, 255], glow_alpha, 5, 2);
        draw_line(frame, text, x, y, col_selected, 18, 1, 90, 2);
    } else {
        draw_shadowed_line(frame, text, x, y, 1, [18, 24, 36], col_normal, 18, 90, 2);
    }
}

/// A short line is not wide.
proof fn lemma_measure_small(n: int, glyph_w: int, glyph_h: int, kern: int)
    requires
        0 <= n <= 256,
        0 <= glyph_w <= 64,
        0 <= kern <= 100,
    ensures
        -1 <= line_measure(n, glyph_w, glyph_h, 1, kern).0 <= 256 * 65,
{
    if n > 0 {
        let a = (glyph_w + 1) * n * kern;
        assert(0 <= (glyph_w + 1) * n <= 65 * 256) by (nonlinear_arith)
            requires
                0 <= glyph_w <= 64,
                0 < n <= 256,
        ;
        assert(0 <= a <= 65 * 256 * 100) by (nonlinear_arith)
            requires
                a == ((glyph_w + 1) * n) * kern,
                0 <= (glyph_w + 1) * n <= 65 * 256,
                0 <= kern <= 100,
        ;
        vstd::arithmetic::div_mod::lemma_fundamental_div_mod(-a, 100);
        vstd::arithmetic::div_mod::lemma_mod_bound(-a, 100);
    }
}

/// The pixel at position `k` of the background after a win: a green that
/// lightens towards the bottom, with sparse brighter dots.
#[verifier::opaque]
pub open spec fn win_backdrop_at(k: int) -> Rgba {
    let x = (k % 1024) as u32;
    let y = (k / 1024) as u32;
    let r = 12 + 42 * y / 576;
    let g = 34 + 70 * y / 576;
    let b = 12 + 28 * y / 576;
    if ((x * 47) as u32 ^ (y * 73) as u32) % 900 == 0 {
        Rgba { r: (r + 26) as u8, g: (g + 40) as u8, b: (b + 20) as u8, a: 255 }
    } else {
        Rgba { r: r as u8, g: g as u8, b: b as u8, a: 255 }
    }
}

/// The background after a win.
pub open spec fn win_backdrop() -> Screen {
    Seq::new(pixel_count() as nat, |k: int| win_backdrop_at(k))
}

/// The colour of the background after a win at `(x, y)`.
fn win_pixel(x: u32, y: u32) -> (c: [u8; 3])
    requires
        x < 1024,
        y < 576,
    ensures
        opaque(c@) == win_backdrop_at(y * 1024 + x),
{
    reveal(win_backdrop_at);
    let r: u32 = 12 + 42 * y / 576;
    let g: u32 = 34 + 70 * y / 576;
    let b: u32 = 12 + 28 * y / 576;
    let seed: u32 = (x * 47) ^ (y * 73);
    if seed % 900 == 0 {
        [(r + 26) as u8, (g + 40) as u8, (b + 20) as u8]
    } else {
        [r as u8, g as u8, b as u8]
    }
}

/// Paints the background after a win over the whole frame.
pub fn paint_win_backdrop(frame: &mut [u8])
    requires
        old(frame)@.len() >= frame_bytes(),
    ensures
        screen(final(frame)@) == win_backdrop(),
        same_tail(final(frame)@, old(frame)@),
{
    let mut y: u32 = 0;
    while y < HEIGHT
        invariant
            y <= 576,
            same_tail(frame@, old(frame)@),
            old(frame)@.len() >= frame_bytes(),
            forall|j: int|
                0 <= j < y * 1024 ==> #[trigger] pixel_of(frame@, j) == win_backdrop_at(j),
        decreases 576 - y,
    {
        let mut x: u32 = 0;
        while x < WIDTH
            invariant
                y < 576,
                x <= 1024,
                same_tail(frame@, old(frame)@),
                old(frame)@.len() >= frame_bytes(),
                forall|j: int|
                    0 <= j < y * 1024 + x ==> #[trigger] pixel_of(frame@, j) == win_backdrop_at(j),
            decreases 1024 - x,
        {
            let c: [u8; 3] = win_pixel(x, y);
            let k: usize = (y * WIDTH + x) as usize;
            let ghost before = frame@;
            plot_at(frame, k, c);
            proof {
                lemma_plot(before, k as int, c@);
            }
            x = x + 1;
        }
        y = y + 1;
    }
    assert(screen(frame@) =~= win_backdrop());
}

/// The screen after a win: its background, the title with its glow, three
/// star outlines through the given corners, and a hint below.
pub open spec fn win_screen(
    top: Seq<(i32, i32)>,
    left: Seq<(i32, i32)>,
    right: Seq<(i32, i32)>,
) -> Screen {
    let title = "VICTORIA!"@;
    let hint = "ESPACIO - VOLVER AL MENU"@;
    let star = seq![255u8, 245u8, 180u8];
    let titled = title_screen(
        win_backdrop(),
        title,
        centered_x(title.len() as int, 30, 90),
        198,
        seq![210u8, 165u8, 70u8],
        seq![255u8, 210u8, 120u8],
        seq![20u8, 15u8, 6u8],
        seq![255u8, 232u8, 160u8],
    );
    let starred = outline_screen(
        outline_screen(outline_screen(titled, top, star, top.len()), left, star, left.len()),
        right,
        star,
        right.len(),
    );
    shadowed_line_screen(
        starred,
        hint,
        centered_x(hint.len() as int, 9, 95),
        306,
        1,
        seq![14u8, 18u8, 12u8],
        seq![210u8, 255u8, 200u8],
        9,
        95,
        1,
    )
}

/// Draws the screen after a win. The corners of its three stars, which
/// turn with time, are given: `top`, `left` and `right`.
pub fn draw_win(frame: &mut [u8], top: &[(i32, i32)], left: &[(i32, i32)], right: &[(i32, i32)])
    requires
        old(frame)@.len() >= frame_bytes(),
        in_reach(top@),
        in_reach(left@),
        in_reach(right@),
    ensures
        screen(final(frame)@) == win_screen(top@, left@, right@),
        same_tail(final(frame)@, old(frame)@),
{
    paint_win_backdrop(frame);
    let title: &str = "VICTORIA!";
    let hint: &str = "ESPACIO - VOLVER AL MENU";
    proof {
        reveal_strlit("VICTORIA!");
        reveal_strlit("ESPACIO - VOLVER AL MENU");
        lemma_measure_small(title@.len() as int, 30, 48, 90);
        lemma_measure_small(hint@.len() as int, 9, 16, 95);
        lemma_measure_height(title@.len() as int, 30, 0, 48, 90);
        lemma_measure_height(hint@.len() as int, 9, 0, 16, 95);
    }
    let (tw, th) = measure_line_large(title);
    let y: i32 = (HEIGHT as i32) / 2 - 90;
    let title_x: i32 = half(WIDTH as i32 - tw);
    draw_title(
        frame,
        title,
        title_x,
        y,
        [210, 165, 70],
        [255, 210, 120],
        [20, 15, 6],
        [255, 232, 160],
    );
    draw_star_outline(frame, top, [255, 245, 180]);
    draw_star_outline(frame, left, [255, 245, 180]);
    draw_star_outline(frame, right, [255, 245, 180]);
    let (hw, _hh) = measure_line(hint, 9, 16, 1, 95);
    let hx: i32 = half(WIDTH as i32 - hw);
    let hy: i32 = y + th + 60;
    draw_shadowed_line(frame, hint, hx, hy, 1, [14, 18, 12], [210, 255, 200], 9, 95, 1);
}

/// The width of a line does not depend on the height of its glyphs.
proof fn lemma_measure_height(n: int, glyph_w: int, h1: int, h2: int, kern: int)
    ensures
        line_measure(n, glyph_w, h1, 1, kern).0 == line_measure(n, glyph_w, h2, 1, kern).0,
        line_measure(n, glyph_w, h2, 1, kern).1 == h2,
{
}

/// A picture with one line of the menu's help, centred within the widest
/// line, over its shadow.
pub open spec fn tip_screen(
    cv: Screen,
    text: Seq<char>,
    tips_x: int,
    max_w: int,
    y: int,
    ink: Seq<u8>,
) -> Screen {
    let w = line_measure(text.len() as int, 9, 16, 1, 90).0;
    shadowed_line_screen(
        cv,
        text,
        tips_x + trunc_half(max_w - w),
        y,
        1,
        seq![12u8, 16u8, 24u8],
        ink,
        9,
        90,
        1,
    )
}

/// Draws one line of the menu's help.
fn draw_tip(frame: &mut [u8], text: &str, tips_x: i32, max_w: i32, y: i32, ink: [u8; 3])
    requires
        old(frame)@.len() >= frame_bytes(),
        text@.len() <= MAX_LINE,
        -0x1_0000 <= tips_x <= 0x1_0000,
        -0x1_0000 <= max_w <= 0x1_0000,
        -0x1_0000 <= y <= 0x1_0000,
    ensures
        screen(final(frame)@) == tip_screen(
            screen(old(frame)@),
            text@,
            tips_x as int,
            max_w as int,
            y as int,
            ink@,
        ),
        same_tail(final(frame)@, old(frame)@),
{
    let (w, _h) = measure_line(text, 9, 16, 1, 90);
    proof {
        lemma_measure_small(text@.len() as int, 9, 16, 90);
    }
    let x: i32 = tips_x + half(max_w - w);
    draw_shadowed_line(frame, text, x, y, 1, [12, 16, 24], ink, 9, 90, 1);
}

/// The width of a line of the menu's help.
pub open spec fn tip_width(text: Seq<char>) -> int {
    line_measure(text.len() as int, 9, 16, 1, 90).0
}

/// The greater of two widths.
pub open spec fn wider(a: int, b: int) -> int {
    if a < b {
        b
    } else {
        a
    }
}

/// The menu's text over a background: the title, the two levels, of which
/// the selected one glows with weight `glow_alpha`, five lines of help, and
/// the call to begin under a halo of weight `cta_alpha`.
pub open spec fn menu_text_screen(cv: Screen, selected: int, glow_alpha: u8, cta_alpha: u8) -> Screen {
    let title = "RAYCASTING UWU"@;
    let cta = "PRESIONA ENTER"@;
    let max_w = wider(
        wider(
            wider(
                wider(wider(0, tip_width("CONTROLES"@)), tip_width("WASD  -  MOVIMIENTO"@)),
                tip_width("MOUSE -  CAMARA"@),
            ),
            tip_width("ESC   -  PAUSA"@),
        ),
        tip_width("TAB   -  LIBERAR MOUSE"@),
    );
    let tips_x = trunc_half(1024 - max_w);
    let level = seq![170u8, 210u8, 255u8];
    let chosen = seq![255u8, 255u8, 255u8];
    let tips = seq![188u8, 198u8, 210u8];
    let s0 = title_screen(
        cv,
        title,
        centered_x(title.len() as int, 30, 90),
        131,
        seq![70u8, 120u8, 200u8],
        seq![110u8, 170u8, 230u8],
        seq![14u8, 20u8, 32u8],
        seq![218u8, 236u8, 255u8],
    );
    let s1 = option_screen(s0, "NIVEL 1 - EASY"@, 512, 195, selected == 1, glow_alpha, level, chosen);
    let s2 = option_screen(
        s1,
        "NIVEL 2 - COMPLICADO"@,
        512,
        231,
        selected == 2,
        glow_alpha,
        level,
        chosen,
    );
    let s3 = tip_screen(s2, "CONTROLES"@, tips_x, max_w, 285, seq![210u8, 218u8, 230u8]);
    let s4 = tip_screen(s3, "WASD  -  MOVIMIENTO"@, tips_x, max_w, 307, tips);
    let s5 = tip_screen(s4, "MOUSE -  CAMARA"@, tips_x, max_w, 329, tips);
    let s6 = tip_screen(s5, "ESC   -  PAUSA"@, tips_x, max_w, 351, tips);
    let s7 = tip_screen(s6, "TAB   -  LIBERAR MOUSE"@, tips_x, max_w, 373, tips);
    let size = line_measure(cta.len() as int, 18, 28, 1, 90);
    let cta_x = trunc_half(1024 - size.0);
    shadowed_line_screen(
        halo(s7, cta_x, 423, size.0, size.1, seq![120u8, 230u8, 230u8], cta_alpha, 4, 2, 4),
        cta,
        cta_x,
        423,
        2,
        seq![16u8, 22u8, 30u8],
        seq![210u8, 255u8, 255u8],
        18,
        90,
        2,
    )
}

/// The width of a line of the menu's help.
fn tip_width_of(text: &str) -> (w: i32)
    requires
        text@.len() <= MAX_LINE,
    ensures
        w == tip_width(text@),
        -1 <= w <= 256 * 65,
{
    proof {
        lemma_measure_small(text@.len() as int, 9, 16, 90);
    }
    measure_line(text, 9, 16, 1, 90).0
}

/// Draws the menu's text over what the frame holds: the title, the two
/// levels, the help and the call to begin. `selected` is 1 or 2 where a
/// level is selected; the weights of the two halos, which pulse with time,
/// are given.
pub fn draw_menu(frame: &mut [u8], selected: usize, glow_alpha: u8, cta_alpha: u8)
    requires
        old(frame)@.len() >= frame_bytes(),
    ensures
        screen(final(frame)@) == menu_text_screen(
            screen(old(frame)@),
            selected as int,
            glow_alpha,
            cta_alpha,
        ),
        same_tail(final(frame)@, old(frame)@),
{
    let title: &str = "RAYCASTING UWU";
    let opt1: &str = "NIVEL 1 - EASY";
    let opt2: &str = "NIVEL 2 - COMPLICADO";
    let tip0: &str = "CONTROLES";
    let tip1: &str = "WASD  -  MOVIMIENTO";
    let tip2: &str = "MOUSE -  CAMARA";
    let tip3: &str = "ESC   -  PAUSA";
    let tip4: &str = "TAB   -  LIBERAR MOUSE";
    let cta: &str = "PRESIONA ENTER";
    proof {
        reveal_strlit("RAYCASTING UWU");
        reveal_strlit("NIVEL 1 - EASY");
        reveal_strlit("NIVEL 2 - COMPLICADO");
        reveal_strlit("CONTROLES");
        reveal_strlit("WASD  -  MOVIMIENTO");
        reveal_strlit("MOUSE -  CAMARA");
        reveal_strlit("ESC   -  PAUSA");
        reveal_strlit("TAB   -  LIBERAR MOUSE");
        reveal_strlit("PRESIONA ENTER");
        lemma_measure_small(title@.len() as int, 30, 48, 90);
        lemma_measure_height(title@.len() as int, 30, 0, 48, 90);
        lemma_measure_small(cta@.len() as int, 18, 28, 90);
    }
    let (tw, th) = measure_line_large(title);
    let title_x: i32 = half(WIDTH as i32 - tw);
    let mut y: i32 = (HEIGHT as i32 - (th + 16 + 28 + 8 + 28 + 26 + (5 * (16 + 6) - 6) + 28 + 28))
        / 2;
    draw_title(
        frame,
        title,
        title_x,
        y,
        [70, 120, 200],
        [110, 170, 230],
        [14, 20, 32],
        [218, 236, 255],
    );
    y = y + th + 16;
    draw_menu_option_text_only(
        frame,
        opt1,
        (WIDTH as i32) / 2,
        y,
        selected == 1,
        glow_alpha,
        [170, 210, 255],
        [255, 255, 255],
    );
    y = y + 28 + 8;
    draw_menu_option_text_only(
        frame,
        opt2,
        (WIDTH as i32) / 2,
        y,
        selected == 2,
        glow_alpha,
        [170, 210, 255],
        [255, 255, 255],
    );
    y = y + 28 + 26;
    let mut max_w: i32 = 0;
    let w0: i32 = tip_width_of(tip0);
    if w0 > max_w {
        max_w = w0;
    }
    let w1: i32 = tip_width_of(tip1);
    if w1 > max_w {
        max_w = w1;
    }
    let w2: i32 = tip_width_of(tip2);
    if w2 > max_w {
        max_w = w2;
    }
    let w3: i32 = tip_width_of(tip3);
    if w3 > max_w {
        max_w = w3;
    }
    let w4: i32 = tip_width_of(tip4);
    if w4 > max_w {
        max_w = w4;
    }
    let tips_x: i32 = half(WIDTH as i32 - max_w);
    draw_tip(frame, tip0, tips_x, max_w, y, [210, 218, 230]);
    let mut ty: i32 = y + 16 + 6;
    draw_tip(frame, tip1, tips_x, max_w, ty, [188, 198, 210]);
    ty = ty + 16 + 6;
    draw_tip(frame, tip2, tips_x, max_w, ty, [188, 198, 210]);
    ty = ty + 16 + 6;
    draw_tip(frame, tip3, tips_x, max_w, ty, [188, 198, 210]);
    ty = ty + 16 + 6;
    draw_tip(frame, tip4, tips_x, max_w, ty, [188, 198, 210]);
    ty = ty + 16 + 6;
    y = y + (ty - y) + 28;
    let (ctaw, ctah) = measure_line(cta, 18, 28, 1, 90);
    let cta_x: i32 = half(WIDTH as i32 - ctaw);
    soft_halo(frame, cta_x, y, ctaw, ctah, [120, 230, 230], cta_alpha, 4, 2);
    draw_shadowed_line(frame, cta, cta_x, y, 2, [16, 22, 30], [210, 255, 255], 18, 90, 2);
}

} // verus!
