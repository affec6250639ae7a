//! Drawing text on a frame: the glyphs of the two fonts, lines of text and
//! their measures.

use vstd::prelude::*;
use vstd::string::StrSliceExecFns;
use crate::canvas::{frame_bytes, same_tail, screen};
use crate::draw::{draw_rect_alpha, rect};
use crate::fixed::{floor_div, lemma_div_bounds};
use crate::font::{
    LARGE_BOX, SMALL_0_HOLE, LARGE_A, LARGE_BANG, LARGE_C, LARGE_D, LARGE_DASH, LARGE_E, LARGE_G,
    LARGE_I, LARGE_M, LARGE_N, LARGE_O, LARGE_P, LARGE_R, LARGE_S, LARGE_T, LARGE_U, LARGE_V,
    LARGE_Y, LARGE_Z, SMALL_0, SMALL_1, SMALL_2, SMALL_3, SMALL_4, SMALL_5, SMALL_6, SMALL_7,
    SMALL_8, SMALL_9, SMALL_A, SMALL_ARROW, SMALL_B, SMALL_C, SMALL_COLON, SMALL_D, SMALL_DASH,
    SMALL_DOT, SMALL_E, SMALL_F, SMALL_G, SMALL_I, SMALL_L, SMALL_M, SMALL_N, SMALL_O, SMALL_P,
    SMALL_R, SMALL_S, SMALL_T, SMALL_U, SMALL_UNDERSCORE, SMALL_V, SMALL_W, SMALL_Y, SMALL_Z,
};
use crate::font::{
    ceil_div, char_screen, decimal, digit_char, glass_strokes_screen, is_glyph,
    large_char_alpha_screen, large_char_screen, large_spaced_text_screen, large_text_alpha_screen,
    large_text_screen, line_measure, line_step, spaced_text_screen, strokes_screen, text_screen,
};

verus! {

/// The greatest magnitude of a coordinate at which a glyph may be drawn, so
/// that none of its corners leaves the range of the coordinates.
pub const REACH: i32 = 0x4000_0000;

/// The greatest scale of the small font.
pub const MAX_SCALE: i32 = 4096;

/// Fills the rectangles of a glyph, stretched by `s`, from `(x, y)`.
pub fn paint_strokes(frame: &mut [u8], strokes: &[[i32; 4]], x: i32, y: i32, s: i32, color: [u8; 3])
    requires
        old(frame)@.len() >= frame_bytes(),
        is_glyph(strokes@),
        1 <= s <= MAX_SCALE,
        -REACH <= x <= REACH,
        -REACH <= y <= REACH,
    ensures
        screen(final(frame)@) == strokes_screen(
            screen(old(frame)@),
            strokes@,
            strokes@.len(),
            x as int,
            y as int,
            s as int,
            color@,
        ),
        same_tail(final(frame)@, old(frame)@),
{
    let mut i: usize = 0;
    while i < strokes.len()
        invariant
            i <= strokes@.len(),
            is_glyph(strokes@),
            1 <= s <= MAX_SCALE,
            -REACH <= x <= REACH,
            -REACH <= y <= REACH,
            old(frame)@.len() >= frame_bytes(),
            same_tail(frame@, old(frame)@),
            screen(frame@) == strokes_screen(
                screen(old(frame)@),
                strokes@,
                i as nat,
                x as int,
                y as int,
                s as int,
                color@,
            ),
        decreases strokes@.len() - i,
    {
        let st: [i32; 4] = strokes[i];
        proof {
            assert(0 <= strokes@[i as int]@[0] <= 64);
            assert(0 <= strokes@[i as int]@[1] <= 64);
            assert(0 <= strokes@[i as int]@[2] <= 64);
            assert(0 <= strokes@[i as int]@[3] <= 64);
            lemma_stretch(st[0] as int, s as int);
            lemma_stretch(st[1] as int, s as int);
            lemma_stretch(st[2] as int, s as int);
            lemma_stretch(st[3] as int, s as int);
        }
        rect(frame, x + st[0] * s, y + st[1] * s, st[2] * s, st[3] * s, color);
        i = i + 1;
    }
}

/// A glyph's measure times a scale stays small.
proof fn lemma_stretch(a: int, s: int)
    requires
        0 <= a <= 64,
        1 <= s <= 4096,
    ensures
        0 <= a * s <= 64 * 4096,
{
    assert(0 <= a * s <= 64 * 4096) by (nonlinear_arith)
        requires
            0 <= a <= 64,
            1 <= s <= 4096,
    ;
}

/// Blends a colour over the rectangles of a glyph, one after the other,
/// from `(x, y)`.
pub fn blend_strokes(
    frame: &mut [u8],
    strokes: &[[i32; 4]],
    x: i32,
    y: i32,
    color: [u8; 3],
    alpha: u8,
)
    requires
        old(frame)@.len() >= frame_bytes(),
        is_glyph(strokes@),
        -REACH <= x <= REACH,
        -REACH <= y <= REACH,
    ensures
        screen(final(frame)@) == glass_strokes_screen(
            screen(old(frame)@),
            strokes@,
            strokes@.len(),
            x as int,
            y as int,
            color@,
            alpha,
        ),
        same_tail(final(frame)@, old(frame)@),
{
    let mut i: usize = 0;
    while i < strokes.len()
        invariant
            i <= strokes@.len(),
            is_glyph(strokes@),
            -REACH <= x <= REACH,
            -REACH <= y <= REACH,
            old(frame)@.len() >= frame_bytes(),
            same_tail(frame@, old(frame)@),
            screen(frame@) == glass_strokes_screen(
                screen(old(frame)@),
                strokes@,
                i as nat,
                x as int,
                y as int,
                color@,
                alpha,
            ),
        decreases strokes@.len() - i,
    {
        let st: [i32; 4] = strokes[i];
        proof {
            assert(0 <= strokes@[i as int]@[0] <= 64);
            assert(0 <= strokes@[i as int]@[1] <= 64);
            assert(0 <= strokes@[i as int]@[2] <= 64);
            assert(0 <= strokes@[i as int]@[3] <= 64);
        }
        draw_rect_alpha(frame, x + st[0], y + st[1], st[2], st[3], color, alpha);
        i = i + 1;
    }
}

/// Draws one character of the small font with its top left corner at
/// `(x, y)`, each cell `scale` pixels wide and high (one pixel where `scale`
/// is less than 1).
pub fn draw_char(frame: &mut [u8], x: i32, y: i32, ch: char, color: [u8; 3], scale: i32)
    requires
        old(frame)@.len() >= frame_bytes(),
        scale <= MAX_SCALE,
        -REACH <= x <= REACH,
        -REACH <= y <= REACH,
    ensures
        screen(final(frame)@) == char_screen(
            screen(old(frame)@),
            x as int,
            y as int,
            ch,
            color@,
            scale as int,
        ),
        same_tail(final(frame)@, old(frame)@),
{
    let s: i32 = if scale < 1 {
        1
    } else {
        scale
    };
    match ch {
        'A' | 'a' => paint_strokes(frame, SMALL_A.as_slice(), x, y, s, color),
        'B' | 'b' => paint_strokes(frame, SMALL_B.as_slice(), x, y, s, color),
        'C' | 'c' => paint_strokes(frame, SMALL_C.as_slice(), x, y, s, color),
        'D' | 'd' => paint_strokes(frame, SMALL_D.as_slice(), x, y, s, color),
        'E' | 'e' => paint_strokes(frame, SMALL_E.as_slice(), x, y, s, color),
        'F' | 'f' => paint_strokes(frame, SMALL_F.as_slice(), x, y, s, color),
        'G' | 'g' => paint_strokes(frame, SMALL_G.as_slice(), x, y, s, color),
        'I' | 'i' => paint_strokes(frame, SMALL_I.as_slice(), x, y, s, color),
        'L' | 'l' => paint_strokes(frame, SMALL_L.as_slice(), x, y, s, color),
        'M' | 'm' => paint_strokes(frame, SMALL_M.as_slice(), x, y, s, color),
        'N' | 'n' => paint_strokes(frame, SMALL_N.as_slice(), x, y, s, color),
        'O' | 'o' => paint_strokes(frame, SMALL_O.as_slice(), x, y, s, color),
        'P' | 'p' => paint_strokes(frame, SMALL_P.as_slice(), x, y, s, color),
        'R' | 'r' => paint_strokes(frame, SMALL_R.as_slice(), x, y, s, color),
        'S' | 's' => paint_strokes(frame, SMALL_S.as_slice(), x, y, s, color),
        'T' | 't' => paint_strokes(frame, SMALL_T.as_slice(), x, y, s, color),
        'U' | 'u' => paint_strokes(frame, SMALL_U.as_slice(), x, y, s, color),
        'V' | 'v' => paint_strokes(frame, SMALL_V.as_slice(), x, y, s, color),
        'W' | 'w' => paint_strokes(frame, SMALL_W.as_slice(), x, y, s, color),
        'Y' | 'y' => paint_strokes(frame, SMALL_Y.as_slice(), x, y, s, color),
        'Z' | 'z' => paint_strokes(frame, SMALL_Z.as_slice(), x, y, s, color),
        '0' => {
            paint_strokes(frame, SMALL_0.as_slice(), x, y, s, color);
            paint_strokes(frame, SMALL_0_HOLE.as_slice(), x, y, s, [0, 0, 0]);
        },
        '1' => paint_strokes(frame, SMALL_1.as_slice(), x, y, s, color),
        '2' => paint_strokes(frame, SMALL_2.as_slice(), x, y, s, color),
        '3' => paint_strokes(frame, SMALL_3.as_slice(), x, y, s, color),
        '4' => paint_strokes(frame, SMALL_4.as_slice(), x, y, s, color),
        '5' => paint_strokes(frame, SMALL_5.as_slice(), x, y, s, color),
        '6' => paint_strokes(frame, SMALL_6.as_slice(), x, y, s, color),
        '7' => paint_strokes(frame, SMALL_7.as_slice(), x, y, s, color),
        '8' => paint_strokes(frame, SMALL_8.as_slice(), x, y, s, color),
        '9' => paint_strokes(frame, SMALL_9.as_slice(), x, y, s, color),
        ':' => paint_strokes(frame, SMALL_COLON.as_slice(), x, y, s, color),
        '-' => paint_strokes(frame, SMALL_DASH.as_slice(), x, y, s, color),
        '_' => paint_strokes(frame, SMALL_UNDERSCORE.as_slice(), x, y, s, color),
        '.' => paint_strokes(frame, SMALL_DOT.as_slice(), x, y, s, color),
        '>' => paint_strokes(frame, SMALL_ARROW.as_slice(), x, y, s, color),
        _ => {},
    }
}

/// Draws one character of the large font with its top left corner at
/// `(x, y)`.
pub fn draw_char_large(frame: &mut [u8], x: i32, y: i32, ch: char, color: [u8; 3])
    requires
        old(frame)@.len() >= frame_bytes(),
        -REACH <= x <= REACH,
        -REACH <= y <= REACH,
    ensures
        screen(final(frame)@) == large_char_screen(
            screen(old(frame)@),
            x as int,
            y as int,
            ch,
            color@,
        ),
        same_tail(final(frame)@, old(frame)@),
{
    match ch {
        ' ' => {},
        'A' | 'a' => paint_strokes(frame, LARGE_A.as_slice(), x, y, 1, color),
        'C' | 'c' => paint_strokes(frame, LARGE_C.as_slice(), x, y, 1, color),
        'D' | 'd' => paint_strokes(frame, LARGE_D.as_slice(), x, y, 1, color),
        'E' | 'e' => paint_strokes(frame, LARGE_E.as_slice(), x, y, 1, color),
        'G' | 'g' => paint_strokes(frame, LARGE_G.as_slice(), x, y, 1, color),
        'I' | 'i' => paint_strokes(frame, LARGE_I.as_slice(), x, y, 1, color),
        'M' | 'm' => paint_strokes(frame, LARGE_M.as_slice(), x, y, 1, color),
        'N' | 'n' => paint_strokes(frame, LARGE_N.as_slice(), x, y, 1, color),
        'O' | 'o' => paint_strokes(frame, LARGE_O.as_slice(), x, y, 1, color),
        'P' | 'p' => paint_strokes(frame, LARGE_P.as_slice(), x, y, 1, color),
        'R' | 'r' => paint_strokes(frame, LARGE_R.as_slice(), x, y, 1, color),
        'S' | 's' => paint_strokes(frame, LARGE_S.as_slice(), x, y, 1, color),
        'T' | 't' => paint_strokes(frame, LARGE_T.as_slice(), x, y, 1, color),
        'U' | 'u' => paint_strokes(frame, LARGE_U.as_slice(), x, y, 1, color),
        'V' | 'v' => paint_strokes(frame, LARGE_V.as_slice(), x, y, 1, color),
        'Y' | 'y' => paint_strokes(frame, LARGE_Y.as_slice(), x, y, 1, color),
        'Z' | 'z' => paint_strokes(frame, LARGE_Z.as_slice(), x, y, 1, color),
        '!' => paint_strokes(frame, LARGE_BANG.as_slice(), x, y, 1, color),
        '-' => paint_strokes(frame, LARGE_DASH.as_slice(), x, y, 1, color),
        _ => paint_strokes(frame, LARGE_BOX.as_slice(), x, y, 1, color),
    }
}

/// Blends one character of the large font into the frame with its top left
/// corner at `(x, y)`.
pub fn draw_char_large_alpha(
    frame: &mut [u8],
    x: i32,
    y: i32,
    ch: char,
    color: [u8; 3],
    alpha: u8,
)
    requires
        old(frame)@.len() >= frame_bytes(),
        -REACH <= x <= REACH,
        -REACH <= y <= REACH,
    ensures
        screen(final(frame)@) == large_char_alpha_screen(
            screen(old(frame)@),
            x as int,
            y as int,
            ch,
            color@,
            alpha,
        ),
        same_tail(final(frame)@, old(frame)@),
{
    match ch {
        ' ' => {},
        'A' | 'a' => blend_strokes(frame, LARGE_A.as_slice(), x, y, color, alpha),
        'C' | 'c' => blend_strokes(frame, LARGE_C.as_slice(), x, y, color, alpha),
        'D' | 'd' => blend_strokes(frame, LARGE_D.as_slice(), x, y, color, alpha),
        'I' | 'i' => blend_strokes(frame, LARGE_I.as_slice(), x, y, color, alpha),
        'O' | 'o' => blend_strokes(frame, LARGE_O.as_slice(), x, y, color, alpha),
        'R' | 'r' => blend_strokes(frame, LARGE_R.as_slice(), x, y, color, alpha),
        'T' | 't' => blend_strokes(frame, LARGE_T.as_slice(), x, y, color, alpha),
        'V' | 'v' => blend_strokes(frame, LARGE_V.as_slice(), x, y, color, alpha),
        '!' => blend_strokes(frame, LARGE_BANG.as_slice(), x, y, color, alpha),
        _ => blend_strokes(frame, LARGE_BOX.as_slice(), x, y, color, alpha),
    }
}

/// The greatest magnitude of a coordinate at which a text may begin.
pub const TEXT_REACH: i32 = 0x100_0000;

/// The greatest number of characters of a text.
pub const MAX_TEXT: usize = 4096;

/// Draws characters in the small font from `(x, y)` on, each `14 * scale`
/// pixels right of the one before.
pub fn draw_chars(frame: &mut [u8], text: &[char], x: i32, y: i32, color: [u8; 3], scale: i32)
    requires
        old(frame)@.len() >= frame_bytes(),
        text@.len() <= MAX_TEXT,
        -MAX_SCALE <= scale <= MAX_SCALE,
        -TEXT_REACH <= x <= TEXT_REACH,
        -TEXT_REACH <= y <= TEXT_REACH,
    ensures
        screen(final(frame)@) == text_screen(
            screen(old(frame)@),
            text@,
            text@.len(),
            x as int,
            y as int,
            color@,
            scale as int,
        ),
        same_tail(final(frame)@, old(frame)@),
{
    let mut i: usize = 0;
    while i < text.len()
        invariant
            i <= text@.len(),
            text@.len() <= MAX_TEXT,
            -MAX_SCALE <= scale <= MAX_SCALE,
            -TEXT_REACH <= x <= TEXT_REACH,
            -TEXT_REACH <= y <= TEXT_REACH,
            old(frame)@.len() >= frame_bytes(),
            same_tail(frame@, old(frame)@),
            screen(frame@) == text_screen(
                screen(old(frame)@),
                text@,
                i as nat,
                x as int,
                y as int,
                color@,
                scale as int,
            ),
        decreases text@.len() - i,
    {
        proof {
            lemma_advance(i as int, 14, scale as int);
        }
        draw_char(frame, x + (i as i32) * 14 * scale, y, text[i], color, scale);
        i = i + 1;
    }
}

/// The `i`-th advance of a text stays small.
proof fn lemma_advance(i: int, step: int, scale: int)
    requires
        0 <= i <= 4096,
        0 <= step <= 32,
        -4096 <= scale <= 4096,
    ensures
        0 <= i * step <= 4096 * 32,
        -4096 * 32 * 4096 <= i * step * scale <= 4096 * 32 * 4096,
{
    assert(0 <= i * step <= 4096 * 32) by (nonlinear_arith)
        requires
            0 <= i <= 4096,
            0 <= step <= 32,
    ;
    assert(-4096 * 32 * 4096 <= (i * step) * scale <= 4096 * 32 * 4096) by (nonlinear_arith)
        requires
            0 <= i * step <= 4096 * 32,
            -4096 <= scale <= 4096,
    ;
}

/// Draws a text in the small font from `(x, y)` on, each character
/// `14 * scale` pixels right of the one before.
pub fn draw_text(frame: &mut [u8], text: &str, x: i32, y: i32, color: [u8; 3], scale: i32)
    requires
        old(frame)@.len() >= frame_bytes(),
        text@.len() <= MAX_TEXT,
        -MAX_SCALE <= scale <= MAX_SCALE,
        -TEXT_REACH <= x <= TEXT_REACH,
        -TEXT_REACH <= y <= TEXT_REACH,
    ensures
        screen(final(frame)@) == text_screen(
            screen(old(frame)@),
            text@,
            text@.len(),
            x as int,
            y as int,
            color@,
            scale as int,
        ),
        same_tail(final(frame)@, old(frame)@),
{
    let n: usize = text.unicode_len();
    let mut i: usize = 0;
    while i < n
        invariant
            n == text@.len(),
            i <= n,
            n <= MAX_TEXT,
            -MAX_SCALE <= scale <= MAX_SCALE,
            -TEXT_REACH <= x <= TEXT_REACH,
            -TEXT_REACH <= y <= TEXT_REACH,
            old(frame)@.len() >= frame_bytes(),
            same_tail(frame@, old(frame)@),
            screen(frame@) == text_screen(
                screen(old(frame)@),
                text@,
                i as nat,
                x as int,
                y as int,
                color@,
                scale as int,
            ),
        decreases n - i,
    {
        proof {
            lemma_advance(i as int, 14, scale as int);
        }
        draw_char(frame, x + (i as i32) * 14 * scale, y, text.get_char(i), color, scale);
        i = i + 1;
    }
}

/// Draws a text in the large font from `(x, y)` on, each character 32
/// pixels right of the one before.
pub fn draw_text_large(frame: &mut [u8], text: &str, x: i32, y: i32, color: [u8; 3])
    requires
        old(frame)@.len() >= frame_bytes(),
        text@.len() <= MAX_TEXT,
        -TEXT_REACH <= x <= TEXT_REACH,
        -TEXT_REACH <= y <= TEXT_REACH,
    ensures
        screen(final(frame)@) == large_text_screen(
            screen(old(frame)@),
            text@,
            text@.len(),
            x as int,
            y as int,
            color@,
        ),
        same_tail(final(frame)@, old(frame)@),
{
    let n: usize = text.unicode_len();
    let mut i: usize = 0;
    while i < n
        invariant
            n == text@.len(),
            i <= n,
            n <= MAX_TEXT,
            -TEXT_REACH <= x <= TEXT_REACH,
            -TEXT_REACH <= y <= TEXT_REACH,
            old(frame)@.len() >= frame_bytes(),
            same_tail(frame@, old(frame)@),
            screen(frame@) == large_text_screen(
                screen(old(frame)@),
                text@,
                i as nat,
                x as int,
                y as int,
                color@,
            ),
        decreases n - i,
    {
        draw_char_large(frame, x + (i as i32) * 32, y, text.get_char(i), color);
        i = i + 1;
    }
}

/// Blends a text in the large font into the frame from `(x, y)` on, each
/// character 32 pixels right of the one before.
pub fn draw_text_large_alpha(
    frame: &mut [u8],
    text: &str,
    x: i32,
    y: i32,
    color: [u8; 3],
    alpha: u8,
)
    requires
        old(frame)@.len() >= frame_bytes(),
        text@.len() <= MAX_TEXT,
        -TEXT_REACH <= x <= TEXT_REACH,
        -TEXT_REACH <= y <= TEXT_REACH,
    ensures
        screen(final(frame)@) == large_text_alpha_screen(
            screen(old(frame)@),
            text@,
            text@.len(),
            x as int,
            y as int,
            color@,
            alpha,
        ),
        same_tail(final(frame)@, old(frame)@),
{
    let n: usize = text.unicode_len();
    let mut i: usize = 0;
    while i < n
        invariant
            n == text@.len(),
            i <= n,
            n <= MAX_TEXT,
            -TEXT_REACH <= x <= TEXT_REACH,
            -TEXT_REACH <= y <= TEXT_REACH,
            old(frame)@.len() >= frame_bytes(),
            same_tail(frame@, old(frame)@),
            screen(frame@) == large_text_alpha_screen(
                screen(old(frame)@),
                text@,
                i as nat,
                x as int,
                y as int,
                color@,
                alpha,
            ),
        decreases n - i,
    {
        draw_char_large_alpha(frame, x + (i as i32) * 32, y, text.get_char(i), color, alpha);
        i = i + 1;
    }
}

/// The character for the digit `d`.
fn digit(d: u32) -> (ch: char)
    requires
        d < 10,
    ensures
        ch == digit_char(d as int),
{
    match d {
        0 => '0',
        1 => '1',
        2 => '2',
        3 => '3',
        4 => '4',
        5 => '5',
        6 => '6',
        7 => '7',
        8 => '8',
        _ => '9',
    }
}

/// The decimal digits of `n`, the most significant first.
pub fn decimal_digits(n: u32) -> (v: Vec<char>)
    ensures
        v@ == decimal(n as nat),
    decreases n,
{
    if n < 10 {
        let mut v: Vec<char> = Vec::new();
        v.push(digit(n));
        assert(v@ =~= decimal(n as nat));
        v
    } else {
        let mut v: Vec<char> = decimal_digits(n / 10);
        v.push(digit(n % 10));
        v
    }
}

/// `a / d` rounded towards plus infinity.
fn ceil_div_i64(a: i64, d: i64) -> (q: i64)
    requires
        0 < d,
        -0x4000_0000_0000_0000 <= a <= 0x4000_0000_0000_0000,
    ensures
        q == ceil_div(a as int, d as int),
        -0x4000_0000_0000_0001 <= q <= 0x4000_0000_0000_0001,
{
    (-floor_div(-(a as i128), d as i128)) as i64
}

/// The greatest magnitude of a glyph's width or spacing in a measured line.
pub const MAX_GLYPH: i32 = 4096;

/// The greatest kerning, in percent.
pub const MAX_KERN: i32 = 1000;

/// The width and height of a line of text whose characters are each
/// `glyph_w + spacing` wide and drawn closer by `kern` percent.
pub fn measure_line(text: &str, glyph_w: i32, glyph_h: i32, spacing: i32, kern: i32) -> (size: (
    i32,
    i32,
))
    requires
        text@.len() <= MAX_TEXT,
        -MAX_GLYPH <= glyph_w <= MAX_GLYPH,
        -MAX_GLYPH <= spacing <= MAX_GLYPH,
        0 <= kern <= MAX_KERN,
    ensures
        (size.0 as int, size.1 as int) == line_measure(
            text@.len() as int,
            glyph_w as int,
            glyph_h as int,
            spacing as int,
            kern as int,
        ),
{
    let n: i64 = text.unicode_len() as i64;
    if n <= 0 {
        return (0, glyph_h);
    }
    let adv: i64 = glyph_w as i64 + spacing as i64;
    assert(-8192 * 4096 <= adv * n <= 8192 * 4096) by (nonlinear_arith)
        requires
            -8192 <= adv <= 8192,
            0 < n <= 4096,
    ;
    assert(-8192 * 4096 * 1000 <= (adv * n) * kern <= 8192 * 4096 * 1000) by (nonlinear_arith)
        requires
            -8192 * 4096 <= adv * n <= 8192 * 4096,
            0 <= kern <= 1000,
    ;
    let wide: i64 = ceil_div_i64(adv * n * kern as i64, 100);
    proof {
        lemma_ceil_bounds(adv * n * kern, 100, 33554432000int);
    }
    ((wide - spacing as i64) as i32, glyph_h)
}

/// A quotient rounded up is no farther from zero than what was divided,
/// and times the divisor it is the least multiple that is not below it.
proof fn lemma_ceil_bounds(a: int, d: int, bound: int)
    requires
        0 < d,
        -bound <= a <= bound,
    ensures
        -bound <= ceil_div(a, d) <= bound,
        a <= ceil_div(a, d) * d < a + d,
{
    vstd::arithmetic::div_mod::lemma_fundamental_div_mod(-a, d);
    vstd::arithmetic::div_mod::lemma_mod_bound(-a, d);
    assert(d * ((-a) / d) == ((-a) / d) * d) by (nonlinear_arith);
    assert((-((-a) / d)) * d == -(((-a) / d) * d)) by (nonlinear_arith);
    if a <= 0 {
        lemma_div_bounds(-a, d);
    } else {
        vstd::arithmetic::div_mod::lemma_fundamental_div_mod(-a, d);
        vstd::arithmetic::div_mod::lemma_mod_bound(-a, d);
        let q = (-a) / d;
        assert(d * q == q * d) by (nonlinear_arith);
        assert(q * d <= -a < q * d + d);
        assert(q >= -a) by (nonlinear_arith)
            requires
                -a < q * d + d,
                d >= 1,
                a > 0,
                q * d <= -a,
        ;
        assert(q <= 0) by (nonlinear_arith)
            requires
                q * d <= -a,
                a > 0,
                d >= 1,
        ;
    }
}

/// The width and height of a line in the large font.
pub fn measure_line_large(text: &str) -> (size: (i32, i32))
    requires
        text@.len() <= MAX_TEXT,
    ensures
        (size.0 as int, size.1 as int) == line_measure(text@.len() as int, 30, 48, 1, 90),
{
    measure_line(text, 30, 48, 1, 90)
}

/// Draws a line of text in the small font, its characters placed as
/// [`measure_line`] measures them.
pub fn draw_line(
    frame: &mut [u8],
    text: &str,
    x: i32,
    y: i32,
    color: [u8; 3],
    glyph_w: i32,
    spacing: i32,
    kern: i32,
    scale: i32,
)
    requires
        old(frame)@.len() >= frame_bytes(),
        text@.len() <= MAX_TEXT,
        scale <= MAX_SCALE,
        -TEXT_REACH <= x <= TEXT_REACH,
        -TEXT_REACH <= y <= TEXT_REACH,
        -MAX_GLYPH <= glyph_w <= MAX_GLYPH,
        -MAX_GLYPH <= spacing <= MAX_GLYPH,
        0 <= kern <= MAX_KERN,
    ensures
        screen(final(frame)@) == spaced_text_screen(
            screen(old(frame)@),
            text@,
            text@.len(),
            x as int,
            y as int,
            color@,
            line_step(glyph_w as int, spacing as int, kern as int),
            scale as int,
        ),
        same_tail(final(frame)@, old(frame)@),
{
    let adv: i64 = glyph_w as i64 + spacing as i64;
    assert(-8192 * 1000 <= adv * kern <= 8192 * 1000) by (nonlinear_arith)
        requires
            -8192 <= adv <= 8192,
            0 <= kern <= 1000,
    ;
    let step: i64 = ceil_div_i64(adv * kern as i64, 100);
    proof {
        lemma_ceil_bounds(adv * kern, 100, 8192000int);
        assert(step == line_step(glyph_w as int, spacing as int, kern as int)) by {
            reveal(line_step);
        }
    }
    let n: usize = text.unicode_len();
    let mut i: usize = 0;
    while i < n
        invariant
            n == text@.len(),
            i <= n,
            n <= MAX_TEXT,
            scale <= MAX_SCALE,
            -TEXT_REACH <= x <= TEXT_REACH,
            -TEXT_REACH <= y <= TEXT_REACH,
            -81920 <= step <= 81920,
            step == line_step(glyph_w as int, spacing as int, kern as int),
            old(frame)@.len() >= frame_bytes(),
            same_tail(frame@, old(frame)@),
            screen(frame@) == spaced_text_screen(
                screen(old(frame)@),
                text@,
                i as nat,
                x as int,
                y as int,
                color@,
                step as int,
                scale as int,
            ),
        decreases n - i,
    {
        let at: i32 = nth_place(x, i, step);
        draw_char(frame, at, y, text.get_char(i), color, scale);
        i = i + 1;
    }
}

/// Where character `i` of a line stands.
fn nth_place(x: i32, i: usize, step: i64) -> (at: i32)
    requires
        -TEXT_REACH <= x <= TEXT_REACH,
        i <= MAX_TEXT,
        -81920 <= step <= 81920,
    ensures
        at == x + i * step,
        -REACH <= at <= REACH,
{
    assert(-4096 * 81920 <= i * step <= 4096 * 81920) by (nonlinear_arith)
        requires
            0 <= i <= 4096,
            -81920 <= step <= 81920,
    ;
    (x as i64 + (i as i64) * step) as i32
}

/// Draws a line of text in the large font, its characters 28 pixels apart.
pub fn draw_line_large(frame: &mut [u8], text: &str, x: i32, y: i32, color: [u8; 3])
    requires
        old(frame)@.len() >= frame_bytes(),
        text@.len() <= MAX_TEXT,
        -TEXT_REACH <= x <= TEXT_REACH,
        -TEXT_REACH <= y <= TEXT_REACH,
    ensures
        screen(final(frame)@) == large_spaced_text_screen(
            screen(old(frame)@),
            text@,
            text@.len(),
            x as int,
            y as int,
            color@,
            28,
        ),
        same_tail(final(frame)@, old(frame)@),
{
    let n: usize = text.unicode_len();
    let mut i: usize = 0;
    while i < n
        invariant
            n == text@.len(),
            i <= n,
            n <= MAX_TEXT,
            -TEXT_REACH <= x <= TEXT_REACH,
            -TEXT_REACH <= y <= TEXT_REACH,
            old(frame)@.len() >= frame_bytes(),
            same_tail(frame@, old(frame)@),
            screen(frame@) == large_spaced_text_screen(
                screen(old(frame)@),
                text@,
                i as nat,
                x as int,
                y as int,
                color@,
                28,
            ),
        decreases n - i,
    {
        draw_char_large(frame, x + (i as i32) * 28, y, text.get_char(i), color);
        i = i + 1;
    }
}

} // verus!
