//! The two bitmap fonts: each glyph is a list of rectangles, given as
//! `[x, y, width, height]` from the glyph's top left corner.
//!
//! The small font is drawn on a grid of 8 by 12 cells that a scale factor
//! stretches; the large font is drawn in pixels, in a box of 20 by 32.

use vstd::prelude::*;
use crate::canvas::{Screen, blend_rect, fill_rect, panel};

verus! {

/// A glyph without ink.
pub const BLANK: [[i32; 4]; 0] = [];

/// What the large font shows for a character that it has no glyph for.
pub const LARGE_BOX: [[i32; 4]; 1] = [[6, 12, 8, 8]];

/// The hollow of the small font's zero, painted black over its block.
pub const SMALL_0_HOLE: [[i32; 4]; 1] = [[2, 2, 4, 8]];

pub const SMALL_A: [[i32; 4]; 4] = [[0, 0, 8, 2], [0, 0, 2, 12], [6, 0, 2, 12], [0, 5, 8, 2]];

pub const SMALL_B: [[i32; 4]; 6] = [
    [0, 0, 2, 12], [0, 0, 6, 2], [0, 5, 6, 2], [0, 10, 6, 2], [6, 2, 2, 3], [6, 7, 2, 3],
];

pub const SMALL_C: [[i32; 4]; 3] = [[0, 0, 8, 2], [0, 0, 2, 12], [0, 10, 8, 2]];

pub const SMALL_D: [[i32; 4]; 4] = [[0, 0, 2, 12], [0, 0, 6, 2], [0, 10, 6, 2], [6, 2, 2, 8]];

pub const SMALL_E: [[i32; 4]; 4] = [[0, 0, 8, 2], [0, 0, 2, 12], [0, 5, 6, 2], [0, 10, 8, 2]];

pub const SMALL_F: [[i32; 4]; 3] = [[0, 0, 8, 2], [0, 0, 2, 12], [0, 5, 6, 2]];

pub const SMALL_G: [[i32; 4]; 5] = [
    [0, 0, 8, 2], [0, 0, 2, 12], [0, 10, 8, 2], [6, 6, 2, 6], [4, 6, 4, 2],
];

pub const SMALL_I: [[i32; 4]; 1] = [[3, 0, 2, 12]];

pub const SMALL_L: [[i32; 4]; 2] = [[0, 0, 2, 12], [0, 10, 8, 2]];

pub const SMALL_M: [[i32; 4]; 4] = [[0, 0, 2, 12], [6, 0, 2, 12], [2, 0, 2, 4], [4, 0, 2, 4]];

pub const SMALL_N: [[i32; 4]; 3] = [[0, 0, 2, 12], [6, 0, 2, 12], [2, 3, 2, 6]];

pub const SMALL_O: [[i32; 4]; 4] = [[0, 0, 8, 2], [0, 0, 2, 12], [6, 0, 2, 12], [0, 10, 8, 2]];

pub const SMALL_P: [[i32; 4]; 4] = [[0, 0, 8, 2], [0, 0, 2, 12], [0, 5, 8, 2], [6, 0, 2, 7]];

pub const SMALL_R: [[i32; 4]; 5] = [
    [0, 0, 8, 2], [0, 0, 2, 12], [0, 5, 8, 2], [6, 0, 2, 7], [4, 7, 4, 5],
];

pub const SMALL_S: [[i32; 4]; 5] = [
    [0, 0, 8, 2], [0, 0, 2, 6], [0, 5, 8, 2], [6, 5, 2, 7], [0, 10, 8, 2],
];

pub const SMALL_T: [[i32; 4]; 2] = [[0, 0, 8, 2], [3, 0, 2, 12]];

pub const SMALL_U: [[i32; 4]; 3] = [[0, 0, 2, 12], [6, 0, 2, 12], [0, 10, 8, 2]];

pub const SMALL_V: [[i32; 4]; 3] = [[0, 0, 2, 10], [6, 0, 2, 10], [2, 10, 4, 2]];

pub const SMALL_W: [[i32; 4]; 4] = [[0, 0, 2, 12], [6, 0, 2, 12], [2, 8, 2, 4], [4, 8, 2, 4]];

pub const SMALL_Y: [[i32; 4]; 3] = [[0, 0, 2, 6], [6, 0, 2, 6], [3, 6, 2, 6]];

pub const SMALL_Z: [[i32; 4]; 4] = [[0, 0, 8, 2], [4, 3, 4, 4], [0, 7, 4, 3], [0, 10, 8, 2]];

pub const SMALL_0: [[i32; 4]; 1] = [[0, 0, 8, 12]];

pub const SMALL_1: [[i32; 4]; 2] = [[3, 0, 2, 12], [1, 2, 2, 2]];

pub const SMALL_2: [[i32; 4]; 5] = [
    [0, 0, 8, 2], [6, 0, 2, 6], [0, 5, 8, 2], [0, 5, 2, 7], [0, 10, 8, 2],
];

pub const SMALL_3: [[i32; 4]; 4] = [[0, 0, 8, 2], [6, 0, 2, 12], [0, 5, 8, 2], [0, 10, 8, 2]];

pub const SMALL_4: [[i32; 4]; 3] = [[0, 0, 2, 7], [0, 5, 8, 2], [6, 0, 2, 12]];

pub const SMALL_5: [[i32; 4]; 5] = [
    [0, 0, 8, 2], [0, 0, 2, 7], [0, 5, 8, 2], [6, 5, 2, 7], [0, 10, 8, 2],
];

pub const SMALL_6: [[i32; 4]; 5] = [
    [0, 0, 8, 2], [0, 0, 2, 12], [0, 5, 8, 2], [6, 5, 2, 7], [0, 10, 8, 2],
];

pub const SMALL_7: [[i32; 4]; 2] = [[0, 0, 8, 2], [6, 0, 2, 12]];

pub const SMALL_8: [[i32; 4]; 5] = [
    [0, 0, 8, 2], [0, 0, 2, 12], [6, 0, 2, 12], [0, 5, 8, 2], [0, 10, 8, 2],
];

pub const SMALL_9: [[i32; 4]; 5] = [
    [0, 0, 8, 2], [0, 0, 2, 7], [6, 0, 2, 12], [0, 5, 8, 2], [0, 10, 8, 2],
];

pub const SMALL_COLON: [[i32; 4]; 2] = [[3, 3, 2, 2], [3, 7, 2, 2]];

pub const SMALL_DASH: [[i32; 4]; 1] = [[0, 5, 8, 2]];

pub const SMALL_UNDERSCORE: [[i32; 4]; 1] = [[0, 10, 8, 2]];

pub const SMALL_DOT: [[i32; 4]; 1] = [[3, 9, 2, 2]];

pub const SMALL_ARROW: [[i32; 4]; 3] = [[0, 3, 2, 6], [2, 4, 2, 4], [4, 5, 2, 2]];

pub const LARGE_A: [[i32; 4]; 4] = [[0, 0, 20, 4], [0, 0, 4, 32], [16, 0, 4, 32], [0, 14, 20, 4]];

pub const LARGE_C: [[i32; 4]; 3] = [[0, 0, 20, 4], [0, 0, 4, 32], [0, 28, 20, 4]];

pub const LARGE_D: [[i32; 4]; 4] = [[0, 0, 4, 32], [0, 0, 16, 4], [0, 28, 16, 4], [16, 4, 4, 24]];

pub const LARGE_E: [[i32; 4]; 4] = [[0, 0, 20, 4], [0, 0, 4, 32], [0, 14, 16, 4], [0, 28, 20, 4]];

pub const LARGE_G: [[i32; 4]; 5] = [
    [0, 0, 20, 4], [0, 0, 4, 32], [0, 28, 20, 4], [16, 16, 4, 16], [10, 16, 10, 4],
];

pub const LARGE_I: [[i32; 4]; 1] = [[8, 0, 4, 32]];

pub const LARGE_M: [[i32; 4]; 4] = [[0, 0, 4, 32], [16, 0, 4, 32], [4, 0, 4, 12], [12, 0, 4, 12]];

pub const LARGE_N: [[i32; 4]; 4] = [[0, 0, 4, 32], [16, 0, 4, 32], [4, 8, 4, 16], [8, 12, 4, 8]];

pub const LARGE_O: [[i32; 4]; 4] = [[0, 0, 20, 4], [0, 0, 4, 32], [16, 0, 4, 32], [0, 28, 20, 4]];

pub const LARGE_P: [[i32; 4]; 4] = [[0, 0, 20, 4], [0, 0, 4, 32], [0, 14, 20, 4], [16, 0, 4, 18]];

pub const LARGE_R: [[i32; 4]; 5] = [
    [0, 0, 20, 4], [0, 0, 4, 32], [0, 14, 20, 4], [16, 0, 4, 18], [10, 18, 10, 14],
];

pub const LARGE_S: [[i32; 4]; 5] = [
    [0, 0, 20, 4], [0, 0, 4, 16], [0, 14, 20, 4], [16, 14, 4, 18], [0, 28, 20, 4],
];

pub const LARGE_T: [[i32; 4]; 2] = [[0, 0, 20, 4], [8, 0, 4, 32]];

pub const LARGE_U: [[i32; 4]; 3] = [[0, 0, 4, 32], [16, 0, 4, 32], [0, 28, 20, 4]];

pub const LARGE_V: [[i32; 4]; 3] = [[0, 0, 4, 28], [16, 0, 4, 28], [6, 28, 8, 4]];

pub const LARGE_Y: [[i32; 4]; 3] = [[0, 0, 4, 16], [16, 0, 4, 16], [8, 16, 4, 16]];

pub const LARGE_Z: [[i32; 4]; 4] = [[0, 0, 20, 4], [8, 8, 12, 12], [0, 20, 12, 8], [0, 28, 20, 4]];

pub const LARGE_BANG: [[i32; 4]; 2] = [[8, 0, 4, 22], [8, 26, 4, 6]];

pub const LARGE_DASH: [[i32; 4]; 1] = [[4, 14, 12, 4]];

/// The part of a full heart that catches the light.
pub const HEART_SHINE: [[i32; 4]; 3] = [[6, 0, 4, 2], [6, 3, 4, 2], [6, 6, 6, 2]];

/// The part of a full heart in its own colour.
pub const HEART_BODY: [[i32; 4]; 9] = [
    [4, 0, 2, 2], [14, 0, 6, 2], [2, 3, 4, 2], [14, 3, 8, 2], [0, 6, 6, 2], [12, 6, 12, 2],
    [0, 9, 24, 2], [2, 12, 20, 2], [4, 15, 16, 2],
];

/// The part of a full heart that lies in shadow.
pub const HEART_SHADE: [[i32; 4]; 3] = [[6, 18, 12, 2], [8, 21, 8, 2], [10, 24, 4, 2]];

/// The outline of an empty heart.
pub const HEART_OUTLINE: [[i32; 4]; 19] = [
    [4, 0, 6, 1], [14, 0, 6, 1], [2, 3, 2, 1], [8, 3, 2, 1], [14, 3, 2, 1], [20, 3, 2, 1],
    [0, 6, 2, 1], [22, 6, 2, 1], [0, 9, 2, 1], [22, 9, 2, 1], [2, 12, 2, 1], [20, 12, 2, 1],
    [4, 15, 2, 1], [18, 15, 2, 1], [6, 18, 2, 1], [16, 18, 2, 1], [8, 21, 2, 1], [14, 21, 2, 1],
    [10, 24, 4, 1],
];

/// The rectangles of a character in the small font, in grid cells. Letters
/// are the same in either case; a character without a glyph has none.
pub open spec fn small_glyph(ch: char) -> Seq<[i32; 4]> {
    if ch == 'A' || ch == 'a' {
        SMALL_A@
    }     else if ch == 'B' || ch == 'b' {
        SMALL_B@
    }     else if ch == 'C' || ch == 'c' {
        SMALL_C@
    }     else if ch == 'D' || ch == 'd' {
        SMALL_D@
    }     else if ch == 'E' || ch == 'e' {
        SMALL_E@
    }     else if ch == 'F' || ch == 'f' {
        SMALL_F@
    }     else if ch == 'G' || ch == 'g' {
        SMALL_G@
    }     else if ch == 'I' || ch == 'i' {
        SMALL_I@
    }     else if ch == 'L' || ch == 'l' {
        SMALL_L@
    }     else if ch == 'M' || ch == 'm' {
        SMALL_M@
    }     else if ch == 'N' || ch == 'n' {
        SMALL_N@
    }     else if ch == 'O' || ch == 'o' {
        SMALL_O@
    }     else if ch == 'P' || ch == 'p' {
        SMALL_P@
    }     else if ch == 'R' || ch == 'r' {
        SMALL_R@
    }     else if ch == 'S' || ch == 's' {
        SMALL_S@
    }     else if ch == 'T' || ch == 't' {
        SMALL_T@
    }     else if ch == 'U' || ch == 'u' {
        SMALL_U@
    }     else if ch == 'V' || ch == 'v' {
        SMALL_V@
    }     else if ch == 'W' || ch == 'w' {
        SMALL_W@
    }     else if ch == 'Y' || ch == 'y' {
        SMALL_Y@
    }     else if ch == 'Z' || ch == 'z' {
        SMALL_Z@
    }     else if ch == '0' {
        SMALL_0@
    }     else if ch == '1' {
        SMALL_1@
    }     else if ch == '2' {
        SMALL_2@
    }     else if ch == '3' {
        SMALL_3@
    }     else if ch == '4' {
        SMALL_4@
    }     else if ch == '5' {
        SMALL_5@
    }     else if ch == '6' {
        SMALL_6@
    }     else if ch == '7' {
        SMALL_7@
    }     else if ch == '8' {
        SMALL_8@
    }     else if ch == '9' {
        SMALL_9@
    }     else if ch == ':' {
        SMALL_COLON@
    }     else if ch == '-' {
        SMALL_DASH@
    }     else if ch == '_' {
        SMALL_UNDERSCORE@
    }     else if ch == '.' {
        SMALL_DOT@
    }     else if ch == '>' {
        SMALL_ARROW@
    } else {
        BLANK@
    }
}

/// The rectangles that the small font paints black over a character.
pub open spec fn small_hole(ch: char) -> Seq<[i32; 4]> {
    if ch == '0' {
        SMALL_0_HOLE@
    } else {
        BLANK@
    }
}

/// The rectangles of a character in the large font, in pixels. A space has
/// none; a character without a glyph shows as a box.
pub open spec fn large_glyph(ch: char) -> Seq<[i32; 4]> {
    if ch == ' ' {
        BLANK@
    } else {
        if ch == 'A' || ch == 'a' {
            LARGE_A@
        }     else if ch == 'C' || ch == 'c' {
            LARGE_C@
        }     else if ch == 'D' || ch == 'd' {
            LARGE_D@
        }     else if ch == 'E' || ch == 'e' {
            LARGE_E@
        }     else if ch == 'G' || ch == 'g' {
            LARGE_G@
        }     else if ch == 'I' || ch == 'i' {
            LARGE_I@
        }     else if ch == 'M' || ch == 'm' {
            LARGE_M@
        }     else if ch == 'N' || ch == 'n' {
            LARGE_N@
        }     else if ch == 'O' || ch == 'o' {
            LARGE_O@
        }     else if ch == 'P' || ch == 'p' {
            LARGE_P@
        }     else if ch == 'R' || ch == 'r' {
            LARGE_R@
        }     else if ch == 'S' || ch == 's' {
            LARGE_S@
        }     else if ch == 'T' || ch == 't' {
            LARGE_T@
        }     else if ch == 'U' || ch == 'u' {
            LARGE_U@
        }     else if ch == 'V' || ch == 'v' {
            LARGE_V@
        }     else if ch == 'Y' || ch == 'y' {
            LARGE_Y@
        }     else if ch == 'Z' || ch == 'z' {
            LARGE_Z@
        }     else if ch == '!' {
            LARGE_BANG@
        }     else if ch == '-' {
            LARGE_DASH@
        } else {
            LARGE_BOX@
        }
    }
}

/// The rectangles of a character in the large font where it is drawn
/// translucent: fewer characters have a glyph there.
pub open spec fn large_alpha_glyph(ch: char) -> Seq<[i32; 4]> {
    if ch == ' ' {
        BLANK@
    } else {
        if ch == 'A' || ch == 'a' {
            LARGE_A@
        }     else if ch == 'C' || ch == 'c' {
            LARGE_C@
        }     else if ch == 'D' || ch == 'd' {
            LARGE_D@
        }     else if ch == 'I' || ch == 'i' {
            LARGE_I@
        }     else if ch == 'O' || ch == 'o' {
            LARGE_O@
        }     else if ch == 'R' || ch == 'r' {
            LARGE_R@
        }     else if ch == 'T' || ch == 't' {
            LARGE_T@
        }     else if ch == 'V' || ch == 'v' {
            LARGE_V@
        }     else if ch == '!' {
            LARGE_BANG@
        } else {
            LARGE_BOX@
        }
    }
}

/// Whether every rectangle of a glyph lies within 64 cells of its corner.
pub open spec fn is_glyph(strokes: Seq<[i32; 4]>) -> bool {
    forall|i: int, j: int|
        0 <= i < strokes.len() && 0 <= j < 4 ==> 0 <= #[trigger] strokes[i]@[j] <= 64
}

/// A picture with the first `n` rectangles of a glyph filled with the colour
/// `c`, each stretched by `s` from the corner `(x, y)`.
pub open spec fn strokes_screen(
    cv: Screen,
    strokes: Seq<[i32; 4]>,
    n: nat,
    x: int,
    y: int,
    s: int,
    c: Seq<u8>,
) -> Screen
    decreases n,
{
    if n == 0 {
        cv
    } else {
        let st = strokes[n - 1]@;
        fill_rect(
            strokes_screen(cv, strokes, (n - 1) as nat, x, y, s, c),
            x + st[0] * s,
            y + st[1] * s,
            st[2] * s,
            st[3] * s,
            c,
        )
    }
}

/// A picture with the colour `c` blended over the first `n` rectangles of a
/// glyph, one after the other, from the corner `(x, y)`.
pub open spec fn glass_strokes_screen(
    cv: Screen,
    strokes: Seq<[i32; 4]>,
    n: nat,
    x: int,
    y: int,
    c: Seq<u8>,
    alpha: u8,
) -> Screen
    decreases n,
{
    if n == 0 {
        cv
    } else {
        let st = strokes[n - 1]@;
        blend_rect(
            glass_strokes_screen(cv, strokes, (n - 1) as nat, x, y, c, alpha),
            x + st[0],
            y + st[1],
            st[2] as int,
            st[3] as int,
            c,
            alpha,
        )
    }
}

/// The factor that the small font is stretched by: the scale, and 1 where
/// the scale is less.
pub open spec fn stretch(scale: int) -> int {
    if scale < 1 {
        1
    } else {
        scale
    }
}

/// A picture with a character of the small font drawn at `(x, y)`.
pub open spec fn char_screen(cv: Screen, x: int, y: int, ch: char, c: Seq<u8>, scale: int) -> Screen {
    strokes_screen(
        strokes_screen(cv, small_glyph(ch), small_glyph(ch).len(), x, y, stretch(scale), c),
        small_hole(ch),
        small_hole(ch).len(),
        x,
        y,
        stretch(scale),
        seq![0u8, 0u8, 0u8],
    )
}

/// A picture with a character of the large font drawn at `(x, y)`.
pub open spec fn large_char_screen(cv: Screen, x: int, y: int, ch: char, c: Seq<u8>) -> Screen {
    strokes_screen(cv, large_glyph(ch), large_glyph(ch).len(), x, y, 1, c)
}

/// A picture with a character of the large font blended in at `(x, y)`.
pub open spec fn large_char_alpha_screen(
    cv: Screen,
    x: int,
    y: int,
    ch: char,
    c: Seq<u8>,
    alpha: u8,
) -> Screen {
    glass_strokes_screen(cv, large_alpha_glyph(ch), large_alpha_glyph(ch).len(), x, y, c, alpha)
}

/// A picture with the first `n` characters of a text drawn in the small
/// font, 14 scaled cells apart.
pub open spec fn text_screen(
    cv: Screen,
    text: Seq<char>,
    n: nat,
    x: int,
    y: int,
    c: Seq<u8>,
    scale: int,
) -> Screen
    decreases n,
{
    if n == 0 {
        cv
    } else {
        char_screen(
            text_screen(cv, text, (n - 1) as nat, x, y, c, scale),
            x + (n - 1) * 14 * scale,
            y,
            text[n - 1],
            c,
            scale,
        )
    }
}

/// A picture with the first `n` characters of a text drawn in the large
/// font, 32 pixels apart.
pub open spec fn large_text_screen(
    cv: Screen,
    text: Seq<char>,
    n: nat,
    x: int,
    y: int,
    c: Seq<u8>,
) -> Screen
    decreases n,
{
    if n == 0 {
        cv
    } else {
        large_char_screen(
            large_text_screen(cv, text, (n - 1) as nat, x, y, c),
            x + (n - 1) * 32,
            y,
            text[n - 1],
            c,
        )
    }
}

/// A picture with the first `n` characters of a text blended in in the
/// large font, 32 pixels apart.
pub open spec fn large_text_alpha_screen(
    cv: Screen,
    text: Seq<char>,
    n: nat,
    x: int,
    y: int,
    c: Seq<u8>,
    alpha: u8,
) -> Screen
    decreases n,
{
    if n == 0 {
        cv
    } else {
        large_char_alpha_screen(
            large_text_alpha_screen(cv, text, (n - 1) as nat, x, y, c, alpha),
            x + (n - 1) * 32,
            y,
            text[n - 1],
            c,
            alpha,
        )
    }
}

/// The character for a digit.
pub open spec fn digit_char(d: int) -> char {
    if d == 0 {
        '0'
    } else if d == 1 {
        '1'
    } else if d == 2 {
        '2'
    } else if d == 3 {
        '3'
    } else if d == 4 {
        '4'
    } else if d == 5 {
        '5'
    } else if d == 6 {
        '6'
    } else if d == 7 {
        '7'
    } else if d == 8 {
        '8'
    } else {
        '9'
    }
}

/// A number in decimal, without leading zeros.
pub open spec fn decimal(n: nat) -> Seq<char>
    decreases n,
{
    if n < 10 {
        seq![digit_char(n as int)]
    } else {
        decimal(n / 10).push(digit_char((n % 10) as int))
    }
}

/// A number has at most as many digits as its value allows.
pub proof fn lemma_decimal_len(n: nat)
    requires
        n <= u32::MAX,
    ensures
        1 <= decimal(n).len() <= 10,
{
    reveal_with_fuel(decimal, 11);
}

/// The colour of a full heart in its shadow: half of each channel.
pub open spec fn heart_shadow(c: Seq<u8>) -> Seq<u8> {
    seq![(c[0] / 2) as u8, (c[1] / 2) as u8, (c[2] / 2) as u8]
}

/// One channel made brighter by three tenths, and at most 255.
pub open spec fn brighten(v: int) -> int {
    if v * 13 / 10 > 255 {
        255
    } else {
        v * 13 / 10
    }
}

/// The colour of a full heart where it catches the light: full red, green
/// and blue brightened.
pub open spec fn heart_highlight(c: Seq<u8>) -> Seq<u8> {
    seq![255u8, brighten(c[1] as int) as u8, brighten(c[2] as int) as u8]
}

/// A picture with a full heart drawn at `(x, y)`.
pub open spec fn full_heart(cv: Screen, x: int, y: int, c: Seq<u8>) -> Screen {
    strokes_screen(
        strokes_screen(
            strokes_screen(cv, HEART_SHINE@, 3, x, y, 1, heart_highlight(c)),
            HEART_BODY@,
            9,
            x,
            y,
            1,
            c,
        ),
        HEART_SHADE@,
        3,
        x,
        y,
        1,
        heart_shadow(c),
    )
}

/// A picture with the outline of a heart drawn at `(x, y)`.
pub open spec fn empty_heart(cv: Screen, x: int, y: int, c: Seq<u8>) -> Screen {
    strokes_screen(cv, HEART_OUTLINE@, 19, x, y, 1, c)
}

/// A picture with the first `n` of the five hearts of the life panel:
/// heart `i` is full where `i < life`.
pub open spec fn hearts(cv: Screen, life: int, n: nat) -> Screen
    decreases n,
{
    if n == 0 {
        cv
    } else if n - 1 < life {
        full_heart(hearts(cv, life, (n - 1) as nat), 819 + (n - 1) * 36, 30, seq![240u8, 70u8, 90u8])
    } else {
        empty_heart(hearts(cv, life, (n - 1) as nat), 819 + (n - 1) * 36, 30, seq![60u8, 60u8, 65u8])
    }
}

/// A picture with the life panel in its top right corner.
pub open spec fn life_screen(cv: Screen, life: int) -> Screen {
    hearts(
        panel(
            cv,
            804,
            20,
            200,
            50,
            seq![30u8, 15u8, 18u8],
            seq![20u8, 10u8, 12u8],
            seq![120u8, 60u8, 70u8],
        ),
        life,
        5,
    )
}

/// What the frame counter shows: `FPS: ` and the number.
pub open spec fn fps_label(fps: nat) -> Seq<char> {
    seq!['F', 'P', 'S', ':', ' '] + decimal(fps)
}

/// The colour of the frame counter: green from 55 frames a second, yellow
/// from 40, red below.
pub open spec fn fps_color(fps: nat) -> Seq<u8> {
    if fps >= 55 {
        seq![120u8, 255u8, 140u8]
    } else if fps >= 40 {
        seq![255u8, 230u8, 120u8]
    } else {
        seq![255u8, 120u8, 120u8]
    }
}

/// A picture with the frame counter in its bottom left corner.
pub open spec fn fps_screen(cv: Screen, fps: nat) -> Screen {
    text_screen(
        panel(
            cv,
            20,
            526,
            110,
            40,
            seq![15u8, 18u8, 25u8],
            seq![10u8, 12u8, 18u8],
            seq![60u8, 70u8, 90u8],
        ),
        fps_label(fps),
        fps_label(fps).len(),
        30,
        538,
        fps_color(fps),
        2,
    )
}

/// `a / d` rounded towards plus infinity.
pub open spec fn ceil_div(a: int, d: int) -> int {
    -((-a) / d)
}

/// The width and height of a line of text: `n` characters, each
/// `glyph_w + spacing` wide, drawn closer by `kern` percent, less the last
/// spacing; no width for an empty line.
pub open spec fn line_measure(
    n: int,
    glyph_w: int,
    glyph_h: int,
    spacing: int,
    kern: int,
) -> (int, int) {
    if n <= 0 {
        (0, glyph_h)
    } else {
        (ceil_div((glyph_w + spacing) * n * kern, 100) - spacing, glyph_h)
    }
}

/// The distance between the characters of such a line.
#[verifier::opaque]
pub open spec fn line_step(glyph_w: int, spacing: int, kern: int) -> int {
    ceil_div((glyph_w + spacing) * kern, 100)
}

/// A picture with the first `n` characters of a text drawn in the small
/// font, `step` pixels apart.
pub open spec fn spaced_text_screen(
    cv: Screen,
    text: Seq<char>,
    n: nat,
    x: int,
    y: int,
    c: Seq<u8>,
    step: int,
    scale: int,
) -> Screen
    decreases n,
{
    if n == 0 {
        cv
    } else {
        char_screen(
            spaced_text_screen(cv, text, (n - 1) as nat, x, y, c, step, scale),
            x + (n - 1) * step,
            y,
            text[n - 1],
            c,
            scale,
        )
    }
}

/// A picture with the first `n` characters of a text drawn in the large
/// font, `step` pixels apart.
pub open spec fn large_spaced_text_screen(
    cv: Screen,
    text: Seq<char>,
    n: nat,
    x: int,
    y: int,
    c: Seq<u8>,
    step: int,
) -> Screen
    decreases n,
{
    if n == 0 {
        cv
    } else {
        large_char_screen(
            large_spaced_text_screen(cv, text, (n - 1) as nat, x, y, c, step),
            x + (n - 1) * step,
            y,
            text[n - 1],
            c,
        )
    }
}

} // verus!
