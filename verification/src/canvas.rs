//! The model of a frame: how a buffer of bytes is read as a grid of pixels.
//!
//! A frame holds `WIDTH * HEIGHT` pixels, row by row from the top, four bytes
//! each: red, green, blue, alpha. Bytes beyond the last pixel belong to the
//! caller and are never touched.

use vstd::prelude::*;
use crate::util::{WIDTH, HEIGHT};

verus! {

/// One pixel as it lies in the buffer.
pub struct Rgba {
    pub r: u8,
    pub g: u8,
    pub b: u8,
    pub a: u8,
}

/// The picture that a frame shows: one [`Rgba`] for each pixel, row by row.
pub type Screen = Seq<Rgba>;

/// The number of pixels of a frame.
pub open spec fn pixel_count() -> int {
    WIDTH * HEIGHT
}

/// The number of bytes that a frame needs.
pub open spec fn frame_bytes() -> int {
    4 * pixel_count()
}

/// Whether `(x, y)` is a pixel of the frame.
pub open spec fn on_screen(x: int, y: int) -> bool {
    0 <= x < WIDTH && 0 <= y < HEIGHT
}

/// The position of pixel `(x, y)` in the row-major order.
pub open spec fn pixel_index(x: int, y: int) -> int {
    y * WIDTH + x
}

/// The opaque pixel of a colour given by its three channels.
pub open spec fn opaque(c: Seq<u8>) -> Rgba {
    Rgba { r: c[0], g: c[1], b: c[2], a: 255 }
}

/// The `k`-th pixel of a buffer.
pub open spec fn pixel_of(frame: Seq<u8>, k: int) -> Rgba {
    Rgba { r: frame[4 * k], g: frame[4 * k + 1], b: frame[4 * k + 2], a: frame[4 * k + 3] }
}

/// The picture held in a buffer.
pub open spec fn screen(frame: Seq<u8>) -> Screen {
    Seq::new(pixel_count() as nat, |k: int| pixel_of(frame, k))
}

/// Whether two buffers are as long as each other and agree beyond the pixels.
pub open spec fn same_tail(a: Seq<u8>, b: Seq<u8>) -> bool {
    &&& a.len() == b.len()
    &&& forall|i: int| frame_bytes() <= i < a.len() ==> a[i] == b[i]
}

/// A buffer after pixel `k` was set to the opaque colour `c`.
pub open spec fn plot(frame: Seq<u8>, k: int, c: Seq<u8>) -> Seq<u8> {
    frame.update(4 * k, c[0]).update(4 * k + 1, c[1]).update(4 * k + 2, c[2]).update(4 * k + 3, 255)
}

/// A buffer after the colour channels of pixel `k` were set to those of `p`.
pub open spec fn tint(frame: Seq<u8>, k: int, p: Rgba) -> Seq<u8> {
    frame.update(4 * k, p.r).update(4 * k + 1, p.g).update(4 * k + 2, p.b)
}

/// Whether `(x, y)` lies in the rectangle with corner `(x0, y0)`, width `w`
/// and height `h`.
pub open spec fn in_rect(x: int, y: int, x0: int, y0: int, w: int, h: int) -> bool {
    x0 <= x < x0 + w && y0 <= y < y0 + h
}

/// A picture with a rectangle filled with the opaque colour `c`.
pub open spec fn fill_rect(cv: Screen, x0: int, y0: int, w: int, h: int, c: Seq<u8>) -> Screen {
    Seq::new(
        cv.len(),
        |k: int|
            if in_rect(k % 1024, k / 1024, x0, y0, w, h) {
                opaque(c)
            } else {
                cv[k]
            },
    )
}

/// One channel of a blend: `src` over `dst` with weight `alpha` of 255.
pub open spec fn mix_channel(dst: int, src: int, alpha: int) -> int {
    (dst * (255 - alpha) + src * alpha) / 255
}

/// A pixel with the colour `c` blended over it; its alpha byte stays.
pub open spec fn mix(p: Rgba, c: Seq<u8>, alpha: u8) -> Rgba {
    Rgba {
        r: mix_channel(p.r as int, c[0] as int, alpha as int) as u8,
        g: mix_channel(p.g as int, c[1] as int, alpha as int) as u8,
        b: mix_channel(p.b as int, c[2] as int, alpha as int) as u8,
        a: p.a,
    }
}

/// A picture with the colour `c` blended over a rectangle.
pub open spec fn blend_rect(
    cv: Screen,
    x0: int,
    y0: int,
    w: int,
    h: int,
    c: Seq<u8>,
    alpha: u8,
) -> Screen {
    Seq::new(
        cv.len(),
        |k: int|
            if in_rect(k % 1024, k / 1024, x0, y0, w, h) {
                mix(cv[k], c, alpha)
            } else {
                cv[k]
            },
    )
}

/// The colour between `c1` and `c2` at `num` parts of `den` from `c1`.
pub open spec fn blend(c1: Seq<u8>, c2: Seq<u8>, num: int, den: int) -> Seq<u8> {
    seq![
        ((c1[0] * (den - num) + c2[0] * num) / den) as u8,
        ((c1[1] * (den - num) + c2[1] * num) / den) as u8,
        ((c1[2] * (den - num) + c2[2] * num) / den) as u8,
    ]
}

/// A picture with the first `rows` rows of a rectangle of height `h` filled
/// with a gradient from `c1` at its top towards `c2` at its bottom.
pub open spec fn gradient_rows(
    cv: Screen,
    x0: int,
    y0: int,
    w: int,
    rows: int,
    h: int,
    c1: Seq<u8>,
    c2: Seq<u8>,
) -> Screen {
    Seq::new(
        cv.len(),
        |k: int|
            if in_rect(k % 1024, k / 1024, x0, y0, w, rows) {
                opaque(blend(c1, c2, k / 1024 - y0, h))
            } else {
                cv[k]
            },
    )
}

/// A picture with a rectangle filled with a vertical gradient.
pub open spec fn gradient(
    cv: Screen,
    x0: int,
    y0: int,
    w: int,
    h: int,
    c1: Seq<u8>,
    c2: Seq<u8>,
) -> Screen {
    gradient_rows(cv, x0, y0, w, h, h, c1, c2)
}

/// A picture with a frame of the given thickness drawn along the inside of
/// a rectangle's edges: top, bottom, left, right.
pub open spec fn border(
    cv: Screen,
    x0: int,
    y0: int,
    w: int,
    h: int,
    c: Seq<u8>,
    thickness: int,
) -> Screen {
    fill_rect(
        fill_rect(
            fill_rect(fill_rect(cv, x0, y0, w, thickness, c), x0, y0 + h - thickness, w, thickness, c),
            x0,
            y0,
            thickness,
            h,
            c,
        ),
        x0 + w - thickness,
        y0,
        thickness,
        h,
        c,
    )
}

/// A picture with `n` soft shadows under a rectangle: black at weight 30,
/// each one pixel further right and down than the one before.
pub open spec fn shadows(cv: Screen, x0: int, y0: int, w: int, h: int, n: nat) -> Screen
    decreases n,
{
    if n == 0 {
        cv
    } else {
        blend_rect(
            shadows(cv, x0, y0, w, h, (n - 1) as nat),
            x0 + n - 1,
            y0 + n - 1,
            w,
            h,
            seq![0u8, 0u8, 0u8],
            30,
        )
    }
}

/// A picture with a panel: four shadows, a vertical gradient from `top` to
/// `bottom`, and an edge two pixels thick.
pub open spec fn panel(
    cv: Screen,
    x0: int,
    y0: int,
    w: int,
    h: int,
    top: Seq<u8>,
    bottom: Seq<u8>,
    edge: Seq<u8>,
) -> Screen {
    border(gradient(shadows(cv, x0, y0, w, h, 4), x0, y0, w, h, top, bottom), x0, y0, w, h, edge, 2)
}

/// A picture with the pixel at `(x, y)` set to the opaque colour `c`; the
/// same picture where `(x, y)` is off the screen.
pub open spec fn dot(cv: Screen, x: int, y: int, c: Seq<u8>) -> Screen {
    if on_screen(x, y) {
        cv.update(pixel_index(x, y), opaque(c))
    } else {
        cv
    }
}

/// Whether `(dx, dy)` lies in the disc of radius `r` about the origin.
pub open spec fn in_disc(dx: int, dy: int, r: int) -> bool {
    -r <= dx <= r && -r <= dy <= r && dx * dx + dy * dy <= r * r
}

/// A picture with the colour `c` blended over a disc.
pub open spec fn blend_disc(cv: Screen, cx: int, cy: int, r: int, c: Seq<u8>, alpha: u8) -> Screen {
    Seq::new(
        cv.len(),
        |k: int|
            if in_disc(k % 1024 - cx, k / 1024 - cy, r) {
                mix(cv[k], c, alpha)
            } else {
                cv[k]
            },
    )
}

/// A pixel with the colour `c` blended over it, made opaque.
pub open spec fn glow(p: Rgba, c: Seq<u8>, alpha: u8) -> Rgba {
    Rgba { a: 255, ..mix(p, c, alpha) }
}

/// A picture with the colour `c` blended over a rectangle and the
/// rectangle made opaque.
pub open spec fn glow_rect(
    cv: Screen,
    x0: int,
    y0: int,
    w: int,
    h: int,
    c: Seq<u8>,
    alpha: u8,
) -> Screen {
    Seq::new(
        cv.len(),
        |k: int|
            if in_rect(k % 1024, k / 1024, x0, y0, w, h) {
                glow(cv[k], c, alpha)
            } else {
                cv[k]
            },
    )
}

/// A picture with the red channel of every pixel raised by `intensity`, and
/// at most 255.
pub open spec fn reddened(cv: Screen, intensity: u8) -> Screen {
    Seq::new(
        cv.len(),
        |k: int|
            Rgba {
                r: (if cv[k].r + intensity > 255 {
                    255
                } else {
                    cv[k].r + intensity
                }) as u8,
                ..cv[k]
            },
    )
}

/// A picture with a line traced from `(x, y)` towards `(x1, y1)` in at most
/// `fuel` pixels, by steps of `sx` along x and `sy` along y. The tracer
/// keeps an error term: it steps along x where twice the error is above
/// `-dy` and along y where it is below `dx`; with `inclusive`, also where it
/// is equal.
pub open spec fn line_trace(
    cv: Screen,
    x: int,
    y: int,
    x1: int,
    y1: int,
    dx: int,
    dy: int,
    sx: int,
    sy: int,
    err: int,
    inclusive: bool,
    fuel: nat,
    c: Seq<u8>,
) -> Screen
    decreases fuel,
{
    if fuel == 0 {
        cv
    } else if x == x1 && y == y1 {
        dot(cv, x, y, c)
    } else {
        let step_x = 2 * err > -dy || (inclusive && 2 * err == -dy);
        let step_y = 2 * err < dx || (inclusive && 2 * err == dx);
        line_trace(
            dot(cv, x, y, c),
            if step_x {
                x + sx
            } else {
                x
            },
            if step_y {
                y + sy
            } else {
                y
            },
            x1,
            y1,
            dx,
            dy,
            sx,
            sy,
            err - (if step_x {
                dy
            } else {
                0
            }) + (if step_y {
                dx
            } else {
                0
            }),
            inclusive,
            (fuel - 1) as nat,
            c,
        )
    }
}

/// The unit step from `a` towards `b`: 1 where `a` is less, else -1.
pub open spec fn toward(a: int, b: int) -> int {
    if a < b {
        1
    } else {
        -1
    }
}

/// The distance between two coordinates.
pub open spec fn span(a: int, b: int) -> int {
    if a < b {
        b - a
    } else {
        a - b
    }
}

/// The greater of two numbers.
pub open spec fn larger(a: int, b: int) -> int {
    if a < b {
        b
    } else {
        a
    }
}

/// A picture with a line from `(x0, y0)` to `(x1, y1)`.
pub open spec fn line_screen(cv: Screen, x0: int, y0: int, x1: int, y1: int, c: Seq<u8>) -> Screen {
    line_trace(
        cv,
        x0,
        y0,
        x1,
        y1,
        span(x0, x1),
        span(y0, y1),
        toward(x0, x1),
        toward(y0, y1),
        span(x0, x1) - span(y0, y1),
        false,
        (larger(span(x0, x1), span(y0, y1)) + 1) as nat,
        c,
    )
}

/// A picture with a line from `(x0, y0)` to `(x1, y1)`, traced with the
/// inclusive rule.
pub open spec fn basic_line_screen(
    cv: Screen,
    x0: int,
    y0: int,
    x1: int,
    y1: int,
    c: Seq<u8>,
) -> Screen {
    line_trace(
        cv,
        x0,
        y0,
        x1,
        y1,
        span(x0, x1),
        span(y0, y1),
        toward(x0, x1),
        toward(y0, y1),
        span(x0, x1) - span(y0, y1),
        true,
        (span(x0, x1) + span(y0, y1) + 1) as nat,
        c,
    )
}

/// A picture with the first `n` pairs of lines of a thick line: pair `t` is
/// the line moved by `t - thickness / 2` along x, and the same along y.
pub open spec fn thick_line_screen(
    cv: Screen,
    x0: int,
    y0: int,
    x1: int,
    y1: int,
    c: Seq<u8>,
    thickness: int,
    n: nat,
) -> Screen
    decreases n,
{
    if n == 0 {
        cv
    } else {
        let offset = n - 1 - half_toward_zero(thickness);
        line_screen(
            line_screen(
                thick_line_screen(cv, x0, y0, x1, y1, c, thickness, (n - 1) as nat),
                x0 + offset,
                y0,
                x1 + offset,
                y1,
                c,
            ),
            x0,
            y0 + offset,
            x1,
            y1 + offset,
            c,
        )
    }
}

/// Half of `v`, rounded towards zero.
pub open spec fn half_toward_zero(v: int) -> int {
    if v >= 0 {
        v / 2
    } else {
        -((-v) / 2)
    }
}

/// The weight of layer `l` of a halo of `layers` layers: the base weight
/// less `l` equal shares of it.
pub open spec fn halo_alpha(base_alpha: u8, layers: u8, l: int) -> u8 {
    let share = base_alpha as int / (if layers < 1 {
        1
    } else {
        layers as int
    });
    (if base_alpha - l * share < 0 {
        0
    } else {
        base_alpha - l * share
    }) as u8
}

/// The rectangle of layer `l` of a halo, as `(x, y, width, height)`: the
/// rectangle grown by `step * (l + 1)` on every side, moved onto the screen
/// where it begins left of or above it, and cut off at the right and bottom
/// edges.
pub open spec fn halo_rect(x: int, y: int, w: int, h: int, step: int, l: int) -> (
    int,
    int,
    int,
    int,
) {
    let grow = step * (l + 1);
    let rx = if x - grow < 0 {
        0
    } else {
        x - grow
    };
    let ry = if y - grow < 0 {
        0
    } else {
        y - grow
    };
    let rw = if w + grow * 2 < 1024 - rx {
        w + grow * 2
    } else {
        1024 - rx
    };
    let rh = if h + grow * 2 < 576 - ry {
        h + grow * 2
    } else {
        576 - ry
    };
    (rx, ry, rw, rh)
}

/// A picture with the first `n` layers of a halo about a rectangle: each
/// layer blends the colour over its rectangle with its weight.
pub open spec fn halo(
    cv: Screen,
    x: int,
    y: int,
    w: int,
    h: int,
    c: Seq<u8>,
    base_alpha: u8,
    layers: u8,
    step: int,
    n: nat,
) -> Screen
    decreases n,
{
    if n == 0 {
        cv
    } else {
        let r = halo_rect(x, y, w, h, step, n - 1);
        glow_rect(
            halo(cv, x, y, w, h, c, base_alpha, layers, step, (n - 1) as nat),
            r.0,
            r.1,
            r.2,
            r.3,
            c,
            halo_alpha(base_alpha, layers, n - 1),
        )
    }
}

/// Setting a pixel changes that pixel and nothing else.
pub proof fn lemma_plot(frame: Seq<u8>, k: int, c: Seq<u8>)
    requires
        0 <= k < pixel_count(),
        frame.len() >= frame_bytes(),
    ensures
        pixel_of(plot(frame, k, c), k) == opaque(c),
        forall|j: int|
            0 <= j < pixel_count() && j != k ==> #[trigger] pixel_of(plot(frame, k, c), j)
                == pixel_of(frame, j),
        same_tail(plot(frame, k, c), frame),
        screen(plot(frame, k, c)) == screen(frame).update(k, opaque(c)),
{
    assert(screen(plot(frame, k, c)) =~= screen(frame).update(k, opaque(c)));
}

/// Tinting a pixel changes that pixel and nothing else.
pub proof fn lemma_tint(frame: Seq<u8>, k: int, p: Rgba)
    requires
        0 <= k < pixel_count(),
        frame.len() >= frame_bytes(),
    ensures
        pixel_of(tint(frame, k, p), k) == (Rgba { a: frame[4 * k + 3], ..p }),
        forall|j: int|
            0 <= j < pixel_count() && j != k ==> #[trigger] pixel_of(tint(frame, k, p), j)
                == pixel_of(frame, j),
        same_tail(tint(frame, k, p), frame),
        screen(tint(frame, k, p)) == screen(frame).update(
            k,
            Rgba { a: frame[4 * k + 3], ..p },
        ),
{
    assert(screen(tint(frame, k, p)) =~= screen(frame).update(
        k,
        Rgba { a: frame[4 * k + 3], ..p },
    ));
}

/// A buffer is determined by the picture it holds and by what lies beyond
/// its pixels.
pub proof fn lemma_frame_determined(a: Seq<u8>, b: Seq<u8>)
    requires
        a.len() >= frame_bytes(),
        screen(a) == screen(b),
        same_tail(a, b),
    ensures
        a == b,
{
    assert forall|i: int| 0 <= i < a.len() implies a[i] == b[i] by {
        if i < frame_bytes() {
            let k = i / 4;
            assert(0 <= k < pixel_count());
            assert(screen(a)[k] == pixel_of(a, k));
            assert(screen(b)[k] == pixel_of(b, k));
            assert(pixel_of(a, k) == pixel_of(b, k));
            assert(i == 4 * k || i == 4 * k + 1 || i == 4 * k + 2 || i == 4 * k + 3);
        }
    }
    assert(a =~= b);
}

} // verus!
