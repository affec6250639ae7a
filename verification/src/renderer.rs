//! Drawing the maze's walls and its sprites into a frame of any size.

use vstd::prelude::*;
use crate::fixed::{
    ONE, clamp_int, div_trunc, floor_div, floor_of, is_sqrt, isqrt, lemma_div_bounds,
    lemma_div_monotone, mag,
};
use crate::framebuffer::{Color, Framebuffer};
use crate::dda::{cast, cast_spec, Ray};
use crate::fixed::div_trunc_i64;
use crate::map::TileMap;
use crate::maze::{paint_color, wall_cell, wall_cell_of, Paint};
use crate::player::{wrap_angle, wrap_half, Player, PI};
use crate::texture::{Image, TextureKey, TextureManager};

verus! {

/// How far beyond the edge of the field of view a sprite is still drawn
/// (half a radian).
pub const CULL_MARGIN: i64 = 32768;

/// The least distance to a sprite that the projection works with.
pub const NEAR_SPRITE: i64 = 65;

/// A texel is drawn only where its alpha is above this.
pub const ALPHA_CUTOFF: u8 = 5;

/// The greatest distance to the projection plane.
pub const MAX_PLANE: i64 = 0x8000_0000;

/// The greatest side of a cell.
pub const MAX_BLOCK: usize = 32767;

/// The square root of `n`, rounded down.
pub open spec fn floor_sqrt(n: int) -> int {
    choose|r: int| is_sqrt(n, r)
}

/// A number has one square root rounded down.
pub proof fn lemma_sqrt_unique(n: int, r: int)
    requires
        is_sqrt(n, r),
    ensures
        floor_sqrt(n) == r,
{
    let s = floor_sqrt(n);
    assert(is_sqrt(n, s));
    if s < r {
        assert((s + 1) * (s + 1) <= r * r) by (nonlinear_arith)
            requires
                0 <= s,
                s + 1 <= r,
        ;
    } else if r < s {
        assert((r + 1) * (r + 1) <= s * s) by (nonlinear_arith)
            requires
                0 <= r,
                r + 1 <= s,
        ;
    }
}

/// Whether a sprite at the relative angle `rel` is left out: it lies more
/// than [`CULL_MARGIN`] beyond half the field of view.
pub open spec fn is_culled(rel: int, fov: int) -> bool {
    2 * mag(rel) > fov + 2 * CULL_MARGIN
}

/// The distance to a sprite that lies `(dx, dy)` from the camera: the
/// length of that vector, and at least [`NEAR_SPRITE`].
pub open spec fn sprite_distance(dx: int, dy: int) -> int {
    let d = floor_sqrt(dx * dx + dy * dy);
    if d < NEAR_SPRITE {
        NEAR_SPRITE as int
    } else {
        d
    }
}

/// Where on the frame a sprite is drawn.
pub struct Billboard {
    /// The first column.
    pub left: int,
    /// The first row.
    pub top: int,
    /// The number of columns.
    pub cols: int,
    /// The number of rows.
    pub rows: int,
    /// The projected width, in fixed point.
    pub width: int,
    /// The projected height, in fixed point.
    pub height: int,
    /// The distance to the sprite.
    pub dist: int,
}

/// `v`, and `i32::MAX` where `v` is greater.
pub open spec fn cap(v: int) -> int {
    if v > i32::MAX {
        i32::MAX as int
    } else {
        v
    }
}

/// The rectangle of a sprite: its height is the cell's side over the
/// distance, times the distance to the projection plane, times 1.2; its
/// width keeps the image's proportions; it is centred on the horizon, at
/// the column `(1/2 + rel / fov)` of the frame's width.
pub open spec fn billboard(
    fw: int,
    fh: int,
    dist: int,
    rel: int,
    fov: int,
    plane: int,
    block: int,
    tw: int,
    th: int,
) -> Billboard {
    let height = (block * ONE * plane * 12) / (dist * 10);
    let width = height * tw / th;
    let center = (fw * ONE) / 2 + div_trunc(rel * fw * ONE, fov);
    Billboard {
        left: floor_of(center - width / 2),
        top: floor_of((fh * ONE) / 2 - height / 2),
        cols: cap(width / (ONE as int)),
        rows: cap(height / (ONE as int)),
        width,
        height,
        dist,
    }
}

/// The image's column under column `sx` of a sprite's rectangle.
pub open spec fn texel_col(bb: Billboard, tw: int, sx: int) -> int {
    let t = sx * ONE * tw / bb.width;
    if t > tw - 1 {
        tw - 1
    } else {
        t
    }
}

/// The image's row under row `sy` of a sprite's rectangle.
pub open spec fn texel_row(bb: Billboard, th: int, sy: int) -> int {
    let t = sy * ONE * th / bb.height;
    if t > th - 1 {
        th - 1
    } else {
        t
    }
}

/// One channel darkened with distance: at `half` world units, half as
/// bright.
pub open spec fn fade_by(c: int, dist: int, half: int) -> int {
    c * (half * ONE) / (dist + half * ONE)
}

/// One channel of a sprite darkened with distance: at 100 world units, half
/// as bright.
pub open spec fn fade(c: int, dist: int) -> int {
    fade_by(c, dist, 100)
}

/// A texel darkened with distance, opaque.
pub open spec fn faded(texel: Color, dist: int) -> Color {
    Color {
        r: fade(texel.r as int, dist) as u8,
        g: fade(texel.g as int, dist) as u8,
        b: fade(texel.b as int, dist) as u8,
        a: 255,
    }
}

/// The paint that stands for an image that is missing: the walls' plain
/// paints for their images, red for an enemy, gold for a chest, blue for
/// the player and purple for a worker.
pub open spec fn fallback_paint(key: TextureKey) -> Paint {
    match key {
        TextureKey::Caja2 => Paint::Gray,
        TextureKey::Caja3 => Paint::Brown,
        TextureKey::Caja4 => Paint::Purple,
        TextureKey::Caja5 => Paint::DarkGray,
        TextureKey::Tuveria1 => Paint::DarkGreen,
        TextureKey::Tuveria2 => Paint::DarkGreen,
        TextureKey::Enemy => Paint::Red,
        TextureKey::Chest => Paint::Gold,
        TextureKey::Player => Paint::Blue,
        TextureKey::Worker => Paint::Purple,
    }
}

/// The width of what a sprite is drawn with: that of its image, and 1 for
/// the flat colour that stands for a missing image, which is drawn as a
/// square.
pub open spec fn skin_width(img: Option<Image>) -> int {
    match img {
        Some(i) => i.width as int,
        None => 1,
    }
}

/// The height of what a sprite is drawn with.
pub open spec fn skin_height(img: Option<Image>) -> int {
    match img {
        Some(i) => i.height as int,
        None => 1,
    }
}

/// The colour of a sprite under the point `(sx, sy)` of its rectangle: the
/// texel of its image, and the flat colour of its key where the image is
/// missing.
pub open spec fn skin_texel(
    img: Option<Image>,
    key: TextureKey,
    bb: Billboard,
    sx: int,
    sy: int,
) -> Color {
    match img {
        Some(i) => i.texel(texel_col(bb, i.width as int, sx), texel_row(bb, i.height as int, sy)),
        None => paint_color(fallback_paint(key)),
    }
}

/// The colour that a sprite writes at `(x, y)`, if it writes one: inside
/// its rectangle the colour under that pixel, darkened with distance,
/// unless it is nearly transparent.
pub open spec fn sprite_ink(
    img: Option<Image>,
    key: TextureKey,
    bb: Billboard,
    x: int,
    y: int,
) -> Option<Color> {
    let sx = x - bb.left;
    let sy = y - bb.top;
    if 0 <= sx < bb.cols && 0 <= sy < bb.rows {
        let texel = skin_texel(img, key, bb, sx, sy);
        if texel.a > ALPHA_CUTOFF {
            Some(faded(texel, bb.dist))
        } else {
            None
        }
    } else {
        None
    }
}

/// The colour at `(x, y)` after a sprite was drawn over `under`.
pub open spec fn sprite_pixel(
    under: Color,
    img: Option<Image>,
    key: TextureKey,
    bb: Billboard,
    x: int,
    y: int,
) -> Color {
    match sprite_ink(img, key, bb, x, y) {
        Some(c) => c,
        None => under,
    }
}

/// The pen after the first `n` pixels of row `y` were passed: the colour
/// written last, and `pen` where none was written.
pub open spec fn pen_after_row(
    pen: Color,
    img: Option<Image>,
    key: TextureKey,
    bb: Billboard,
    y: int,
    n: nat,
) -> Color
    decreases n,
{
    if n == 0 {
        pen
    } else {
        match sprite_ink(img, key, bb, n - 1, y) {
            Some(c) => c,
            None => pen_after_row(pen, img, key, bb, y, (n - 1) as nat),
        }
    }
}

/// The pen after the first `m` rows of a frame `fw` pixels wide were
/// passed, row by row and from left to right.
pub open spec fn pen_after_rows(
    pen: Color,
    img: Option<Image>,
    key: TextureKey,
    bb: Billboard,
    fw: nat,
    m: nat,
) -> Color
    decreases m,
{
    if m == 0 {
        pen
    } else {
        pen_after_row(pen_after_rows(pen, img, key, bb, fw, (m - 1) as nat), img, key, bb, m - 1, fw)
    }
}

/// The distance to the projection plane that the projection works with:
/// the given one, held within `[0, MAX_PLANE]`.
pub open spec fn held_plane(plane: int) -> int {
    clamp_int(plane, 0, MAX_PLANE as int)
}

/// The side of a cell that the projection works with: the given one, and
/// [`MAX_BLOCK`] where it is greater.
pub open spec fn held_block(block: int) -> int {
    if block > MAX_BLOCK {
        MAX_BLOCK as int
    } else {
        block
    }
}

/// Where the sprite at `(sprite_x, sprite_y)` is drawn for a player who
/// sees it under the angle `bearing`; `None` where it is left out.
pub open spec fn sprite_view(
    fw: int,
    fh: int,
    sprite_x: int,
    sprite_y: int,
    player: Player,
    bearing: int,
    plane: int,
    block: int,
    img: Option<Image>,
) -> Option<Billboard> {
    let rel = wrap_half(bearing - player.a);
    if is_culled(rel, player.fov as int) {
        None
    } else {
        Some(
            billboard(
                fw,
                fh,
                sprite_distance(sprite_x - player.x, sprite_y - player.y),
                rel,
                player.fov as int,
                held_plane(plane),
                held_block(block),
                skin_width(img),
                skin_height(img),
            ),
        )
    }
}

/// A sprite writes no pixel of the frame outside its rectangle.
pub proof fn lemma_no_ink_outside(
    img: Option<Image>,
    key: TextureKey,
    bb: Billboard,
    fw: int,
    fh: int,
    x: int,
    y: int,
)
    requires
        0 <= x < fw,
        0 <= y < fh,
        0 <= bb.cols,
        0 <= bb.rows,
        !(clamp_int(bb.left, 0, fw) <= x < clamp_int(bb.left + bb.cols, 0, fw) && clamp_int(
            bb.top,
            0,
            fh,
        ) <= y < clamp_int(bb.top + bb.rows, 0, fh)),
    ensures
        sprite_ink(img, key, bb, x, y) is None,
        forall|under: Color| #[trigger] sprite_pixel(under, img, key, bb, x, y) == under,
{
}

/// Where no pixel of a stretch of a row is written, the pen passes the
/// stretch as it is.
pub proof fn lemma_pen_passes(
    pen: Color,
    img: Option<Image>,
    key: TextureKey,
    bb: Billboard,
    y: int,
    from: nat,
    to: nat,
)
    requires
        from <= to,
        forall|x: int| from <= x < to ==> #[trigger] sprite_ink(img, key, bb, x, y) is None,
    ensures
        pen_after_row(pen, img, key, bb, y, to) == pen_after_row(pen, img, key, bb, y, from),
    decreases to,
{
    if to > from {
        assert(sprite_ink(img, key, bb, to - 1, y) is None);
        lemma_pen_passes(pen, img, key, bb, y, from, (to - 1) as nat);
    }
}

/// Where no pixel of a stretch of rows is written, the pen passes the rows
/// as it is.
pub proof fn lemma_pen_passes_rows(
    pen: Color,
    img: Option<Image>,
    key: TextureKey,
    bb: Billboard,
    fw: nat,
    from: nat,
    to: nat,
)
    requires
        from <= to,
        forall|x: int, y: int|
            0 <= x < fw && from <= y < to ==> #[trigger] sprite_ink(img, key, bb, x, y) is None,
    ensures
        pen_after_rows(pen, img, key, bb, fw, to) == pen_after_rows(pen, img, key, bb, fw, from),
    decreases to,
{
    if to > from {
        lemma_pen_passes_rows(pen, img, key, bb, fw, from, (to - 1) as nat);
        let before = pen_after_rows(pen, img, key, bb, fw, (to - 1) as nat);
        assert forall|x: int| 0 <= x < fw implies #[trigger] sprite_ink(
            img,
            key,
            bb,
            x,
            to - 1,
        ) is None by {}
        lemma_pen_passes(before, img, key, bb, to - 1, 0, fw);
    }
}

/// A sprite's rectangle as it is computed.
pub struct Projection {
    pub left: i128,
    pub top: i128,
    pub cols: i32,
    pub rows: i32,
    pub width: i128,
    pub height: i128,
    pub dist: i64,
}

impl View for Projection {
    type V = Billboard;

    open spec fn view(&self) -> Billboard {
        Billboard {
            left: self.left as int,
            top: self.top as int,
            cols: self.cols as int,
            rows: self.rows as int,
            width: self.width as int,
            height: self.height as int,
            dist: self.dist as int,
        }
    }
}

/// The relative angle of a sprite seen under `bearing` by a player who
/// heads for `heading`.
pub fn relative_angle(bearing: i32, heading: i32) -> (rel: i32)
    ensures
        rel == wrap_half(bearing - heading),
        -PI <= rel <= PI,
{
    wrap_angle(bearing as i64 - heading as i64)
}

/// The distance to a sprite that lies `(dx, dy)` from the camera.
pub fn distance_to(dx: i64, dy: i64) -> (d: i64)
    requires
        -0x1_0000_0000 <= dx <= 0x1_0000_0000,
        -0x1_0000_0000 <= dy <= 0x1_0000_0000,
    ensures
        d == sprite_distance(dx as int, dy as int),
        NEAR_SPRITE <= d < 0x2_0000_0000,
{
    assert(0 <= dx * dx <= 0x1_0000_0000 * 0x1_0000_0000) by (nonlinear_arith)
        requires
            -0x1_0000_0000 <= dx <= 0x1_0000_0000,
    ;
    assert(0 <= dy * dy <= 0x1_0000_0000 * 0x1_0000_0000) by (nonlinear_arith)
        requires
            -0x1_0000_0000 <= dy <= 0x1_0000_0000,
    ;
    let n: u128 = ((dx as i128) * (dx as i128) + (dy as i128) * (dy as i128)) as u128;
    let r: u64 = isqrt(n);
    proof {
        lemma_sqrt_unique(n as int, r as int);
    }
    if (r as i64) < NEAR_SPRITE {
        NEAR_SPRITE
    } else {
        r as i64
    }
}

/// The rectangle of a sprite.
pub fn project(
    fw: i32,
    fh: i32,
    dist: i64,
    rel: i32,
    fov: i32,
    plane: i64,
    block: usize,
    tw: i32,
    th: i32,
) -> (p: Projection)
    requires
        0 <= fw,
        0 <= fh,
        NEAR_SPRITE <= dist < 0x2_0000_0000,
        -PI <= rel <= PI,
        0 < fov,
        0 <= plane <= MAX_PLANE,
        block <= MAX_BLOCK,
        0 < tw,
        0 < th,
    ensures
        p@ == billboard(
            fw as int,
            fh as int,
            dist as int,
            rel as int,
            fov as int,
            plane as int,
            block as int,
            tw as int,
            th as int,
        ),
        0 <= p.rows,
        0 <= p.cols,
        0 <= p.height < 0x200_0000_0000_0000,
        0 <= p.width < 0x1_0000_0000_0000_0000_0000_0000,
        p.rows > 0 ==> p.height >= ONE,
        p.cols > 0 ==> p.width >= ONE,
        -0x1_0000_0000_0000_0000_0000_0000 <= p.left <= 0x1_0000_0000_0000_0000_0000_0000,
        -0x1_0000_0000_0000_0000_0000_0000 <= p.top <= 0x1_0000_0000_0000_0000_0000_0000,
{
    assert(0 <= block * ONE * plane * 12 <= 32767 * 65536 * 0x8000_0000 * 12) by (nonlinear_arith)
        requires
            0 <= block <= 32767,
            0 <= plane <= 0x8000_0000,
    ;
    assert(0 <= block * ONE <= 32767 * 65536) by (nonlinear_arith)
        requires
            0 <= block <= 32767,
    ;
    assert(0 <= (block * ONE) * plane <= 32767 * 65536 * 0x8000_0000) by (nonlinear_arith)
        requires
            0 <= block * ONE <= 32767 * 65536,
            0 <= plane <= 0x8000_0000,
    ;
    let num: i128 = (block as i128) * (ONE as i128) * (plane as i128) * 12;
    let den: i128 = (dist as i128) * 10;
    proof {
        lemma_div_bounds(num as int, den as int);
        vstd::arithmetic::div_mod::lemma_div_is_ordered_by_denominator(num as int, 650, den as int);
    }
    let height: i128 = num / den;
    assert(0 <= height * tw <= 0x200_0000_0000_0000 * 0x8000_0000) by (nonlinear_arith)
        requires
            0 <= height < 0x200_0000_0000_0000,
            0 < tw < 0x8000_0000,
    ;
    proof {
        lemma_div_bounds(height * tw, th as int);
    }
    let width: i128 = height * (tw as i128) / (th as i128);
    assert(-0x4_0000_0000_0000_0000 <= rel * fw * ONE <= 0x4_0000_0000_0000_0000)
        by (nonlinear_arith)
        requires
            -205887 <= rel <= 205887,
            0 <= fw < 0x8000_0000,
    ;
    assert(-0x4_0000 * 0x8000_0000 <= rel * fw <= 0x4_0000 * 0x8000_0000) by (nonlinear_arith)
        requires
            -205887 <= rel <= 205887,
            0 <= fw < 0x8000_0000,
    ;
    let swing: i128 = (rel as i128) * (fw as i128) * (ONE as i128);
    let mswing: i128 = if swing < 0 {
        -swing
    } else {
        swing
    };
    proof {
        lemma_div_bounds(mswing as int, fov as int);
    }
    let mq: i128 = mswing / (fov as i128);
    let shift: i128 = if swing >= 0 {
        mq
    } else {
        -mq
    };
    assert(shift == div_trunc(rel * fw * ONE, fov as int));
    let center: i128 = ((fw as i128) * (ONE as i128)) / 2 + shift;
    let left: i128 = floor_div(center - width / 2, ONE as i128);
    let top: i128 = floor_div(((fh as i128) * (ONE as i128)) / 2 - height / 2, ONE as i128);
    let whole_cols: i128 = width / (ONE as i128);
    let whole_rows: i128 = height / (ONE as i128);
    let cols: i32 = if whole_cols > i32::MAX as i128 {
        i32::MAX
    } else {
        whole_cols as i32
    };
    let rows: i32 = if whole_rows > i32::MAX as i128 {
        i32::MAX
    } else {
        whole_rows as i32
    };
    Projection { left, top, cols, rows, width, height, dist }
}

/// One channel darkened with distance, half as bright at `half` units.
fn fade_channel_by(c: u8, dist: i64, half: i64) -> (v: u8)
    requires
        0 <= dist,
        0 < half <= 1000,
    ensures
        v == fade_by(c as int, dist as int, half as int),
        v <= c,
{
    let scale: i64 = half * ONE;
    assert(0 <= c * scale <= c * (dist + scale)) by (nonlinear_arith)
        requires
            0 <= c <= 255,
            0 <= dist,
            0 < scale,
    ;
    assert(0 <= c * scale <= 255 * 1000 * 65536) by (nonlinear_arith)
        requires
            0 <= c <= 255,
            0 < scale <= 1000 * 65536,
    ;
    proof {
        lemma_div_monotone(c * scale, c * (dist + scale), dist + scale);
        lemma_div_monotone(0, c * scale, dist + scale);
        vstd::arithmetic::div_mod::lemma_div_multiples_vanish(c as int, dist + scale);
        vstd::arithmetic::div_mod::lemma_div_basics(dist + scale);
    }
    let den: i128 = dist as i128 + scale as i128;
    ((c as i128 * scale as i128) / den) as u8
}

/// One channel of a sprite darkened with distance.
fn fade_channel(c: u8, dist: i64) -> (v: u8)
    requires
        0 <= dist,
    ensures
        v == fade(c as int, dist as int),
{
    fade_channel_by(c, dist, 100)
}

/// `v` held within `[0, limit]`.
fn clamp_to(v: i128, limit: i32) -> (c: i32)
    requires
        0 <= limit,
    ensures
        c == clamp_int(v as int, 0, limit as int),
{
    if v < 0 {
        0
    } else if v > limit as i128 {
        limit
    } else {
        v as i32
    }
}

/// The image's row or column under a row or column of the rectangle.
fn texel_index(s: i128, size: i32, extent: i128) -> (t: i32)
    requires
        0 <= s < 0x8000_0000,
        0 < size,
        ONE <= extent,
    ensures
        t == (if s * ONE * size / (extent as int) > size - 1 {
            size - 1
        } else {
            s * ONE * size / (extent as int)
        }),
        0 <= t < size,
{
    assert(0 <= s * ONE * size <= 0x8000_0000 * 65536 * 0x8000_0000) by (nonlinear_arith)
        requires
            0 <= s < 0x8000_0000,
            0 < size < 0x8000_0000,
            ONE == 65536,
    ;
    assert(0 <= s * ONE <= 0x8000_0000 * 65536) by (nonlinear_arith)
        requires
            0 <= s < 0x8000_0000,
            ONE == 65536,
    ;
    proof {
        lemma_div_bounds(s * ONE * size, extent as int);
    }
    let t: i128 = s * (ONE as i128) * (size as i128) / extent;
    if t > (size - 1) as i128 {
        size - 1
    } else {
        t as i32
    }
}

/// The paint that stands for a missing image.
pub fn fallback_of(key: TextureKey) -> (paint: Paint)
    ensures
        paint == fallback_paint(key),
{
    match key {
        TextureKey::Caja2 => Paint::Gray,
        TextureKey::Caja3 => Paint::Brown,
        TextureKey::Caja4 => Paint::Purple,
        TextureKey::Caja5 => Paint::DarkGray,
        TextureKey::Tuveria1 => Paint::DarkGreen,
        TextureKey::Tuveria2 => Paint::DarkGreen,
        TextureKey::Enemy => Paint::Red,
        TextureKey::Chest => Paint::Gold,
        TextureKey::Player => Paint::Blue,
        TextureKey::Worker => Paint::Purple,
    }
}

/// The colour of a sprite under one point of its rectangle.
fn skin_texel_of(
    found: Option<&Image>,
    flat: Color,
    p: &Projection,
    sx: i128,
    ty: i32,
    key: TextureKey,
    sy: i128,
) -> (c: Color)
    requires
        found matches Some(img) ==> img.wf() && 0 <= ty < img.height && ty == texel_row(
            p@,
            img.height as int,
            sy as int,
        ),
        flat == paint_color(fallback_paint(key)),
        0 <= sx < 0x8000_0000,
        ONE <= p.width,
    ensures
        c == skin_texel(
            match found {
                Some(img) => Some(*img),
                None => None,
            },
            key,
            p@,
            sx as int,
            sy as int,
        ),
{
    match found {
        Some(img) => {
            let tx: i32 = texel_index(sx, img.width, p.width);
            proof {
                assert(0 <= ty * img.width + tx < img.width * img.height) by (nonlinear_arith)
                    requires
                        0 <= tx < img.width,
                        0 <= ty < img.height,
                ;
                assert(0 <= ty * img.width) by (nonlinear_arith)
                    requires
                        0 <= ty,
                        0 < img.width,
                ;
            }
            let n: usize = img.data.len();
            img.data[(ty as usize) * (img.width as usize) + (tx as usize)]
        },
        None => flat,
    }
}

/// Draws the sprite at `(sprite_x, sprite_y)` as a rectangle that faces the
/// player, with the image under `key`.
///
/// `bearing` is the angle under which the player sees the sprite, and
/// `plane_dist` the distance to the projection plane. Where no image is
/// loaded under `key`, the sprite is drawn as a square in the flat colour
/// of its key, darkened with distance as texels are. Nothing is drawn where
/// the sprite lies more than [`CULL_MARGIN`] beyond half the field of view.
/// The pen is left at the colour written last.
#[verifier::rlimit(60)]
pub fn draw_sprite_billboard(
    framebuffer: &mut Framebuffer,
    sprite_x: i32,
    sprite_y: i32,
    player: &Player,
    bearing: i32,
    plane_dist: i64,
    block_size: usize,
    textures: &TextureManager,
    key: TextureKey,
)
    requires
        old(framebuffer).wf(),
        textures.wf(),
        0 < player.fov,
    ensures
        final(framebuffer).wf(),
        final(framebuffer).width == old(framebuffer).width,
        final(framebuffer).height == old(framebuffer).height,
        final(framebuffer).background_color == old(framebuffer).background_color,
        match sprite_view(
            old(framebuffer).width as int,
            old(framebuffer).height as int,
            sprite_x as int,
            sprite_y as int,
            *player,
            bearing as int,
            plane_dist as int,
            block_size as int,
            textures.image(key),
        ) {
            None => *final(framebuffer) == *old(framebuffer),
            Some(bb) => {
                &&& forall|x: int, y: int|
                    old(framebuffer).holds(x, y) ==> #[trigger] final(framebuffer).at(x, y)
                        == sprite_pixel(old(framebuffer).at(x, y), textures.image(key), key, bb, x, y)
                &&& final(framebuffer).current_color == pen_after_rows(
                    old(framebuffer).current_color,
                    textures.image(key),
                    key,
                    bb,
                    old(framebuffer).width as nat,
                    old(framebuffer).height as nat,
                )
            },
        },
{
    let rel: i32 = relative_angle(bearing, player.a);
    let mrel: i64 = if rel < 0 {
        -(rel as i64)
    } else {
        rel as i64
    };
    if 2 * mrel > player.fov as i64 + 2 * CULL_MARGIN {
        return ;
    }
    let found: Option<&Image> = textures.get(key);
    let ghost img: Option<Image> = textures.image(key);
    let flat: Color = fallback_of(key).color();
    let dist: i64 = distance_to(
        sprite_x as i64 - player.x as i64,
        sprite_y as i64 - player.y as i64,
    );
    let plane: i64 = if plane_dist < 0 {
        0
    } else if plane_dist > MAX_PLANE {
        MAX_PLANE
    } else {
        plane_dist
    };
    let block: usize = if block_size > MAX_BLOCK {
        MAX_BLOCK
    } else {
        block_size
    };
    let (tw, th) = match found {
        Some(i) => (i.width, i.height),
        None => (1, 1),
    };
    let fw: i32 = framebuffer.width;
    let fh: i32 = framebuffer.height;
    let p: Projection = project(fw, fh, dist, rel, player.fov, plane, block, tw, th);
    let ghost bb = p@;
    let ghost pen0 = framebuffer.current_color;
    let y_lo: i32 = clamp_to(p.top, fh);
    let y_hi: i32 = clamp_to(p.top + p.rows as i128, fh);
    let x_lo: i32 = clamp_to(p.left, fw);
    let x_hi: i32 = clamp_to(p.left + p.cols as i128, fw);
    proof {
        assert forall|x: int, y: int| 0 <= x < fw && 0 <= y < y_lo implies #[trigger] sprite_ink(
            img,
            key,
            bb,
            x,
            y,
        ) is None by {
            lemma_no_ink_outside(img, key, bb, fw as int, fh as int, x, y);
        }
        lemma_pen_passes_rows(pen0, img, key, bb, fw as nat, 0, y_lo as nat);
    }
    let mut y: i32 = y_lo;
    while y < y_hi
        invariant
            y_lo <= y <= y_hi,
            0 <= y_lo <= y_hi <= fh,
            0 <= x_lo <= x_hi <= fw,
            y_lo == clamp_int(p.top as int, 0, fh as int),
            y_hi == clamp_int(p.top + p.rows, 0, fh as int),
            x_lo == clamp_int(p.left as int, 0, fw as int),
            x_hi == clamp_int(p.left + p.cols, 0, fw as int),
            bb == p@,
            img == textures.image(key),
            found is Some <==> img is Some,
            found matches Some(i) ==> img == Some(*i) && i.wf(),
            flat == paint_color(fallback_paint(key)),
            th == skin_height(img),
            0 <= p.rows,
            0 <= p.cols,
            0 <= p.height,
            0 <= p.width,
            p.rows > 0 ==> p.height >= ONE,
            p.cols > 0 ==> p.width >= ONE,
            0 <= p.dist < 0x2_0000_0000,
            framebuffer.wf(),
            framebuffer.width == fw,
            framebuffer.height == fh,
            old(framebuffer).width == fw,
            old(framebuffer).height == fh,
            pen0 == old(framebuffer).current_color,
            framebuffer.background_color == old(framebuffer).background_color,
            framebuffer.current_color == pen_after_rows(pen0, img, key, bb, fw as nat, y as nat),
            forall|px: int, py: int|
                old(framebuffer).holds(px, py) ==> #[trigger] framebuffer.at(px, py) == (if y_lo
                    <= py < y && x_lo <= px < x_hi {
                    sprite_pixel(old(framebuffer).at(px, py), img, key, bb, px, py)
                } else {
                    old(framebuffer).at(px, py)
                }),
        decreases y_hi - y,
    {
        let sy: i128 = y as i128 - p.top;
        let ty: i32 = match found {
            Some(i) => texel_index(sy, i.height, p.height),
            None => 0,
        };
        let ghost row_pen = framebuffer.current_color;
        proof {
            assert forall|x: int| 0 <= x < x_lo implies #[trigger] sprite_ink(
                img,
                key,
                bb,
                x,
                y as int,
            ) is None by {
                lemma_no_ink_outside(img, key, bb, fw as int, fh as int, x, y as int);
            }
            lemma_pen_passes(row_pen, img, key, bb, y as int, 0, x_lo as nat);
        }
        let mut x: i32 = x_lo;
        while x < x_hi
            invariant
                y_lo <= y < y_hi,
                x_lo <= x <= x_hi,
                0 <= y_lo <= y_hi <= fh,
                0 <= x_lo <= x_hi <= fw,
                y_lo == clamp_int(p.top as int, 0, fh as int),
                y_hi == clamp_int(p.top + p.rows, 0, fh as int),
                x_lo == clamp_int(p.left as int, 0, fw as int),
                x_hi == clamp_int(p.left + p.cols, 0, fw as int),
                bb == p@,
                img == textures.image(key),
                found is Some <==> img is Some,
                found matches Some(i) ==> img == Some(*i) && i.wf() && 0 <= ty < i.height && ty
                    == texel_row(bb, i.height as int, sy as int),
                flat == paint_color(fallback_paint(key)),
                sy == y - p.top,
                0 <= p.rows,
                0 <= p.cols,
                0 <= p.width,
                p.cols > 0 ==> p.width >= ONE,
                0 <= p.dist < 0x2_0000_0000,
                framebuffer.wf(),
                framebuffer.width == fw,
                framebuffer.height == fh,
                old(framebuffer).width == fw,
                old(framebuffer).height == fh,
                framebuffer.background_color == old(framebuffer).background_color,
                framebuffer.current_color == pen_after_row(
                    row_pen,
                    img,
                    key,
                    bb,
                    y as int,
                    x as nat,
                ),
                forall|px: int, py: int|
                    old(framebuffer).holds(px, py) ==> #[trigger] framebuffer.at(px, py) == (if (
                    y_lo <= py < y && x_lo <= px < x_hi) || (py == y && x_lo <= px < x) {
                        sprite_pixel(old(framebuffer).at(px, py), img, key, bb, px, py)
                    } else {
                        old(framebuffer).at(px, py)
                    }),
            decreases x_hi - x,
        {
            let texel: Color = skin_texel_of(found, flat, &p, x as i128 - p.left, ty, key, sy);
            if texel.a > ALPHA_CUTOFF {
                let c: Color = Color::new(
                    fade_channel(texel.r, p.dist),
                    fade_channel(texel.g, p.dist),
                    fade_channel(texel.b, p.dist),
                    255,
                );
                framebuffer.plot(x, y, c);
            }
            x = x + 1;
        }
        proof {
            assert forall|c: int| x_hi <= c < fw implies #[trigger] sprite_ink(
                img,
                key,
                bb,
                c,
                y as int,
            ) is None by {
                lemma_no_ink_outside(img, key, bb, fw as int, fh as int, c, y as int);
            }
            lemma_pen_passes(row_pen, img, key, bb, y as int, x_hi as nat, fw as nat);
        }
        y = y + 1;
    }
    proof {
        assert forall|x: int, y: int| 0 <= x < fw && y_hi <= y < fh implies #[trigger] sprite_ink(
            img,
            key,
            bb,
            x,
            y,
        ) is None by {
            lemma_no_ink_outside(img, key, bb, fw as int, fh as int, x, y);
        }
        lemma_pen_passes_rows(pen0, img, key, bb, fw as nat, y_hi as nat, fh as nat);
        assert forall|x: int, y: int| old(framebuffer).holds(x, y) implies #[trigger] framebuffer.at(
            x,
            y,
        ) == sprite_pixel(old(framebuffer).at(x, y), img, key, bb, x, y) by {
            if !(y_lo <= y < y_hi && x_lo <= x < x_hi) {
                lemma_no_ink_outside(img, key, bb, fw as int, fh as int, x, y);
            }
        }
    }
}

/// A sprite whose relative angle is half the field of view and one radian
/// more is left out, whatever its image, its distance, the cell's side and
/// the distance to the projection plane.
pub proof fn lemma_sprite_far_aside_is_left_out(
    fw: int,
    fh: int,
    sprite_x: int,
    sprite_y: int,
    player: Player,
    bearing: int,
    plane: int,
    block: int,
    img: Option<Image>,
)
    requires
        0 < player.fov,
        mag(wrap_half(bearing - player.a)) == player.fov / 2 + ONE,
    ensures
        sprite_view(fw, fh, sprite_x, sprite_y, player, bearing, plane, block, img) is None,
{
}

/// A sprite whose relative angle lies more than the margin beyond half the
/// field of view is left out.
pub proof fn lemma_beyond_margin_is_culled(rel: int, fov: int)
    requires
        mag(rel) > fov / 2 + CULL_MARGIN,
    ensures
        is_culled(rel, fov),
{
}

/// Where a ray met a wall of the maze.
#[derive(Clone, Copy, Debug)]
pub struct Intersect {
    /// The distance to the wall, in fixed point.
    pub distance: i64,
    /// The character of the cell that was hit.
    pub impact: char,
    /// Where along the wall's face it was hit, as a fraction of `ONE`.
    pub offset: i32,
}

/// The number of columns that one ray is drawn over.
pub const RAY_STEP: i32 = 2;

/// The least distance to a wall that the projection works with.
pub const NEAR_WALL: i64 = 6553;

/// A coordinate in cells for one in world units, where a cell is `block`
/// units wide.
pub open spec fn in_cells(p: int, block: int) -> int {
    div_trunc(p, block)
}

/// What a ray from `(px, py)` meets in the maze whose walls `tiles` holds:
/// the distance in world units, the cell that was hit, and where along its
/// face.
pub open spec fn ray_hit(tiles: &TileMap, px: int, py: int, ray: Ray, block: int) -> Intersect {
    let hit = cast_spec(tiles, in_cells(px, block), in_cells(py, block), ray);
    Intersect {
        distance: (if hit.dist * block > i64::MAX {
            i64::MAX as int
        } else {
            hit.dist * block
        }) as i64,
        impact: wall_cell(hit.tile),
        offset: hit.u as i32,
    }
}

/// Casts a ray through the maze from the player's position.
pub fn cast_ray(tiles: &TileMap, player: &Player, ray: Ray, block_size: usize) -> (hit: Intersect)
    requires
        tiles.wf(),
        0 < block_size <= MAX_BLOCK,
    ensures
        hit == ray_hit(tiles, player.x as int, player.y as int, ray, block_size as int),
        hit.distance > 0,
        0 <= hit.offset < ONE,
{
    let block: i64 = block_size as i64;
    let px: i64 = div_trunc_i64(player.x as i64, block);
    let py: i64 = div_trunc_i64(player.y as i64, block);
    let found = cast(tiles, px as i32, py as i32, ray);
    assert(0 < found.dist * block <= 0x80_0000_0000_0000 * 32767) by (nonlinear_arith)
        requires
            0 < found.dist <= 0x80_0000_0000_0000,
            0 < block <= 32767,
    ;
    let wide: i128 = (found.dist as i128) * (block as i128);
    let distance: i64 = if wide > i64::MAX as i128 {
        i64::MAX
    } else {
        wide as i64
    };
    Intersect { distance, impact: wall_cell_of(found.tile), offset: found.u }
}

/// The greatest magnitude of a coordinate between which and another a line
/// of sight is tested.
pub const SIGHT_REACH: i32 = 0x4000_0000;

/// Whether a wall of the maze stands between the player and `(x, y)`: a ray
/// cast from the player along the whole way to `(x, y)` stops before it
/// has covered it.
pub open spec fn sight_blocked(
    tiles: &TileMap,
    px: int,
    py: int,
    x: int,
    y: int,
    block: int,
) -> bool {
    let ox = in_cells(px, block);
    let oy = in_cells(py, block);
    let way = Ray { dx: (in_cells(x, block) - ox) as i32, dy: (in_cells(y, block) - oy) as i32 };
    cast_spec(tiles, ox, oy, way).dist < ONE
}

/// Whether a wall of the maze stands between the player and `(x, y)`.
pub fn is_blocked_by_wall(
    tiles: &TileMap,
    player: &Player,
    x: i32,
    y: i32,
    block_size: usize,
) -> (blocked: bool)
    requires
        tiles.wf(),
        0 < block_size <= MAX_BLOCK,
        -SIGHT_REACH <= player.x <= SIGHT_REACH,
        -SIGHT_REACH <= player.y <= SIGHT_REACH,
        -SIGHT_REACH <= x <= SIGHT_REACH,
        -SIGHT_REACH <= y <= SIGHT_REACH,
    ensures
        blocked == sight_blocked(
            tiles,
            player.x as int,
            player.y as int,
            x as int,
            y as int,
            block_size as int,
        ),
{
    let block: i64 = block_size as i64;
    let ox: i64 = div_trunc_i64(player.x as i64, block);
    let oy: i64 = div_trunc_i64(player.y as i64, block);
    let tx: i64 = div_trunc_i64(x as i64, block);
    let ty: i64 = div_trunc_i64(y as i64, block);
    let way = Ray { dx: (tx - ox) as i32, dy: (ty - oy) as i32 };
    let found = cast(tiles, ox as i32, oy as i32, way);
    found.dist < ONE
}

/// The number of rays for a frame `width` pixels wide: one for every
/// [`RAY_STEP`] columns, and one more for what is left.
pub open spec fn ray_count_of(width: int) -> int {
    (width + 1) / 2
}

/// The number of rays for a frame `width` pixels wide.
pub fn ray_count(width: i32) -> (n: usize)
    requires
        0 <= width,
    ensures
        n == ray_count_of(width as int),
{
    ((width as i64 + 1) / 2) as usize
}

/// The angle of ray `i` of `n`, for a player who heads for `a` with the
/// field of view `fov`: the rays divide the field of view into equal steps
/// of angle, from `a - fov / 2` on.
pub open spec fn fan_angle(a: int, fov: int, i: int, n: int) -> int {
    a - fov / 2 + fov * i / n
}

/// The angle of ray `i` of `n`.
pub fn maze_ray_angle(a: i32, fov: i32, i: usize, n: usize) -> (angle: i64)
    requires
        i < n <= 0x4000_0000,
    ensures
        angle == fan_angle(a as int, fov as int, i as int, n as int),
{
    assert(-0x4000_0000 * 0x8000_0000 <= fov * i <= 0x4000_0000 * 0x8000_0000)
        by (nonlinear_arith)
        requires
            0 <= i < 0x4000_0000,
            -0x8000_0000 <= fov < 0x8000_0000,
    ;
    let half: i64 = floor_div(fov as i128, 2) as i64;
    let along: i64 = floor_div((fov as i64 * i as i64) as i128, n as i128) as i64;
    a as i64 - half + along
}

/// The image that a cell's walls are drawn with.
pub open spec fn wall_key_of(impact: char) -> TextureKey {
    if impact == 'L' {
        TextureKey::Caja3
    } else if impact == '$' {
        TextureKey::Caja5
    } else if impact == 'M' {
        TextureKey::Caja4
    } else if impact == 'T' {
        TextureKey::Tuveria1
    } else if impact == 'P' {
        TextureKey::Tuveria2
    } else {
        TextureKey::Caja2
    }
}

/// The paint that a cell's walls are drawn with where their image is
/// missing.
pub open spec fn plain_wall_of(impact: char) -> Paint {
    if impact == '#' {
        Paint::Gray
    } else if impact == 'L' {
        Paint::Brown
    } else if impact == '$' {
        Paint::DarkGray
    } else if impact == 'T' || impact == 'P' {
        Paint::DarkGreen
    } else {
        Paint::Purple
    }
}

/// A distance, and [`NEAR_WALL`] where it is less.
pub open spec fn safe_distance(d: int) -> int {
    if d < NEAR_WALL {
        NEAR_WALL as int
    } else {
        d
    }
}

/// `v` held within the range of a row number.
pub open spec fn saturate(v: int) -> int {
    clamp_int(v, i32::MIN as int, i32::MAX as int)
}

/// The projected height of a wall, in fixed point: the cell's side over the
/// distance, times the distance to the projection plane.
pub open spec fn stake_height(dist: int, plane: int, block: int) -> int {
    (block * ONE * plane) / safe_distance(dist)
}

/// The first row of a wall of projected height `h` in a frame of `fh` rows.
pub open spec fn stake_top(fh: int, h: int) -> int {
    saturate(div_trunc((fh * ONE) / 2 - h / 2, ONE as int))
}

/// The row after the last of that wall.
pub open spec fn stake_bottom(fh: int, h: int) -> int {
    saturate(div_trunc((fh * ONE) / 2 + h / 2, ONE as int))
}

/// A colour darkened with distance, half as bright at `half` units, opaque.
pub open spec fn dimmed(c: Color, dist: int, half: int) -> Color {
    Color {
        r: fade_by(c.r as int, dist, half) as u8,
        g: fade_by(c.g as int, dist, half) as u8,
        b: fade_by(c.b as int, dist, half) as u8,
        a: 255,
    }
}

/// The image's column for a hit at `offset` along the face.
pub open spec fn wall_texel_col(offset: int, tw: int) -> int {
    clamp_int(offset * tw / (ONE as int), 0, tw - 1)
}

/// The image's row for screen row `y` of a wall between `top` and `bottom`.
pub open spec fn wall_texel_row(y: int, top: int, bottom: int, th: int) -> int {
    clamp_int((y - top) * th / (bottom - top), 0, th - 1)
}

/// The colour of row `y` in the columns of one ray: above the wall the sky,
/// below it the floor, both darker where the wall is far; on the wall its
/// image, darkened with distance, or its plain paint where the image is
/// missing.
pub open spec fn world_pixel(
    hit: Intersect,
    img: Option<Image>,
    fh: int,
    plane: int,
    block: int,
    y: int,
) -> Color {
    let dist = safe_distance(hit.distance as int);
    let h = stake_height(hit.distance as int, plane, block);
    let top = stake_top(fh, h);
    let bottom = stake_bottom(fh, h);
    if y < top {
        dimmed(Color { r: 20, g: 30, b: 60, a: 255 }, dist, 70)
    } else if y >= bottom {
        dimmed(Color { r: 40, g: 25, b: 15, a: 255 }, dist, 50)
    } else {
        match img {
            Some(img) => dimmed(
                img.texel(
                    wall_texel_col(hit.offset as int, img.width as int),
                    wall_texel_row(y, top, bottom, img.height as int),
                ),
                dist,
                80,
            ),
            None => paint_color(plain_wall_of(hit.impact)),
        }
    }
}

/// The image that a cell's walls are drawn with.
pub fn wall_key(impact: char) -> (key: TextureKey)
    ensures
        key == wall_key_of(impact),
{
    match impact {
        '#' => TextureKey::Caja2,
        'L' => TextureKey::Caja3,
        '$' => TextureKey::Caja5,
        'M' => TextureKey::Caja4,
        'T' => TextureKey::Tuveria1,
        'P' => TextureKey::Tuveria2,
        _ => TextureKey::Caja2,
    }
}

/// The paint that a cell's walls are drawn with where their image is
/// missing.
pub fn plain_wall(impact: char) -> (paint: Paint)
    ensures
        paint == plain_wall_of(impact),
{
    match impact {
        '#' => Paint::Gray,
        'L' => Paint::Brown,
        '$' => Paint::DarkGray,
        'T' | 'P' => Paint::DarkGreen,
        _ => Paint::Purple,
    }
}

/// A colour darkened with distance.
fn dim(c: Color, dist: i64, half: i64) -> (d: Color)
    requires
        0 <= dist,
        0 < half <= 1000,
    ensures
        d == dimmed(c, dist as int, half as int),
{
    Color::new(
        fade_channel_by(c.r, dist, half),
        fade_channel_by(c.g, dist, half),
        fade_channel_by(c.b, dist, half),
        255,
    )
}

/// A row number from a fixed-point height above the frame's top.
fn row_of(v: i128) -> (row: i32)
    requires
        -0x4000_0000_0000_0000_0000 <= v <= 0x4000_0000_0000_0000_0000,
    ensures
        row == saturate(div_trunc(v as int, ONE as int)),
{
    let m: i128 = if v < 0 {
        -v
    } else {
        v
    };
    proof {
        lemma_div_bounds(m as int, ONE as int);
    }
    let q: i128 = m / (ONE as i128);
    let t: i128 = if v >= 0 {
        q
    } else {
        -q
    };
    if t < i32::MIN as i128 {
        i32::MIN
    } else if t > i32::MAX as i128 {
        i32::MAX
    } else {
        t as i32
    }
}

/// The rows of a wall at `distance`: the first, and the one after the last.
pub fn stake_rows(fh: i32, distance: i64, plane: i64, block: usize) -> (rows: (i32, i32))
    requires
        0 <= fh,
        0 <= plane <= MAX_PLANE,
        0 < block <= MAX_BLOCK,
    ensures
        rows.0 == stake_top(
            fh as int,
            stake_height(distance as int, plane as int, block as int),
        ),
        rows.1 == stake_bottom(
            fh as int,
            stake_height(distance as int, plane as int, block as int),
        ),
        rows.0 <= rows.1,
{
    let safe: i64 = if distance < NEAR_WALL {
        NEAR_WALL
    } else {
        distance
    };
    assert(0 <= block * ONE <= 32767 * 65536) by (nonlinear_arith)
        requires
            0 < block <= 32767,
    ;
    assert(0 <= (block * ONE) * plane <= 32767 * 65536 * 0x8000_0000) by (nonlinear_arith)
        requires
            0 <= block * ONE <= 32767 * 65536,
            0 <= plane <= 0x8000_0000,
    ;
    let num: i128 = (block as i128) * (ONE as i128) * (plane as i128);
    proof {
        lemma_div_bounds(num as int, safe as int);
    }
    let h: i128 = num / (safe as i128);
    let hh: i128 = ((fh as i128) * (ONE as i128)) / 2;
    let top: i32 = row_of(hh - h / 2);
    let bottom: i32 = row_of(hh + h / 2);
    proof {
        let a = (hh - h / 2) as int;
        let b = (hh + h / 2) as int;
        lemma_div_trunc_monotone(a, b, ONE as int);
    }
    (top, bottom)
}

/// Rounding towards zero keeps the order.
proof fn lemma_div_trunc_monotone(a: int, b: int, d: int)
    requires
        a <= b,
        0 < d,
    ensures
        div_trunc(a, d) <= div_trunc(b, d),
{
    if a >= 0 {
        lemma_div_monotone(a, b, d);
    } else if b < 0 {
        lemma_div_monotone(-b, -a, d);
    } else {
        lemma_div_bounds(-a, d);
        lemma_div_bounds(b, d);
    }
}

/// The colour of a wall's image in row `y`.
fn wall_texel(img: &Image, offset: i32, y: i32, top: i32, bottom: i32) -> (c: Color)
    requires
        img.wf(),
        top <= y < bottom,
    ensures
        c == img.texel(
            wall_texel_col(offset as int, img.width as int),
            wall_texel_row(y as int, top as int, bottom as int, img.height as int),
        ),
{
    let tw: i64 = img.width as i64;
    let th: i64 = img.height as i64;
    assert(-0x8000_0000 * 0x8000_0000 <= offset * tw <= 0x8000_0000 * 0x8000_0000)
        by (nonlinear_arith)
        requires
            -0x8000_0000 <= offset < 0x8000_0000,
            0 < tw < 0x8000_0000,
    ;
    let col: i64 = floor_div((offset as i64 * tw) as i128, ONE as i128) as i64;
    let tx: i64 = if col < 0 {
        0
    } else if col > tw - 1 {
        tw - 1
    } else {
        col
    };
    let span: i64 = bottom as i64 - top as i64;
    let into: i64 = y as i64 - top as i64;
    assert(0 <= into * th <= 0x1_0000_0000 * 0x8000_0000) by (nonlinear_arith)
        requires
            0 <= into < 0x1_0000_0000,
            0 < th < 0x8000_0000,
    ;
    proof {
        lemma_div_bounds(into * th, span as int);
    }
    let row: i128 = ((into as i128) * (th as i128)) / (span as i128);
    let ty: i64 = if row > (th - 1) as i128 {
        th - 1
    } else {
        row as i64
    };
    proof {
        assert(0 <= ty * tw + tx < tw * th) by (nonlinear_arith)
            requires
                0 <= tx < tw,
                0 <= ty < th,
        ;
        assert(0 <= ty * tw) by (nonlinear_arith)
            requires
                0 <= ty,
                0 < tw,
        ;
    }
    let n: usize = img.data.len();
    img.data[(ty as usize) * (tw as usize) + (tx as usize)]
}

/// The pen after the walls of `hits` were drawn: the sky's colour above
/// the last ray's wall, and `pen` where there is no ray.
pub open spec fn world_pen(pen: Color, hits: Seq<Intersect>) -> Color {
    if hits.len() == 0 {
        pen
    } else {
        dimmed(
            Color { r: 20, g: 30, b: 60, a: 255 },
            safe_distance(hits.last().distance as int),
            70,
        )
    }
}

/// Draws the maze as the player sees it: for each ray two columns, with the
/// sky above the wall that the ray met, the wall itself, and the floor
/// below. `hits` holds one hit for every two columns of the frame, from left
/// to right, and `plane_dist` the distance to the projection plane. The pen
/// is left at the colour taken up last, the sky's above the last ray's wall.
pub fn render_world_3d(
    framebuffer: &mut Framebuffer,
    hits: &[Intersect],
    plane_dist: i64,
    block_size: usize,
    textures: &TextureManager,
)
    requires
        old(framebuffer).wf(),
        textures.wf(),
        hits@.len() == ray_count_of(old(framebuffer).width as int),
        0 <= plane_dist <= MAX_PLANE,
        0 < block_size <= MAX_BLOCK,
    ensures
        final(framebuffer).wf(),
        final(framebuffer).width == old(framebuffer).width,
        final(framebuffer).height == old(framebuffer).height,
        final(framebuffer).background_color == old(framebuffer).background_color,
        final(framebuffer).current_color == world_pen(old(framebuffer).current_color, hits@),
        forall|x: int, y: int|
            old(framebuffer).holds(x, y) ==> #[trigger] final(framebuffer).at(x, y) == world_pixel(
                hits@[x / 2],
                textures.image(wall_key_of(hits@[x / 2].impact)),
                old(framebuffer).height as int,
                plane_dist as int,
                block_size as int,
                y,
            ),
{
    let fw: i32 = framebuffer.width;
    let fh: i32 = framebuffer.height;
    let mut i: usize = 0;
    while i < hits.len()
        invariant
            i <= hits@.len(),
            hits@.len() == (fw + 1) / 2,
            0 <= plane_dist <= MAX_PLANE,
            0 < block_size <= MAX_BLOCK,
            textures.wf(),
            framebuffer.wf(),
            framebuffer.width == fw,
            framebuffer.height == fh,
            old(framebuffer).width == fw,
            old(framebuffer).height == fh,
            framebuffer.background_color == old(framebuffer).background_color,
            framebuffer.current_color == world_pen(
                old(framebuffer).current_color,
                hits@.subrange(0, i as int),
            ),
            forall|x: int, y: int|
                old(framebuffer).holds(x, y) ==> #[trigger] framebuffer.at(x, y) == (if x / 2 < i {
                    world_pixel(
                        hits@[x / 2],
                        textures.image(wall_key_of(hits@[x / 2].impact)),
                        fh as int,
                        plane_dist as int,
                        block_size as int,
                        y,
                    )
                } else {
                    old(framebuffer).at(x, y)
                }),
        decreases hits@.len() - i,
    {
        let hit: Intersect = hits[i];
        let screen_x: i32 = (i as i32) * RAY_STEP;
        let safe: i64 = if hit.distance < NEAR_WALL {
            NEAR_WALL
        } else {
            hit.distance
        };
        let (top, bottom) = stake_rows(fh, hit.distance, plane_dist, block_size);
        let image: Option<&Image> = textures.get(wall_key(hit.impact));
        let sky: Color = dim(Color::new(20, 30, 60, 255), safe, 70);
        let floor: Color = dim(Color::new(40, 25, 15, 255), safe, 50);
        let mut y: i32 = 0;
        while y < fh
            invariant
                i < hits@.len(),
                hit == hits@[i as int],
                screen_x == 2 * i,
                0 <= screen_x < fw,
                0 <= y <= fh,
                safe == safe_distance(hit.distance as int),
                top == stake_top(
                    fh as int,
                    stake_height(hit.distance as int, plane_dist as int, block_size as int),
                ),
                bottom == stake_bottom(
                    fh as int,
                    stake_height(hit.distance as int, plane_dist as int, block_size as int),
                ),
                top <= bottom,
                image is Some <==> textures.image(wall_key_of(hit.impact)) is Some,
                image matches Some(img) ==> textures.image(wall_key_of(hit.impact)) == Some(*img)
                    && img.wf(),
                sky == dimmed(Color { r: 20, g: 30, b: 60, a: 255 }, safe as int, 70),
                floor == dimmed(Color { r: 40, g: 25, b: 15, a: 255 }, safe as int, 50),
                framebuffer.wf(),
                framebuffer.width == fw,
                framebuffer.height == fh,
                old(framebuffer).width == fw,
                old(framebuffer).height == fh,
                framebuffer.background_color == old(framebuffer).background_color,
                forall|px: int, py: int|
                    old(framebuffer).holds(px, py) ==> #[trigger] framebuffer.at(px, py) == (if px
                        / 2 < i || (px / 2 == i && py < y) {
                        world_pixel(
                            hits@[px / 2],
                            textures.image(wall_key_of(hits@[px / 2].impact)),
                            fh as int,
                            plane_dist as int,
                            block_size as int,
                            py,
                        )
                    } else {
                        old(framebuffer).at(px, py)
                    }),
            decreases fh - y,
        {
            let c: Color = if y < top {
                sky
            } else if y >= bottom {
                floor
            } else {
                match image {
                    Some(img) => dim(wall_texel(img, hit.offset, y, top, bottom), safe, 80),
                    None => plain_wall(hit.impact).color(),
                }
            };
            framebuffer.plot(screen_x, y, c);
            framebuffer.plot(screen_x + 1, y, c);
            y = y + 1;
        }
        let ghost painted = *framebuffer;
        framebuffer.set_current_color(sky);
        proof {
            assert forall|x: int, y: int| old(framebuffer).holds(x, y) implies #[trigger] framebuffer.at(
                x,
                y,
            ) == painted.at(x, y) by {}
            let seen = hits@.subrange(0, i + 1);
            assert(seen.len() == i + 1);
            assert(seen.last() == seen[i as int]);
            assert(seen[i as int] == hits@[i as int]);
        }
        i = i + 1;
    }
    assert(hits@.subrange(0, hits@.len() as int) =~= hits@);
}

} // verus!
