//! The renderer: one ray for each column of the frame, a textured strip of
//! wall where the ray stops, sky and ground everywhere else.

use vstd::prelude::*;
use crate::canvas::{
    Rgba, Screen, frame_bytes, lemma_frame_determined, lemma_plot, opaque, pixel_count, pixel_of,
    same_tail, screen,
};
use crate::dda::{cast_spec, perp_dist, HitModel, Ray, RayHit, EPSILON};
use crate::draw::plot_at;
use crate::fixed::{
    ONE, clamp_int, div_half, floor_div, lemma_div_bounds, lemma_div_monotone, mag,
};
use crate::map::TileMap;
use crate::procedural::{rgb, texture_pixel, TEX_SIZE};
use crate::util::{WIDTH, HEIGHT};

pub use crate::dda::cast;
pub use crate::procedural::generate_texture_pixel;

verus! {

/// The number of tile ids that have a texture of their own.
pub const TEXTURE_COUNT: u8 = 10;

/// The number of texels of one texture.
pub const TEXELS: usize = 1024;

/// The least distance that the projection works with (about 0.1 tiles).
pub const NEAR_CLIP: i64 = 6553;

/// The greatest distance that the projection works with (100 tiles).
pub const FAR_CLIP: i64 = 6553600;

/// The renderer's state: the depth of each column of the last frame and the
/// wall textures, computed once.
pub struct Raycaster {
    /// For each column, the clipped distance to the wall drawn there.
    pub zbuffer: Vec<i64>,
    /// For each column, the hit that the wall was drawn from.
    pub hits: Vec<RayHit>,
    /// For each tile id below [`TEXTURE_COUNT`], its texture, row by row.
    pub tex_cache: Vec<Vec<[u8; 3]>>,
}

/// Whether `tex` holds the texture of tile `id`, row by row.
pub open spec fn is_texture(tex: Seq<[u8; 3]>, id: u8) -> bool {
    &&& tex.len() == TEXELS
    &&& forall|ty: int, tx: int|
        0 <= ty < TEX_SIZE && 0 <= tx < TEX_SIZE ==> (#[trigger] tex[ty * 32 + tx])@
            == texture_pixel(id, tx as u32, ty as u32)
}

/// One texture, texel by texel.
fn build_texture(id: u8) -> (tex: Vec<[u8; 3]>)
    ensures
        is_texture(tex@, id),
{
    let mut tex: Vec<[u8; 3]> = Vec::new();
    let mut ty: u32 = 0;
    while ty < TEX_SIZE
        invariant
            ty <= TEX_SIZE,
            tex@.len() == ty * 32,
            forall|y: int, x: int|
                0 <= y < ty && 0 <= x < TEX_SIZE ==> (#[trigger] tex@[y * 32 + x])@
                    == texture_pixel(id, x as u32, y as u32),
        decreases TEX_SIZE - ty,
    {
        let mut tx: u32 = 0;
        while tx < TEX_SIZE
            invariant
                ty < TEX_SIZE,
                tx <= TEX_SIZE,
                tex@.len() == ty * 32 + tx,
                forall|y: int, x: int|
                    0 <= y < ty && 0 <= x < TEX_SIZE ==> (#[trigger] tex@[y * 32 + x])@
                        == texture_pixel(id, x as u32, y as u32),
                forall|x: int|
                    0 <= x < tx ==> (#[trigger] tex@[ty * 32 + x])@ == texture_pixel(
                        id,
                        x as u32,
                        ty as u32,
                    ),
            decreases TEX_SIZE - tx,
        {
            tex.push(generate_texture_pixel(id, tx, ty));
            tx = tx + 1;
        }
        ty = ty + 1;
    }
    tex
}

/// The colour of the sky in row `y`: a smooth blend from a light blue at the
/// top to a dark blue at the horizon.
pub open spec fn sky_color(y: int) -> Seq<u8> {
    let s = y * y * (864 - 2 * y);
    rgb(
        (135 * 23887872 - 95 * s) / 23887872,
        (206 * 23887872 - 136 * s) / 23887872,
        (235 * 23887872 - 105 * s) / 23887872,
    )
}

/// Whether the sky shows a star at `(x, y)`.
pub open spec fn is_star(x: int, y: int) -> bool {
    y < 144 && (x * 73 + y * 97) % 997 < 2
}

/// The colour of the star at `(x, y)`.
pub open spec fn star_color(x: int, y: int) -> Seq<u8> {
    let b = 200 + (x + y) % 55;
    rgb(b, b, b)
}

/// The colour of the ground at `(x, y)`: green that lightens towards the
/// bottom, speckled.
pub open spec fn ground_color(x: int, y: int) -> Seq<u8> {
    let t = y - 288;
    let grass = (x * 5 + y * 7) % 13 - 6;
    rgb(
        (40 * 288 + 30 * t) / 288 + grass,
        (80 * 288 + 40 * t) / 288 + grass,
        (30 * 288 + 20 * t) / 288 + div_half(grass),
    )
}

/// What the frame shows at `(x, y)` where no wall is drawn.
pub open spec fn backdrop_color(x: int, y: int) -> Seq<u8> {
    if y < 288 {
        if is_star(x, y) {
            star_color(x, y)
        } else {
            sky_color(y)
        }
    } else {
        ground_color(x, y)
    }
}

/// The pixel of the frame with no wall in it at position `k` of the
/// row-major order.
#[verifier::opaque]
pub open spec fn backdrop_at(k: int) -> Rgba {
    opaque(backdrop_color(k % 1024, k / 1024))
}

/// The frame with no wall in it.
pub open spec fn backdrop() -> Screen {
    Seq::new(pixel_count() as nat, |k: int| backdrop_at(k))
}

/// The sky's colour in one row.
fn sky_row(y: u32) -> (c: [u8; 3])
    requires
        y < 288,
    ensures
        c@ == sky_color(y as int),
{
    let yy: u64 = y as u64;
    assert(0 <= yy * yy <= 287 * 287) by (nonlinear_arith)
        requires
            0 <= yy <= 287,
    ;
    assert(0 <= (yy * yy) * (864 - 2 * yy) <= 23887872) by (nonlinear_arith)
        requires
            0 <= yy <= 287,
    ;
    let s: u64 = yy * yy * (864 - 2 * yy);
    [
        ((135 * 23887872 - 95 * s) / 23887872) as u8,
        ((206 * 23887872 - 136 * s) / 23887872) as u8,
        ((235 * 23887872 - 105 * s) / 23887872) as u8,
    ]
}

/// The colour above the horizon at `(x, y)`, given the sky's colour in that
/// row.
fn sky_pixel(x: u32, y: u32, sky: [u8; 3]) -> (c: [u8; 3])
    requires
        x < 1024,
        y < 288,
        sky@ == sky_color(y as int),
    ensures
        c@ == backdrop_color(x as int, y as int),
{
    if y < HEIGHT / 4 && (x * 73 + y * 97) % 997 < 2 {
        let brightness: u8 = (200 + (x + y) % 55) as u8;
        [brightness, brightness, brightness]
    } else {
        sky
    }
}

/// The colour below the horizon at `(x, y)`.
fn ground_pixel(x: u32, y: u32) -> (c: [u8; 3])
    requires
        x < 1024,
        288 <= y < 576,
    ensures
        c@ == backdrop_color(x as int, y as int),
{
    let t: u32 = y - HEIGHT / 2;
    let base_r: i16 = ((40 * 288 + 30 * t) / 288) as i16;
    let base_g: i16 = ((80 * 288 + 40 * t) / 288) as i16;
    let base_b: i16 = ((30 * 288 + 20 * t) / 288) as i16;
    let grass: i16 = ((x * 5 + y * 7) % 13) as i16 - 6;
    [(base_r + grass) as u8, (base_g + grass) as u8, (base_b + grass / 2) as u8]
}

/// Sets pixel `(x, y)` of a frame whose earlier pixels show the backdrop to
/// its backdrop colour.
fn plot_backdrop(frame: &mut [u8], x: u32, y: u32, c: [u8; 3])
    requires
        x < 1024,
        y < 576,
        old(frame)@.len() >= frame_bytes(),
        c@ == backdrop_color(x as int, y as int),
        forall|j: int| 0 <= j < y * 1024 + x ==> #[trigger] pixel_of(old(frame)@, j) == backdrop_at(j),
    ensures
        same_tail(final(frame)@, old(frame)@),
        forall|j: int|
            0 <= j < y * 1024 + x + 1 ==> #[trigger] pixel_of(final(frame)@, j) == backdrop_at(j),
{
    let k: usize = (y * WIDTH + x) as usize;
    plot_at(frame, k, c);
    proof {
        lemma_plot(old(frame)@, k as int, c@);
        assert(backdrop_at(k as int) == opaque(c@)) by {
            reveal(backdrop_at);
        }
    }
}

/// Paints sky and ground over the whole frame.
pub fn paint_backdrop(frame: &mut [u8])
    requires
        old(frame)@.len() >= frame_bytes(),
    ensures
        screen(final(frame)@) == backdrop(),
        same_tail(final(frame)@, old(frame)@),
{
    let mut y: u32 = 0;
    while y < HEIGHT
        invariant
            y <= 576,
            same_tail(frame@, old(frame)@),
            old(frame)@.len() >= frame_bytes(),
            forall|j: int| 0 <= j < y * 1024 ==> #[trigger] pixel_of(frame@, j) == backdrop_at(j),
        decreases 576 - y,
    {
        let sky: [u8; 3] = if y < HEIGHT / 2 {
            sky_row(y)
        } else {
            [0, 0, 0]
        };
        let mut x: u32 = 0;
        while x < WIDTH
            invariant
                y < 576,
                x <= 1024,
                y < 288 ==> sky@ == sky_color(y as int),
                same_tail(frame@, old(frame)@),
                old(frame)@.len() >= frame_bytes(),
                forall|j: int|
                    0 <= j < y * 1024 + x ==> #[trigger] pixel_of(frame@, j) == backdrop_at(j),
            decreases 1024 - x,
        {
            let c: [u8; 3] = if y < HEIGHT / 2 {
                sky_pixel(x, y, sky)
            } else {
                ground_pixel(x, y)
            };
            plot_backdrop(frame, x, y, c);
            x = x + 1;
        }
        y = y + 1;
    }
    assert(screen(frame@) =~= backdrop());
}

/// The angle of the ray through column `sx`, for a camera that looks along
/// `ang` with the field of view `fov`: the columns divide the field of view
/// into equal steps of angle, from `ang - fov / 2` on.
pub open spec fn column_angle(ang: int, fov: int, sx: int) -> int {
    ang - fov / 2 + sx * fov / (WIDTH as int)
}

/// The angle of the ray through column `sx`.
pub fn ray_angle(ang: i32, fov: i32, sx: u32) -> (a: i64)
    requires
        sx < WIDTH,
    ensures
        a == column_angle(ang as int, fov as int, sx as int),
{
    assert(-1024 * 0x8000_0000 <= sx * fov <= 1024 * 0x8000_0000) by (nonlinear_arith)
        requires
            0 <= sx < 1024,
            -0x8000_0000 <= fov < 0x8000_0000,
    ;
    let half: i64 = floor_div(fov as i128, 2) as i64;
    let along: i64 = floor_div((sx as i64 * fov as i64) as i128, WIDTH as i128) as i64;
    ang as i64 - half + along
}

/// A distance held within what the projection works with.
pub open spec fn clip_dist(d: int) -> int {
    clamp_int(d, NEAR_CLIP as int, FAR_CLIP as int)
}

/// The height in pixels of a wall at distance `d`: the frame's height
/// divided by the distance, and at most twice the frame's height.
pub open spec fn wall_height(d: int) -> int {
    let h = (HEIGHT * ONE) / d;
    if h > 2 * HEIGHT {
        2 * HEIGHT
    } else {
        h
    }
}

/// The first row of a strip of height `h`, centred on the horizon.
pub open spec fn strip_top(h: int) -> int {
    if 288 - h / 2 < 0 {
        0
    } else {
        288 - h / 2
    }
}

/// The row after the last of a strip of height `h`.
pub open spec fn strip_bottom(h: int) -> int {
    if strip_top(h) + h > 576 {
        576
    } else {
        strip_top(h) + h
    }
}

/// The texture column for a position `u` along the face.
pub open spec fn texel_column(u: int) -> int {
    (u * 32) / (ONE as int)
}

/// The texture row for screen row `y` of a strip of height `h` that begins
/// at `top`.
pub open spec fn texel_row(y: int, top: int, h: int) -> int {
    (y - top) * 32 / h
}

/// The colour of a wall of tile `tile` at a texel: its texture, and a flat
/// grey for an id without one.
pub open spec fn wall_texel(tile: u8, tx: int, ty: int) -> Seq<u8> {
    if tile < TEXTURE_COUNT {
        texture_pixel(tile, tx as u32, ty as u32)
    } else {
        rgb(200, 200, 200)
    }
}

/// A colour at three quarters of its brightness.
pub open spec fn darken(c: Seq<u8>) -> Seq<u8> {
    rgb(c[0] * 3 / 4, c[1] * 3 / 4, c[2] * 3 / 4)
}

/// Whether the wall of `hit` covers row `y` of its column.
pub open spec fn in_strip(hit: HitModel, y: int) -> bool {
    let h = wall_height(clip_dist(hit.dist));
    strip_top(h) <= y < strip_bottom(h)
}

/// The colour of the wall of `hit` in row `y`: the texel under that row,
/// darkened on faces that lie along the y axis.
#[verifier::opaque]
pub open spec fn wall_color(hit: HitModel, y: int) -> Seq<u8> {
    let h = wall_height(clip_dist(hit.dist));
    let c = wall_texel(hit.tile, texel_column(hit.u), texel_row(y, strip_top(h), h));
    if hit.side == 0 {
        darken(c)
    } else {
        c
    }
}

/// The pixel at position `k` of a frame whose column shows `hit`.
pub open spec fn scene_at(hit: HitModel, k: int) -> Rgba {
    if in_strip(hit, k / 1024) {
        opaque(wall_color(hit, k / 1024))
    } else {
        backdrop_at(k)
    }
}

/// The frame that shows `map` from `(px, py)` with `rays[x]` cast for
/// column `x`.
pub open spec fn scene(map: &TileMap, px: int, py: int, rays: Seq<Ray>) -> Screen {
    Seq::new(
        pixel_count() as nat,
        |k: int| scene_at(cast_spec(map, px, py, rays[k % 1024]), k),
    )
}

/// The depth of each column of that frame.
pub open spec fn depths(map: &TileMap, px: int, py: int, rays: Seq<Ray>) -> Seq<i64> {
    Seq::new(
        WIDTH as nat,
        |x: int| clip_dist(cast_spec(map, px, py, rays[x]).dist) as i64,
    )
}

/// The distance held within the clip range.
pub fn clip(d: i64) -> (c: i64)
    ensures
        c == clip_dist(d as int),
        NEAR_CLIP <= c <= FAR_CLIP,
{
    if d < NEAR_CLIP {
        NEAR_CLIP
    } else if d > FAR_CLIP {
        FAR_CLIP
    } else {
        d
    }
}

/// The projected height of a wall at the clipped distance `d`.
pub fn project_height(d: i64) -> (h: i32)
    requires
        NEAR_CLIP <= d <= FAR_CLIP,
    ensures
        h == wall_height(d as int),
        5 <= h <= 1152,
{
    proof {
        lemma_div_bounds(37748736int, d as int);
        vstd::arithmetic::div_mod::lemma_div_is_ordered_by_denominator(
            37748736int,
            d as int,
            6553600,
        );
    }
    let h: i64 = (HEIGHT as i64 * ONE) / d;
    if h > 2 * HEIGHT as i64 {
        2 * HEIGHT as i32
    } else {
        h as i32
    }
}

/// The rows that a strip of height `h` covers: the first, and the one after
/// the last.
pub fn strip_bounds(h: i32) -> (rows: (i32, i32))
    requires
        0 <= h <= 1152,
    ensures
        rows.0 == strip_top(h as int),
        rows.1 == strip_bottom(h as int),
        0 <= rows.0 <= rows.1 <= 576,
{
    let top: i32 = if 288 - h / 2 < 0 {
        0
    } else {
        288 - h / 2
    };
    let bottom: i32 = if top + h > 576 {
        576
    } else {
        top + h
    };
    (top, bottom)
}

/// The light that falls on one column, as two fixed-point factors. Each is
/// held within `[0, ONE]` before it is used.
#[derive(Clone, Copy, Debug)]
pub struct Light {
    /// How much of the wall's own colour is kept.
    pub shade: i32,
    /// How clear the air is: at `ONE` no fog is mixed in.
    pub fog: i32,
}

/// The colour of the fog.
pub const FOG_COLOR: [u8; 3] = [90, 140, 200];

/// A factor held within `[0, ONE]`.
pub open spec fn unit(v: int) -> int {
    clamp_int(v, 0, ONE as int)
}

/// One channel of a lit pixel: the wall's channel times the shade, plus the
/// fog's channel times what the fog factor leaves, cut off at 255.
pub open spec fn lit_channel(c: int, fog_c: int, light: Light) -> int {
    let v = (c * unit(light.shade as int) + fog_c * (ONE - unit(light.fog as int))) / (ONE as int);
    if v > 255 {
        255
    } else {
        v
    }
}

/// A pixel under a light.
pub open spec fn lit(p: Rgba, light: Light) -> Rgba {
    Rgba {
        r: lit_channel(p.r as int, 90, light) as u8,
        g: lit_channel(p.g as int, 140, light) as u8,
        b: lit_channel(p.b as int, 200, light) as u8,
        a: 255,
    }
}

/// Whether row `y` lies in the strip of a wall at depth `depth`.
pub open spec fn depth_covers(depth: int, y: int) -> bool {
    let h = wall_height(clip_dist(depth));
    strip_top(h) <= y < strip_bottom(h)
}

/// The pixel at position `k` after lighting: lit inside its column's strip,
/// as it was outside.
#[verifier::opaque]
pub open spec fn lit_at(p: Rgba, depth: int, light: Light, k: int) -> Rgba {
    if depth_covers(depth, k / 1024) {
        lit(p, light)
    } else {
        p
    }
}

/// A picture after lighting: in each column the wall's strip, whose rows
/// follow from the column's depth, is lit by the column's light.
pub open spec fn lit_scene(cv: Screen, depth: Seq<i64>, lights: Seq<Light>) -> Screen {
    Seq::new(
        pixel_count() as nat,
        |k: int| lit_at(cv[k], depth[k % 1024] as int, lights[k % 1024], k),
    )
}

/// One channel under a light.
fn light_channel(c: u8, fog_c: u8, light: Light) -> (v: u8)
    ensures
        v == lit_channel(c as int, fog_c as int, light),
{
    let shade: i64 = if light.shade < 0 {
        0
    } else if light.shade as i64 > ONE {
        ONE
    } else {
        light.shade as i64
    };
    let fog: i64 = if light.fog < 0 {
        0
    } else if light.fog as i64 > ONE {
        ONE
    } else {
        light.fog as i64
    };
    assert(0 <= c * shade <= 255 * 65536) by (nonlinear_arith)
        requires
            0 <= c <= 255,
            0 <= shade <= 65536,
    ;
    assert(0 <= fog_c * (65536 - fog) <= 255 * 65536) by (nonlinear_arith)
        requires
            0 <= fog_c <= 255,
            0 <= fog <= 65536,
    ;
    let v: i64 = (c as i64 * shade + fog_c as i64 * (ONE - fog)) / ONE;
    if v > 255 {
        255
    } else {
        v as u8
    }
}

impl Raycaster {
    /// The invariant: one depth and one hit for each column, and one texture
    /// for each of the first [`TEXTURE_COUNT`] tile ids.
    pub open spec fn wf(&self) -> bool {
        &&& self.zbuffer@.len() == WIDTH
        &&& self.hits@.len() == WIDTH
        &&& self.tex_cache@.len() == TEXTURE_COUNT
        &&& forall|id: int|
            0 <= id < TEXTURE_COUNT ==> is_texture((#[trigger] self.tex_cache@[id])@, id as u8)
    }

    /// A renderer with its textures computed and every depth at zero.
    pub fn new() -> (r: Self)
        ensures
            r.wf(),
            r.zbuffer@ == Seq::new(WIDTH as nat, |i: int| 0i64),
            forall|x: int|
                0 <= x < WIDTH ==> (#[trigger] r.hits@[x])@ == (HitModel {
                    dist: 0,
                    tile: 0,
                    side: 0,
                    u: 0,
                    coord: 0,
                }),
    {
        let mut tex_cache: Vec<Vec<[u8; 3]>> = Vec::new();
        let mut id: u8 = 0;
        while id < TEXTURE_COUNT
            invariant
                id <= TEXTURE_COUNT,
                tex_cache@.len() == id,
                forall|j: int| 0 <= j < id ==> is_texture((#[trigger] tex_cache@[j])@, j as u8),
            decreases TEXTURE_COUNT - id,
        {
            tex_cache.push(build_texture(id));
            id = id + 1;
        }
        let mut zbuffer: Vec<i64> = Vec::new();
        let mut hits: Vec<RayHit> = Vec::new();
        let mut i: u32 = 0;
        while i < WIDTH
            invariant
                i <= WIDTH,
                zbuffer@.len() == i,
                hits@.len() == i,
                forall|j: int| 0 <= j < i ==> zbuffer@[j] == 0,
                forall|j: int|
                    0 <= j < i ==> (#[trigger] hits@[j])@ == (HitModel {
                        dist: 0,
                        tile: 0,
                        side: 0,
                        u: 0,
                        coord: 0,
                    }),
            decreases WIDTH - i,
        {
            zbuffer.push(0);
            hits.push(RayHit { dist: 0, tile: 0, side: 0, u: 0, coord: 0 });
            i = i + 1;
        }
        assert(zbuffer@ =~= Seq::new(WIDTH as nat, |i: int| 0i64));
        Raycaster { zbuffer, hits, tex_cache }
    }

    /// The colour of the texture of `tile` at the point `(u, v)`, both
    /// fractions of `ONE` across and down the texture; a flat grey for a
    /// tile without a texture.
    pub fn sample(&self, tile: u8, u: i32, v: i32) -> (c: [u8; 3])
        requires
            self.wf(),
            0 <= u < ONE,
            0 <= v < ONE,
        ensures
            c@ == wall_texel(tile, texel_column(u as int), texel_column(v as int)),
    {
        let tx: u32 = ((u as i64 * 32) / ONE) as u32;
        let ty: u32 = ((v as i64 * 32) / ONE) as u32;
        if tile < TEXTURE_COUNT {
            let tex = &self.tex_cache[tile as usize];
            assert(is_texture(tex@, tile));
            tex[(ty * 32 + tx) as usize]
        } else {
            [200, 200, 200]
        }
    }

    /// The colour of the wall of `hit` in row `y` of its strip.
    fn strip_color(&self, hit: &RayHit, h: i32, top: i32, y: i32) -> (c: [u8; 3])
        requires
            self.wf(),
            0 <= hit.u < ONE,
            h == wall_height(clip_dist(hit.dist as int)),
            5 <= h <= 1152,
            top == strip_top(h as int),
            top <= y < strip_bottom(h as int),
        ensures
            c@ == wall_color(hit@, y as int),
    {
        reveal(wall_color);
        let tex_x: u32 = ((hit.u as i64 * 32) / ONE) as u32;
        let row: i32 = (y - top) * 32;
        assert(0 <= row / h < 32) by (nonlinear_arith)
            requires
                0 <= row < 32 * h,
                h > 0,
        ;
        let tex_y: u32 = (row / h) as u32;
        let color: [u8; 3] = if hit.tile < TEXTURE_COUNT {
            let tex = &self.tex_cache[hit.tile as usize];
            assert(is_texture(tex@, hit.tile));
            tex[(tex_y * 32 + tex_x) as usize]
        } else {
            [200, 200, 200]
        };
        if hit.side == 0 {
            [
                (color[0] as u16 * 3 / 4) as u8,
                (color[1] as u16 * 3 / 4) as u8,
                (color[2] as u16 * 3 / 4) as u8,
            ]
        } else {
            color
        }
    }

    /// Draws the wall of `hit` into column `sx`.
    fn draw_column(&self, frame: &mut [u8], sx: u32, hit: &RayHit)
        requires
            self.wf(),
            sx < 1024,
            old(frame)@.len() >= frame_bytes(),
            0 <= hit.u < ONE,
        ensures
            same_tail(final(frame)@, old(frame)@),
            forall|k: int|
                0 <= k < pixel_count() ==> #[trigger] pixel_of(final(frame)@, k) == (if k % 1024
                    == sx && in_strip(hit@, k / 1024) {
                    opaque(wall_color(hit@, k / 1024))
                } else {
                    pixel_of(old(frame)@, k)
                }),
    {
        let h: i32 = project_height(clip(hit.dist));
        let (top, bottom) = strip_bounds(h);
        let mut y: i32 = top;
        while y < bottom
            invariant
                self.wf(),
                sx < 1024,
                0 <= hit.u < ONE,
                h == wall_height(clip_dist(hit.dist as int)),
                5 <= h <= 1152,
                top == strip_top(h as int),
                bottom == strip_bottom(h as int),
                0 <= top <= y <= bottom <= 576,
                old(frame)@.len() >= frame_bytes(),
                same_tail(frame@, old(frame)@),
                forall|k: int|
                    0 <= k < pixel_count() ==> #[trigger] pixel_of(frame@, k) == (if k % 1024 == sx
                        && top <= k / 1024 < y {
                        opaque(wall_color(hit@, k / 1024))
                    } else {
                        pixel_of(old(frame)@, k)
                    }),
            decreases bottom - y,
        {
            let c: [u8; 3] = self.strip_color(hit, h, top, y);
            let k: usize = (y as u32 * WIDTH + sx) as usize;
            let ghost before = frame@;
            plot_at(frame, k, c);
            proof {
                lemma_plot(before, k as int, c@);
            }
            y = y + 1;
        }
    }

    /// Renders one frame: the backdrop, then for each column the wall that
    /// its ray stops at. Records each column's hit and clipped distance.
    pub fn render(&mut self, frame: &mut [u8], map: &TileMap, px: i32, py: i32, rays: &[Ray])
        requires
            old(self).wf(),
            map.wf(),
            rays@.len() == WIDTH,
            old(frame)@.len() >= frame_bytes(),
        ensures
            final(self).wf(),
            final(self).tex_cache == old(self).tex_cache,
            screen(final(frame)@) == scene(map, px as int, py as int, rays@),
            same_tail(final(frame)@, old(frame)@),
            final(self).zbuffer@ == depths(map, px as int, py as int, rays@),
            forall|x: int|
                0 <= x < WIDTH ==> (#[trigger] final(self).hits@[x])@ == cast_spec(
                    map,
                    px as int,
                    py as int,
                    rays@[x],
                ),
    {
        paint_backdrop(frame);
        proof {
            assert forall|k: int| 0 <= k < pixel_count() implies #[trigger] pixel_of(frame@, k)
                == backdrop_at(k) by {
                assert(screen(frame@)[k] == backdrop()[k]);
            }
        }
        let mut sx: u32 = 0;
        while sx < WIDTH
            invariant
                sx <= 1024,
                self.wf(),
                map.wf(),
                rays@.len() == WIDTH,
                self.tex_cache == old(self).tex_cache,
                old(frame)@.len() >= frame_bytes(),
                same_tail(frame@, old(frame)@),
                forall|k: int|
                    0 <= k < pixel_count() ==> #[trigger] pixel_of(frame@, k) == (if k % 1024 < sx {
                        scene_at(cast_spec(map, px as int, py as int, rays@[k % 1024]), k)
                    } else {
                        backdrop_at(k)
                    }),
                forall|x: int|
                    0 <= x < sx ==> #[trigger] self.zbuffer@[x] == clip_dist(
                        cast_spec(map, px as int, py as int, rays@[x]).dist,
                    ),
                forall|x: int|
                    0 <= x < sx ==> (#[trigger] self.hits@[x])@ == cast_spec(
                        map,
                        px as int,
                        py as int,
                        rays@[x],
                    ),
            decreases 1024 - sx,
        {
            let hit: RayHit = cast(map, px, py, rays[sx as usize]);
            let d: i64 = clip(hit.dist);
            self.zbuffer[sx as usize] = d;
            self.hits[sx as usize] = hit;
            self.draw_column(frame, sx, &hit);
            sx = sx + 1;
        }
        assert(screen(frame@) =~= scene(map, px as int, py as int, rays@));
        assert(self.zbuffer@ =~= depths(map, px as int, py as int, rays@));
    }

    /// Lights the walls of the last frame: in each column, every pixel of the
    /// strip that follows from the column's depth is mixed with the fog's
    /// colour under that column's light.
    pub fn shade(&self, frame: &mut [u8], lights: &[Light])
        requires
            self.wf(),
            lights@.len() == WIDTH,
            old(frame)@.len() >= frame_bytes(),
        ensures
            screen(final(frame)@) == lit_scene(screen(old(frame)@), self.zbuffer@, lights@),
            same_tail(final(frame)@, old(frame)@),
    {
        let mut sx: u32 = 0;
        while sx < WIDTH
            invariant
                sx <= 1024,
                self.wf(),
                lights@.len() == WIDTH,
                old(frame)@.len() >= frame_bytes(),
                same_tail(frame@, old(frame)@),
                forall|k: int|
                    0 <= k < pixel_count() ==> #[trigger] pixel_of(frame@, k) == (if k % 1024 < sx {
                        lit_at(
                            pixel_of(old(frame)@, k),
                            self.zbuffer@[k % 1024] as int,
                            lights@[k % 1024],
                            k,
                        )
                    } else {
                        pixel_of(old(frame)@, k)
                    }),
            decreases 1024 - sx,
        {
            let light: Light = lights[sx as usize];
            let depth: i64 = self.zbuffer[sx as usize];
            let h: i32 = project_height(clip(depth));
            let (top, bottom) = strip_bounds(h);
            let ghost column = frame@;
            let mut y: i32 = top;
            while y < bottom
                invariant
                    sx < 1024,
                    h == wall_height(clip_dist(depth as int)),
                    top == strip_top(h as int),
                    bottom == strip_bottom(h as int),
                    0 <= top <= y <= bottom <= 576,
                    old(frame)@.len() >= frame_bytes(),
                    same_tail(frame@, old(frame)@),
                    forall|k: int|
                        0 <= k < pixel_count() ==> #[trigger] pixel_of(frame@, k) == (if k % 1024
                            == sx && top <= k / 1024 < y {
                            lit(pixel_of(column, k), light)
                        } else {
                            pixel_of(column, k)
                        }),
                decreases bottom - y,
            {
                let k: usize = (y as u32 * WIDTH + sx) as usize;
                let i: usize = k * 4;
                let ghost before = frame@;
                let c: [u8; 3] = [
                    light_channel(frame[i], FOG_COLOR[0], light),
                    light_channel(frame[i + 1], FOG_COLOR[1], light),
                    light_channel(frame[i + 2], FOG_COLOR[2], light),
                ];
                plot_at(frame, k, c);
                proof {
                    lemma_plot(before, k as int, c@);
                    assert(pixel_of(before, k as int) == pixel_of(column, k as int));
                }
                y = y + 1;
            }
            proof {
                reveal(lit_at);
            }
            sx = sx + 1;
        }
        assert(screen(frame@) =~= lit_scene(screen(old(frame)@), self.zbuffer@, lights@));
    }
}

/// A wall that is farther away is drawn no higher, and no wall is drawn with
/// a negative height or one above twice the frame's.
pub proof fn lemma_wall_height_monotone(near: int, far: int)
    requires
        0 < near <= far,
    ensures
        0 <= wall_height(far) <= wall_height(near) <= 2 * HEIGHT,
{
    lemma_div_bounds(HEIGHT * ONE, near);
    lemma_div_bounds(HEIGHT * ONE, far);
    vstd::arithmetic::div_mod::lemma_div_is_ordered_by_denominator(HEIGHT * ONE, near, far);
}

/// Moving the camera back from a wall along the ray never raises the wall's
/// strip: with a greater offset to the face that is hit, across the same
/// direction component, the projected height is the same or smaller.
pub proof fn lemma_farther_is_lower(offset_near: int, offset_far: int, across: int)
    requires
        mag(offset_near) <= mag(offset_far),
    ensures
        perp_dist(offset_near, across) <= perp_dist(offset_far, across),
        0 <= wall_height(clip_dist(perp_dist(offset_far, across))) <= wall_height(
            clip_dist(perp_dist(offset_near, across)),
        ),
{
    if mag(across) >= EPSILON {
        assert(mag(offset_near) * ONE <= mag(offset_far) * ONE) by (nonlinear_arith)
            requires
                mag(offset_near) <= mag(offset_far),
        ;
        lemma_div_monotone(mag(offset_near) * ONE, mag(offset_far) * ONE, mag(across));
    }
    lemma_wall_height_monotone(
        clip_dist(perp_dist(offset_near, across)),
        clip_dist(perp_dist(offset_far, across)),
    );
}

/// Two frames that show the same scene, in buffers that agree beyond their
/// pixels, are the same byte for byte: rendering again from the same map,
/// origin and rays changes nothing.
pub proof fn lemma_render_repeatable(
    first: Seq<u8>,
    second: Seq<u8>,
    map: &TileMap,
    px: int,
    py: int,
    rays: Seq<Ray>,
)
    requires
        first.len() >= frame_bytes(),
        screen(first) == scene(map, px, py, rays),
        screen(second) == scene(map, px, py, rays),
        same_tail(first, second),
    ensures
        first == second,
{
    lemma_frame_determined(first, second);
}

/// Every pixel of a rendered frame is opaque, and every depth lies within
/// what the projection works with.
pub proof fn lemma_scene_is_opaque(map: &TileMap, px: int, py: int, rays: Seq<Ray>, k: int)
    requires
        0 <= k < pixel_count(),
    ensures
        scene(map, px, py, rays)[k].a == 255,
        k < WIDTH ==> NEAR_CLIP <= depths(map, px, py, rays)[k] <= FAR_CLIP,
{
    reveal(backdrop_at);
}

/// The two passes agree on where the walls are: the rows that the lighting
/// pass lights in a column, which it reads from the column's depth, are
/// the rows in which the rendering pass drew the column's wall.
pub proof fn lemma_light_falls_on_walls(map: &TileMap, px: int, py: int, rays: Seq<Ray>, k: int)
    requires
        0 <= k < pixel_count(),
    ensures
        depth_covers(depths(map, px, py, rays)[k % 1024] as int, k / 1024) <==> in_strip(
            cast_spec(map, px, py, rays[k % 1024]),
            k / 1024,
        ),
{
}

} // verus!
