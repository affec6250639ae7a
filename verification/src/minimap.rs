//! The small map in the corner of the frame.

use vstd::prelude::*;
use crate::canvas::{
    Screen, blend_rect, border, fill_rect, frame_bytes, gradient, same_tail, screen,
    thick_line_screen,
};
use crate::dda::Ray;
use crate::draw::{draw_border, draw_rect_alpha, gradient_vertical, line_thick, rect};
use crate::fixed::{ONE, div_trunc, div_trunc_i64, lemma_div_bounds, mag};
use crate::map::TileMap;

verus! {

/// The side of a tile on the small map, in pixels.
pub const TILE: i32 = 8;

/// The distance of the small map from the frame's top and left edges.
pub const MARGIN: i32 = 20;

/// The width of the small map's rim.
pub const PADDING: i32 = 10;

/// The greatest width or height of a map that the small map shows.
pub const MAX_CELLS: usize = 4096;

/// The colour of a tile on the small map.
pub open spec fn tile_tint(id: u8) -> Seq<u8> {
    if id == 0 {
        seq![22u8, 24u8, 28u8]
    } else if id == 1 {
        seq![200u8, 70u8, 70u8]
    } else if id == 2 {
        seq![70u8, 190u8, 85u8]
    } else if id == 3 {
        seq![70u8, 120u8, 210u8]
    } else if id == 4 {
        seq![210u8, 190u8, 70u8]
    } else if id == 5 {
        seq![255u8, 130u8, 50u8]
    } else if id == 9 {
        seq![200u8, 200u8, 255u8]
    } else {
        seq![80u8, 80u8, 90u8]
    }
}

/// A colour at seven tenths of its brightness.
pub open spec fn dusk(c: Seq<u8>) -> Seq<u8> {
    seq![(c[0] * 7 / 10) as u8, (c[1] * 7 / 10) as u8, (c[2] * 7 / 10) as u8]
}

/// A picture with the first `n` of the six shadows under the small map:
/// shadow `i` is black at weight `40 - 6 * i`, `i` pixels further right and
/// down.
pub open spec fn map_shadows(cv: Screen, w: int, h: int, n: nat) -> Screen
    decreases n,
{
    if n == 0 {
        cv
    } else {
        blend_rect(
            map_shadows(cv, w, h, (n - 1) as nat),
            MARGIN + n - 1,
            MARGIN + n - 1,
            w,
            h,
            seq![0u8, 0u8, 0u8],
            (40 - (n - 1) * 6) as u8,
        )
    }
}

/// A picture with the tile at `(x, y)` of the map drawn: a square in the
/// tile's colour, and for a solid tile a darker line along its top and left.
pub open spec fn tile_screen(cv: Screen, map: &TileMap, x: int, y: int) -> Screen {
    let id = map.tile(x, y);
    let tx = MARGIN + PADDING + x * TILE;
    let ty = MARGIN + PADDING + y * TILE;
    let base = fill_rect(cv, tx, ty, TILE as int, TILE as int, tile_tint(id));
    if id != 0 {
        fill_rect(
            fill_rect(base, tx, ty, TILE as int, 1, dusk(tile_tint(id))),
            tx,
            ty,
            1,
            TILE as int,
            dusk(tile_tint(id)),
        )
    } else {
        base
    }
}

/// A picture with the first `n` tiles of row `y` drawn.
pub open spec fn tile_row_screen(cv: Screen, map: &TileMap, y: int, n: nat) -> Screen
    decreases n,
{
    if n == 0 {
        cv
    } else {
        tile_screen(tile_row_screen(cv, map, y, (n - 1) as nat), map, n - 1, y)
    }
}

/// A picture with the first `rows` rows of tiles drawn.
pub open spec fn tiles_screen(cv: Screen, map: &TileMap, rows: nat) -> Screen
    decreases rows,
{
    if rows == 0 {
        cv
    } else {
        tile_row_screen(tiles_screen(cv, map, (rows - 1) as nat), map, rows - 1, map.w as nat)
    }
}

/// The cell that a fixed-point position lies in: its whole part, and 0 for
/// a negative position.
pub open spec fn cell_of(p: int) -> int {
    if p < 0 {
        0
    } else {
        p / (ONE as int)
    }
}

/// A picture with the player drawn on the small map: a square with a
/// lighter core, and a line of up to sixteen pixels the way the player
/// looks.
pub open spec fn marker_screen(cv: Screen, px: int, py: int, heading: Ray) -> Screen {
    let sx = MARGIN + PADDING + cell_of(px) * TILE + 1;
    let sy = MARGIN + PADDING + cell_of(py) * TILE + 1;
    let cx = sx + 3;
    let cy = sy + 3;
    thick_line_screen(
        fill_rect(
            fill_rect(cv, sx - 1, sy - 1, 8, 8, seq![180u8, 80u8, 255u8]),
            sx,
            sy,
            6,
            6,
            seq![230u8, 120u8, 255u8],
        ),
        cx,
        cy,
        cx + div_trunc(heading.dx * 16, ONE as int),
        cy + div_trunc(heading.dy * 16, ONE as int),
        seq![255u8, 230u8, 255u8],
        2,
        2,
    )
}

/// A picture with the small map of `map` in its top left corner, and the
/// player at `(px, py)` looking along `heading`.
pub open spec fn minimap_screen(cv: Screen, map: &TileMap, px: int, py: int, heading: Ray) -> Screen {
    let w = map.w * TILE + PADDING * 2;
    let h = map.h * TILE + PADDING * 2;
    marker_screen(
        tiles_screen(
            border(
                gradient(
                    map_shadows(cv, w, h, 6),
                    MARGIN as int,
                    MARGIN as int,
                    w,
                    h,
                    seq![25u8, 28u8, 35u8],
                    seq![18u8, 20u8, 26u8],
                ),
                MARGIN as int,
                MARGIN as int,
                w,
                h,
                seq![100u8, 110u8, 130u8],
                2,
            ),
            map,
            map.h as nat,
        ),
        px,
        py,
        heading,
    )
}

/// The colour of a tile on the small map.
fn tint_of(id: u8) -> (c: [u8; 3])
    ensures
        c@ == tile_tint(id),
{
    match id {
        0 => [22, 24, 28],
        1 => [200, 70, 70],
        2 => [70, 190, 85],
        3 => [70, 120, 210],
        4 => [210, 190, 70],
        5 => [255, 130, 50],
        9 => [200, 200, 255],
        _ => [80, 80, 90],
    }
}

/// Draws one tile of the small map.
fn draw_tile(frame: &mut [u8], map: &TileMap, x: usize, y: usize)
    requires
        old(frame)@.len() >= frame_bytes(),
        map.wf(),
        x < MAX_CELLS,
        y < MAX_CELLS,
    ensures
        screen(final(frame)@) == tile_screen(screen(old(frame)@), map, x as int, y as int),
        same_tail(final(frame)@, old(frame)@),
{
    let id: u8 = map.at(x as i32, y as i32);
    let c: [u8; 3] = tint_of(id);
    let tx: i32 = MARGIN + PADDING + (x as i32) * TILE;
    let ty: i32 = MARGIN + PADDING + (y as i32) * TILE;
    rect(frame, tx, ty, TILE, TILE, c);
    if id != 0 {
        let darker: [u8; 3] = [
            (c[0] as u16 * 7 / 10) as u8,
            (c[1] as u16 * 7 / 10) as u8,
            (c[2] as u16 * 7 / 10) as u8,
        ];
        assert(darker@ =~= dusk(c@));
        rect(frame, tx, ty, TILE, 1, darker);
        rect(frame, tx, ty, 1, TILE, darker);
    }
}

/// The end of the marker's line along one axis.
fn tip(c: i32, d: i32) -> (e: i32)
    requires
        0 <= c <= 0x10_0000,
    ensures
        e == c + div_trunc(d * 16, ONE as int),
        -0x20_0000 <= e <= 0x20_0000,
{
    let q: i64 = div_trunc_i64(d as i64 * 16, ONE);
    proof {
        lemma_div_bounds(mag(d * 16), ONE as int);
        vstd::arithmetic::div_mod::lemma_div_is_ordered(mag(d * 16), 0x8_0000_0000, ONE as int);
    }
    (c as i64 + q) as i32
}

/// Draws the small map of `map` in the frame's top left corner, with the
/// player at the fixed-point position `(px, py)` looking along `heading`.
pub fn draw_minimap(frame: &mut [u8], map: &TileMap, px: i32, py: i32, heading: Ray)
    requires
        old(frame)@.len() >= frame_bytes(),
        map.wf(),
        map.w <= MAX_CELLS,
        map.h <= MAX_CELLS,
    ensures
        screen(final(frame)@) == minimap_screen(
            screen(old(frame)@),
            map,
            px as int,
            py as int,
            heading,
        ),
        same_tail(final(frame)@, old(frame)@),
{
    let map_w: i32 = (map.w as i32) * TILE;
    let map_h: i32 = (map.h as i32) * TILE;
    let w: i32 = map_w + PADDING * 2;
    let h: i32 = map_h + PADDING * 2;
    let mut offset: i32 = 0;
    while offset < 6
        invariant
            0 <= offset <= 6,
            0 <= w <= 0x1_0000,
            0 <= h <= 0x1_0000,
            old(frame)@.len() >= frame_bytes(),
            same_tail(frame@, old(frame)@),
            screen(frame@) == map_shadows(screen(old(frame)@), w as int, h as int, offset as nat),
        decreases 6 - offset,
    {
        let alpha: u8 = (40 - offset * 6) as u8;
        draw_rect_alpha(frame, MARGIN + offset, MARGIN + offset, w, h, [0, 0, 0], alpha);
        offset = offset + 1;
    }
    gradient_vertical(frame, MARGIN, MARGIN, w, h, [25, 28, 35], [18, 20, 26]);
    draw_border(frame, MARGIN, MARGIN, w, h, [100, 110, 130], 2);
    let ghost base = screen(frame@);
    let mut y: usize = 0;
    while y < map.h
        invariant
            y <= map.h,
            map.wf(),
            map.w <= MAX_CELLS,
            map.h <= MAX_CELLS,
            old(frame)@.len() >= frame_bytes(),
            same_tail(frame@, old(frame)@),
            screen(frame@) == tiles_screen(base, map, y as nat),
        decreases map.h - y,
    {
        let ghost row = screen(frame@);
        let mut x: usize = 0;
        while x < map.w
            invariant
                y < map.h,
                x <= map.w,
                map.wf(),
                map.w <= MAX_CELLS,
                map.h <= MAX_CELLS,
                old(frame)@.len() >= frame_bytes(),
                same_tail(frame@, old(frame)@),
                screen(frame@) == tile_row_screen(row, map, y as int, x as nat),
            decreases map.w - x,
        {
            draw_tile(frame, map, x, y);
            x = x + 1;
        }
        y = y + 1;
    }
    let cell_x: i32 = if px < 0 {
        0
    } else {
        px / (ONE as i32)
    };
    let cell_y: i32 = if py < 0 {
        0
    } else {
        py / (ONE as i32)
    };
    let sx: i32 = MARGIN + PADDING + cell_x * TILE + 1;
    let sy: i32 = MARGIN + PADDING + cell_y * TILE + 1;
    rect(frame, sx - 1, sy - 1, 8, 8, [180, 80, 255]);
    rect(frame, sx, sy, 6, 6, [230, 120, 255]);
    let cx: i32 = sx + 3;
    let cy: i32 = sy + 3;
    let ex: i32 = tip(cx, heading.dx);
    let ey: i32 = tip(cy, heading.dy);
    line_thick(frame, cx, cy, ex, ey, [255, 230, 255], 2);
}

} // verus!
