//! Procedural wall textures: one colour for each tile id and texel.

use vstd::prelude::*;
use crate::fixed::div_half;

verus! {

/// Side of a wall texture in texels.
pub const TEX_SIZE: u32 = 32;

/// A colour as the sequence of its three channels.
pub open spec fn rgb(r: int, g: int, b: int) -> Seq<u8> {
    seq![r as u8, g as u8, b as u8]
}

/// Red bricks in a running bond, with grey mortar.
pub open spec fn brick_texel(tx: int, ty: int) -> Seq<u8> {
    let shift = if (ty / 5) % 2 == 0 {
        0int
    } else {
        4int
    };
    if tx % 9 < 1 || ty % 5 < 1 || (tx + shift) % 9 < 1 {
        rgb(120, 110, 100)
    } else {
        let v = (tx * 7 + ty * 13) % 20 - 10;
        rgb(210 + v, 55 + div_half(v), 50 + div_half(v))
    }
}

/// Green stone with moss and cracks.
pub open spec fn moss_texel(tx: int, ty: int) -> Seq<u8> {
    if (tx + ty * 3) % 7 == 0 {
        let v = (tx * ty) % 15;
        rgb(40 + v, 200 + v / 2, 80 + v / 3)
    } else if (tx % 16 == 0 || ty % 16 == 0) && (tx + ty) % 8 < 2 {
        rgb(30, 130, 50)
    } else {
        let v = (tx * 11 + ty * 17) % 25 - 12;
        rgb(60 + v, 190 + v, 85 + div_half(v))
    }
}

/// Glossy blue tiles, eight texels wide, in a checker.
pub open spec fn tile_texel(tx: int, ty: int) -> Seq<u8> {
    let cx = tx % 8;
    let cy = ty % 8;
    if cx == 0 || cy == 0 || cx == 7 || cy == 7 {
        rgb(35, 65, 180)
    } else if cx < 3 && cy < 3 {
        rgb(120, 160, 255)
    } else if (tx / 8 + ty / 8) % 2 == 0 {
        rgb(60, 110, 230)
    } else {
        rgb(50, 95, 215)
    }
}

/// Metallic gold in blocks of four texels.
pub open spec fn gold_texel(tx: u32, ty: u32) -> Seq<u8> {
    if tx % 8 < 2 && ty % 8 < 2 {
        rgb(255, 240, 180)
    } else {
        let p = ((tx / 4) ^ (ty / 4)) % 3;
        if p == 0 {
            rgb(230, 200, 70)
        } else if p == 1 {
            rgb(210, 180, 50)
        } else {
            rgb(190, 165, 40)
        }
    }
}

/// Flowing lava with bright bubbles.
pub open spec fn lava_texel(tx: int, ty: int) -> Seq<u8> {
    if (tx * ty) % 37 < 5 {
        rgb(255, 255, 180)
    } else {
        let flow = (tx + ty * 2) % 12;
        rgb(255, 200 + flow * 55 / 12, 40 + flow * 30 / 12)
    }
}

/// The crystal of the portal.
pub open spec fn portal_texel(tx: int, ty: int) -> Seq<u8> {
    let crystal = (tx + ty) % 4;
    if (tx % 8 < 4) != (ty % 8 < 4) {
        rgb(240 + crystal * 4, 240 + crystal * 4, 255)
    } else {
        rgb(200 + crystal * 10, 200 + crystal * 10, 255)
    }
}

/// Plain grey stone, for every other id.
pub open spec fn stone_texel(tx: int, ty: int) -> Seq<u8> {
    let v = (tx * 13 + ty * 17) % 30 - 15;
    rgb(180 + v, 180 + v, 180 + v)
}

/// The colour of texel `(tx, ty)` of the texture of tile `wall_id`.
pub open spec fn texture_pixel(wall_id: u8, tx: u32, ty: u32) -> Seq<u8> {
    if wall_id == 1 {
        brick_texel(tx as int, ty as int)
    } else if wall_id == 2 {
        moss_texel(tx as int, ty as int)
    } else if wall_id == 3 {
        tile_texel(tx as int, ty as int)
    } else if wall_id == 4 {
        gold_texel(tx, ty)
    } else if wall_id == 5 {
        lava_texel(tx as int, ty as int)
    } else if wall_id == 9 {
        portal_texel(tx as int, ty as int)
    } else {
        stone_texel(tx as int, ty as int)
    }
}

/// Computes one texel of a wall texture.
pub fn generate_texture_pixel(wall_id: u8, tx: u32, ty: u32) -> (c: [u8; 3])
    requires
        tx < TEX_SIZE,
        ty < TEX_SIZE,
    ensures
        c@ == texture_pixel(wall_id, tx, ty),
{
    match wall_id {
        1 => {
            let brick_w: u32 = 8;
            let brick_h: u32 = 4;
            let mortar: u32 = 1;
            let bx: u32 = tx % (brick_w + mortar);
            let by: u32 = ty % (brick_h + mortar);
            let offset: u32 = if (ty / (brick_h + mortar)) % 2 == 0 {
                0
            } else {
                brick_w / 2
            };
            let bx_offset: u32 = (tx + offset) % (brick_w + mortar);
            if bx < mortar || by < mortar || bx_offset < mortar {
                [120, 110, 100]
            } else {
                let variation: i16 = ((tx * 7 + ty * 13) % 20) as i16 - 10;
                [(210 + variation) as u8, (55 + variation / 2) as u8, (50 + variation / 2) as u8]
            }
        },
        2 => {
            let moss: bool = (tx + ty * 3) % 7 == 0;
            let crack: bool = (tx % 16 == 0 || ty % 16 == 0) && (tx + ty) % 8 < 2;
            if moss {
                assert(tx * ty <= 31 * 31) by (nonlinear_arith)
                    requires
                        tx < 32,
                        ty < 32,
                ;
                let var: u8 = ((tx * ty) % 15) as u8;
                [40 + var, 200 + var / 2, 80 + var / 3]
            } else if crack {
                [30, 130, 50]
            } else {
                let var: i16 = ((tx * 11 + ty * 17) % 25) as i16 - 12;
                [(60 + var) as u8, (190 + var) as u8, (85 + var / 2) as u8]
            }
        },
        3 => {
            let tile_size: u32 = 8;
            let tx_tile: u32 = tx % tile_size;
            let ty_tile: u32 = ty % tile_size;
            let border: bool = tx_tile == 0 || ty_tile == 0 || tx_tile == tile_size - 1 || ty_tile
                == tile_size - 1;
            let shine: bool = tx_tile < 3 && ty_tile < 3;
            if border {
                [35, 65, 180]
            } else if shine {
                [120, 160, 255]
            } else if (tx / tile_size + ty / tile_size) % 2 == 0 {
                [60, 110, 230]
            } else {
                [50, 95, 215]
            }
        },
        4 => {
            let pattern: u32 = ((tx / 4) ^ (ty / 4)) % 3;
            let shine: bool = (tx % 8 < 2) && (ty % 8 < 2);
            if shine {
                [255, 240, 180]
            } else if pattern == 0 {
                [230, 200, 70]
            } else if pattern == 1 {
                [210, 180, 50]
            } else {
                [190, 165, 40]
            }
        },
        5 => {
            assert(tx * ty <= 31 * 31) by (nonlinear_arith)
                requires
                    tx < 32,
                    ty < 32,
            ;
            let flow: u32 = (tx + ty * 2) % 12;
            let bubble: bool = (tx * ty) % 37 < 5;
            if bubble {
                [255, 255, 180]
            } else {
                [255, (200 + flow * 55 / 12) as u8, (40 + flow * 30 / 12) as u8]
            }
        },
        9 => {
            let crystal: u8 = ((tx + ty) % 4) as u8;
            let glow: bool = (tx % 8 < 4) != (ty % 8 < 4);
            if glow {
                [240 + crystal * 4, 240 + crystal * 4, 255]
            } else {
                [200 + crystal * 10, 200 + crystal * 10, 255]
            }
        },
        _ => {
            let var: i16 = ((tx * 13 + ty * 17) % 30) as i16 - 15;
            [(180 + var) as u8, (180 + var) as u8, (180 + var) as u8]
        },
    }
}

} // verus!
