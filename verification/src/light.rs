//! The light that falls on a column of the frame: fog that thickens with
//! distance, the cone of a lamp, and the glow of lava.
//!
//! Two numbers come from outside, because no integer formula gives them: the
//! fog's raw falloff, the exponential of minus density times distance, and
//! the lava's wave, a sine of time and place. Everything else is computed
//! here, in fixed point.

use vstd::prelude::*;
use crate::fixed::{ONE, clamp_int, floor_div, lemma_div_bounds, lemma_div_monotone, mag};
use crate::raycaster::{column_angle, unit, Light};
use crate::util::WIDTH;

verus! {

/// The degrees of one radian, in fixed point.
pub const DEGREES_PER_RADIAN: i64 = 3754936;

/// The id of the tile that glows.
pub const LAVA: u8 = 5;

/// The visual effects of a frame, in fixed point.
#[derive(Clone, Copy, Debug)]
pub struct Effects {
    /// How fast the fog thickens with distance; no fog at 0 or below.
    pub fog_density: i32,
    /// Whether the lamp is lit.
    pub flashlight: bool,
    /// Half the angle of the lamp's cone, in degrees.
    pub cone_deg: i32,
    /// The clock that the lava glows with.
    pub time: i32,
}

impl Default for Effects {
    /// Light fog, the lamp lit with a cone of 70 degrees, and the clock at 0.
    fn default() -> (fx: Self)
        ensures
            fx == (Effects { fog_density: 3277, flashlight: true, cone_deg: 4587520, time: 0 }),
    {
        Effects { fog_density: 3277, flashlight: true, cone_deg: 4587520, time: 0 }
    }
}

/// The smooth step of a factor `t` in `[0, ONE]`: `t * t * (3 - 2 * t)`.
pub open spec fn smoothstep(t: int) -> int {
    t * t * (3 * ONE - 2 * t) / (ONE * ONE)
}

/// The fog factor for a raw falloff: its smooth step; 1 where there is no
/// fog.
pub open spec fn fog_of(fx: Effects, raw: int) -> int {
    if fx.fog_density > 0 {
        smoothstep(unit(raw))
    } else {
        ONE as int
    }
}

/// The angle between the ray of column `sx` and the middle of a field of
/// view `fov`, in radians.
pub open spec fn ray_offset(sx: int, fov: int) -> int {
    mag(column_angle(0, fov, sx))
}

/// The lamp's factor for column `sx`: 1 in the middle of the cone, falling
/// smoothly to three tenths at its edge and beyond; 1 where the lamp is out.
pub open spec fn spot_of(fx: Effects, sx: int, fov: int) -> int {
    if fx.flashlight {
        let delta = ray_offset(sx, fov) * DEGREES_PER_RADIAN / (ONE as int);
        let cone = if fx.cone_deg < ONE {
            ONE as int
        } else {
            fx.cone_deg as int
        };
        let t = unit(ONE - delta * ONE / cone);
        (smoothstep(t) * 7 + 3 * ONE) / 10
    } else {
        ONE as int
    }
}

/// The lava's factor for a wave in `[-ONE, ONE]`: between 0.7 and 1; 1 for
/// every other tile.
pub open spec fn pulse_of(tile: u8, wave: int) -> int {
    if tile == LAVA {
        (85 * ONE + clamp_int(wave, -ONE, ONE as int) * 15) / 100
    } else {
        ONE as int
    }
}

/// The light on column `sx`: the shade is fog times lamp times glow, and
/// the fog factor is kept beside it.
pub open spec fn light_of(fx: Effects, sx: int, fov: int, tile: u8, raw: int, wave: int) -> Light {
    let fog = fog_of(fx, raw);
    Light {
        shade: unit(fog * spot_of(fx, sx, fov) / (ONE as int) * pulse_of(tile, wave) / (ONE as int)) as i32,
        fog: fog as i32,
    }
}

/// A smooth step stays within `[0, ONE]`.
pub proof fn lemma_smoothstep_bounds(t: int)
    requires
        0 <= t <= ONE,
    ensures
        0 <= smoothstep(t) <= ONE,
        0 <= t * t * (3 * ONE - 2 * t) <= ONE * ONE * ONE,
{
    let one = ONE as int;
    assert(0 <= t * t * (3 * one - 2 * t)) by (nonlinear_arith)
        requires
            0 <= t <= one,
            one == 65536,
    ;
    assert(one * one * one - t * t * (3 * one - 2 * t) == (one - t) * (one - t) * (one + 2 * t))
        by (nonlinear_arith);
    assert((one - t) * (one - t) * (one + 2 * t) >= 0) by (nonlinear_arith)
        requires
            0 <= t <= one,
    ;
    lemma_div_monotone(0, t * t * (3 * one - 2 * t), one * one);
    lemma_div_monotone(t * t * (3 * one - 2 * t), one * one * one, one * one);
    assert(one * one * one == one * (one * one)) by (nonlinear_arith);
    vstd::arithmetic::div_mod::lemma_div_multiples_vanish(one, one * one);
}

/// A factor held within `[0, ONE]`.
fn unit_of(v: i64) -> (u: i64)
    ensures
        u == unit(v as int),
        0 <= u <= ONE,
{
    if v < 0 {
        0
    } else if v > ONE {
        ONE
    } else {
        v
    }
}

/// The smooth step of a factor.
fn smooth(t: i64) -> (s: i64)
    requires
        0 <= t <= ONE,
    ensures
        s == smoothstep(t as int),
        0 <= s <= ONE,
{
    proof {
        lemma_smoothstep_bounds(t as int);
    }
    assert(0 <= t * t <= 65536 * 65536) by (nonlinear_arith)
        requires
            0 <= t <= 65536,
    ;
    (t * t * (3 * ONE - 2 * t)) / (ONE * ONE)
}

/// The lamp's factor for one column.
fn spot(fx: &Effects, sx: u32, fov: i32) -> (s: i64)
    requires
        sx < WIDTH,
    ensures
        s == spot_of(*fx, sx as int, fov as int),
        0 <= s <= ONE,
{
    if fx.flashlight {
        assert(-1024 * 0x8000_0000 <= sx * fov <= 1024 * 0x8000_0000) by (nonlinear_arith)
            requires
                0 <= sx < 1024,
                -0x8000_0000 <= fov < 0x8000_0000,
        ;
        let across: i64 = floor_div((sx as i64 * fov as i64) as i128, WIDTH as i128) as i64;
        let half: i64 = floor_div(fov as i128, 2) as i64;
        let gap: i64 = across - half;
        let offset: i64 = if gap < 0 {
            -gap
        } else {
            gap
        };
        assert(0 <= offset * DEGREES_PER_RADIAN <= 0x2_0000_0000 * 3754936) by (nonlinear_arith)
            requires
                0 <= offset <= 0x2_0000_0000,
                DEGREES_PER_RADIAN == 3754936,
        ;
        let delta: i64 = (offset * DEGREES_PER_RADIAN) / ONE;
        let cone: i64 = if (fx.cone_deg as i64) < ONE {
            ONE
        } else {
            fx.cone_deg as i64
        };
        proof {
            lemma_div_bounds(offset * DEGREES_PER_RADIAN, ONE as int);
            lemma_div_monotone(offset * DEGREES_PER_RADIAN, 32254654637146112int, ONE as int);
        }
        assert(0 <= delta * ONE <= 0x2_0000_0000 * 3754936) by (nonlinear_arith)
            requires
                0 <= delta <= (0x2_0000_0000 * 3754936) / 65536,
                ONE == 65536,
        ;
        proof {
            lemma_div_bounds(delta * ONE, cone as int);
        }
        let t: i64 = unit_of(ONE - (delta * ONE) / cone);
        let s: i64 = smooth(t);
        (s * 7 + 3 * ONE) / 10
    } else {
        ONE
    }
}

/// The lava's factor.
fn pulse(tile: u8, wave: i32) -> (p: i64)
    ensures
        p == pulse_of(tile, wave as int),
        0 <= p <= ONE,
{
    if tile == LAVA {
        let w: i64 = if (wave as i64) < -ONE {
            -ONE
        } else if wave as i64 > ONE {
            ONE
        } else {
            wave as i64
        };
        (85 * ONE + w * 15) / 100
    } else {
        ONE
    }
}

/// The light on column `sx` of a frame seen with the field of view `fov`,
/// where the column shows tile `tile`. `fog_raw` is the fog's raw falloff at
/// the column's depth and `wave` the lava's wave at the place that was hit,
/// both as fixed-point factors.
pub fn column_light(fx: &Effects, sx: u32, fov: i32, tile: u8, fog_raw: i32, wave: i32) -> (light:
    Light)
    requires
        sx < WIDTH,
    ensures
        light == light_of(*fx, sx as int, fov as int, tile, fog_raw as int, wave as int),
        0 <= light.shade <= ONE,
        0 <= light.fog <= ONE,
{
    let fog: i64 = if fx.fog_density > 0 {
        smooth(unit_of(fog_raw as i64))
    } else {
        ONE
    };
    let s: i64 = spot(fx, sx, fov);
    let p: i64 = pulse(tile, wave);
    assert(0 <= fog * s <= 65536 * 65536) by (nonlinear_arith)
        requires
            0 <= fog <= 65536,
            0 <= s <= 65536,
    ;
    proof {
        lemma_div_monotone(0, fog * s, ONE as int);
        lemma_div_monotone(fog * s, 4294967296int, ONE as int);
    }
    let lit: i64 = fog * s / ONE;
    assert(0 <= lit * p <= 65536 * 65536) by (nonlinear_arith)
        requires
            0 <= lit <= 65536,
            0 <= p <= 65536,
    ;
    proof {
        lemma_div_monotone(0, lit * p, ONE as int);
        lemma_div_monotone(lit * p, 4294967296int, ONE as int);
    }
    let shade: i64 = unit_of(lit * p / ONE);
    Light { shade: shade as i32, fog: fog as i32 }
}

} // verus!
