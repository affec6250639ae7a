//! What the bars and the map of the heads-up display show.

use vstd::prelude::*;
use crate::fixed::{clamp_int, div_trunc, div_trunc_i64};
use crate::maze::Paint;

verus! {

/// The width of a full health bar, in pixels.
pub const HEALTH_BAR_WIDTH: i32 = 200;

/// The width of the bar for `health` of 100: two pixels for each point,
/// held within the range of a width.
pub open spec fn bar_width(health: int) -> int {
    clamp_int(div_trunc(HEALTH_BAR_WIDTH * health, 100), i32::MIN as int, i32::MAX as int)
}

/// The colour of the bar: green above 60, yellow above 30, red below.
pub open spec fn bar_paint(health: int) -> Paint {
    if health > 60 {
        Paint::Green
    } else if health > 30 {
        Paint::Yellow
    } else {
        Paint::Red
    }
}

/// The width and the colour of the health bar.
pub fn health_bar(health: i32) -> (bar: (i32, Paint))
    ensures
        bar.0 == bar_width(health as int),
        bar.1 == bar_paint(health as int),
        0 <= health <= 100 ==> bar.0 == 2 * health,
{
    assert(-200 * 0x8000_0000 <= HEALTH_BAR_WIDTH * health <= 200 * 0x8000_0000) by (nonlinear_arith)
        requires
            -0x8000_0000 <= health <= 0x8000_0000,
            HEALTH_BAR_WIDTH == 200,
    ;
    let wide: i64 = div_trunc_i64(HEALTH_BAR_WIDTH as i64 * health as i64, 100);
    proof {
        if 0 <= health <= 100 {
            assert(200 * health == (2 * health) * 100);
            vstd::arithmetic::div_mod::lemma_div_multiples_vanish(2 * health, 100);
        }
    }
    let width: i32 = if wide > i32::MAX as i64 {
        i32::MAX
    } else if wide < i32::MIN as i64 {
        i32::MIN
    } else {
        wide as i32
    };
    let paint: Paint = if health > 60 {
        Paint::Green
    } else if health > 30 {
        Paint::Yellow
    } else {
        Paint::Red
    };
    (width, paint)
}

/// The colour of a cell on the display's map: walls and doors grey, the
/// exit green, enemies red, chests gold, everything else dark.
pub open spec fn map_paint(cell: char) -> Paint {
    if cell == '#' || cell == 'L' || cell == '$' {
        Paint::Gray
    } else if cell == 'E' {
        Paint::Green
    } else if cell == 'F' {
        Paint::Red
    } else if cell == 'C' {
        Paint::Gold
    } else {
        Paint::DarkGray
    }
}

/// The colour of a cell on the display's map.
pub fn map_cell_paint(cell: char) -> (paint: Paint)
    ensures
        paint == map_paint(cell),
{
    match cell {
        '#' | 'L' | '$' => Paint::Gray,
        'E' => Paint::Green,
        'F' => Paint::Red,
        'C' => Paint::Gold,
        _ => Paint::DarkGray,
    }
}

} // verus!
