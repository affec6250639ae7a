//! What the keys and the mouse do to the player.

use vstd::prelude::*;
use crate::dda::Ray;
use crate::fixed::{ONE, lemma_div_bounds, mag, scale_signed, scaled};
use crate::player::{is_rectangular, move_outcome, wrap_half, Player};

verus! {

/// How far the player moves in one frame (4 world units).
pub const MOVE_SPEED: i32 = 262144;

/// How far a key turns the player in one frame (0.04 radians).
pub const ROTATION_SPEED_KEY: i32 = 2621;

/// How far the mouse turns the player, for each unit that it moved (0.002
/// radians).
pub const MOUSE_SENSITIVITY: i32 = 131;

/// The greatest magnitude of a position from which a frame's moves are
/// tried.
pub const WORLD_REACH: i32 = 0x4000_0000;

/// The keys that are held down.
#[derive(Clone, Copy, Debug)]
pub struct Keys {
    pub left: bool,
    pub right: bool,
    pub up: bool,
    pub down: bool,
    pub w: bool,
    pub s: bool,
    pub a: bool,
    pub d: bool,
}

/// The heading after the keys and the mouse turned a player who headed for
/// `a`: the left key first, then the right key, then the mouse.
pub open spec fn turned(a: int, keys: Keys, mouse_dx: int) -> int {
    let a1 = if keys.left {
        wrap_half(a - ROTATION_SPEED_KEY)
    } else {
        a
    };
    let a2 = if keys.right {
        wrap_half(a1 + ROTATION_SPEED_KEY)
    } else {
        a1
    };
    if mouse_dx != 0 {
        wrap_half(a2 + scaled(mouse_dx, MOUSE_SENSITIVITY as int))
    } else {
        a2
    }
}

/// Turns the player as the keys and the mouse say.
pub fn process_turn(player: &mut Player, keys: &Keys, mouse_dx: i32)
    ensures
        final(player).a == turned(old(player).a as int, *keys, mouse_dx as int),
        *final(player) == (Player { a: final(player).a, ..*old(player) }),
{
    if keys.left {
        player.rotate(-ROTATION_SPEED_KEY);
    }
    if keys.right {
        player.rotate(ROTATION_SPEED_KEY);
    }
    if mouse_dx != 0 {
        let by: i64 = scale_signed(mouse_dx as i64, MOUSE_SENSITIVITY as i64);
        proof {
            lemma_div_bounds(mag(mouse_dx * MOUSE_SENSITIVITY), 65536);
            assert(mag(mouse_dx * MOUSE_SENSITIVITY) <= 0x8000_0000 * 131) by (nonlinear_arith)
                requires
                    -0x8000_0000 <= mouse_dx <= 0x8000_0000,
                    MOUSE_SENSITIVITY == 131,
            ;
            vstd::arithmetic::div_mod::lemma_div_is_ordered(
                mag(mouse_dx * MOUSE_SENSITIVITY),
                281320357888int,
                65536,
            );
        }
        player.rotate(by as i32);
    }
}

/// One of a frame's moves.
pub open spec fn step_outcome(
    maze: Seq<Vec<char>>,
    before: ((int, int), bool),
    pressed: bool,
    dx: int,
    dy: int,
) -> ((int, int), bool) {
    if pressed {
        let m = move_outcome(
            maze,
            before.0.0,
            before.0.1,
            before.0.0 + dx,
            before.0.1 + dy,
        );
        (m.0, m.1 || before.1)
    } else {
        before
    }
}

/// Where a frame's moves take a player at `(x, y)` who heads along
/// `heading`, and whether one of them reached the exit: forwards, then
/// backwards, then a step to the left, then one to the right, each where its
/// key is held, and each from where the one before ended.
pub open spec fn moved(maze: Seq<Vec<char>>, x: int, y: int, keys: Keys, heading: Ray) -> (
    (int, int),
    bool,
) {
    let fx = scaled(MOVE_SPEED as int, heading.dx as int);
    let fy = scaled(MOVE_SPEED as int, heading.dy as int);
    let s1 = step_outcome(maze, ((x, y), false), keys.up || keys.w, fx, fy);
    let s2 = step_outcome(maze, s1, keys.down || keys.s, -fx, -fy);
    let s3 = step_outcome(maze, s2, keys.a, fy, -fx);
    step_outcome(maze, s3, keys.d, -fy, fx)
}

/// A frame's move covers at most eight world units along either axis.
proof fn lemma_stride(d: int)
    requires
        -2 * ONE <= d <= 2 * ONE,
    ensures
        -0x8_0000 <= scaled(MOVE_SPEED as int, d) <= 0x8_0000,
{
    assert(mag(MOVE_SPEED * d) <= 262144 * 131072) by (nonlinear_arith)
        requires
            -131072 <= d <= 131072,
            MOVE_SPEED == 262144,
    ;
    lemma_div_bounds(mag(MOVE_SPEED * d), 65536);
    vstd::arithmetic::div_mod::lemma_div_is_ordered(mag(MOVE_SPEED * d), 34359738368int, 65536);
}

/// Moves the player as the keys say, along `heading`, the cosine and sine
/// of the player's heading; says whether the exit was reached.
pub fn process_moves(player: &mut Player, keys: &Keys, heading: Ray, maze: &Vec<Vec<char>>) -> (won:
    bool)
    requires
        is_rectangular(maze@),
        -WORLD_REACH <= old(player).x <= WORLD_REACH,
        -WORLD_REACH <= old(player).y <= WORLD_REACH,
        -2 * ONE <= heading.dx <= 2 * ONE,
        -2 * ONE <= heading.dy <= 2 * ONE,
    ensures
        ((final(player).x as int, final(player).y as int), won) == moved(
            maze@,
            old(player).x as int,
            old(player).y as int,
            *keys,
            heading,
        ),
        *final(player) == (Player { x: final(player).x, y: final(player).y, ..*old(player) }),
{
    proof {
        lemma_stride(heading.dx as int);
        lemma_stride(heading.dy as int);
    }
    let fx: i32 = scale_signed(MOVE_SPEED as i64, heading.dx as i64) as i32;
    let fy: i32 = scale_signed(MOVE_SPEED as i64, heading.dy as i64) as i32;
    let won1: bool = step(player, keys.up || keys.w, fx, fy, maze, false);
    let won2: bool = step(player, keys.down || keys.s, -fx, -fy, maze, won1);
    let won3: bool = step(player, keys.a, fy, -fx, maze, won2);
    step(player, keys.d, -fy, fx, maze, won3)
}

/// One of a frame's moves: by `(dx, dy)` where its key is held.
fn step(player: &mut Player, pressed: bool, dx: i32, dy: i32, maze: &Vec<Vec<char>>, before: bool) -> (won:
    bool)
    requires
        is_rectangular(maze@),
        -WORLD_REACH - 0x20_0000 <= old(player).x <= WORLD_REACH + 0x20_0000,
        -WORLD_REACH - 0x20_0000 <= old(player).y <= WORLD_REACH + 0x20_0000,
        -0x8_0000 <= dx <= 0x8_0000,
        -0x8_0000 <= dy <= 0x8_0000,
    ensures
        ((final(player).x as int, final(player).y as int), won) == step_outcome(
            maze@,
            ((old(player).x as int, old(player).y as int), before),
            pressed,
            dx as int,
            dy as int,
        ),
        *final(player) == (Player { x: final(player).x, y: final(player).y, ..*old(player) }),
        old(player).x - 0x8_0000 <= final(player).x <= old(player).x + 0x8_0000,
        old(player).y - 0x8_0000 <= final(player).y <= old(player).y + 0x8_0000,
{
    if pressed {
        let reached: bool = player.try_move(player.x + dx, player.y + dy, maze);
        reached || before
    } else {
        before
    }
}

} // verus!
