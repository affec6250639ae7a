//! The player: a position and a heading in the maze, health and a lamp.
//!
//! Positions are fixed-point world units, angles fixed-point radians.

use vstd::prelude::*;
use crate::dda::Ray;
use crate::fixed::{div_trunc, div_trunc_i64, scale_signed, scaled};

verus! {

/// Half a turn in fixed-point radians.
pub const PI: i32 = 205887;

/// A full turn in fixed-point radians.
pub const TAU: i32 = 411775;

/// The number of steps in which a move is tried.
pub const MOVE_STEPS: i32 = 6;

/// The side of a cell of the maze that the player walks in, in fixed point.
pub const CELL: i64 = 1310720;

/// A full lamp.
pub const FULL_BATTERY: i32 = 6553600;

/// The player.
pub struct Player {
    pub x: i32,
    pub y: i32,
    /// The heading, in `[-PI, PI]` once the player has turned.
    pub a: i32,
    /// The field of view.
    pub fov: i32,
    pub health: i32,
    pub max_health: i32,
    pub has_flashlight: bool,
    /// What is left in the lamp, from 0 to [`FULL_BATTERY`].
    pub flashlight_battery: i32,
}

/// What a step of a move meets.
#[derive(Clone, Copy, Debug, PartialEq, Eq, Structural)]
pub enum Ground {
    /// Outside the maze.
    Outside,
    /// A wall.
    Wall,
    /// A door: the player stops in it.
    Door,
    /// The exit: the player stops in it, and the level is done.
    Exit,
    /// Open floor.
    Floor,
}

/// Whether a maze has a row and no row is shorter than its first, so that
/// every cell within the first row's width can be read.
pub open spec fn is_rectangular(maze: Seq<Vec<char>>) -> bool {
    &&& maze.len() > 0
    &&& forall|j: int| 0 <= j < maze.len() ==> (#[trigger] maze[j])@.len() >= maze[0]@.len()
}

/// What lies at the position `(x, y)` of a maze.
pub open spec fn ground_at(maze: Seq<Vec<char>>, x: int, y: int) -> Ground {
    let i = div_trunc(x, CELL as int);
    let j = div_trunc(y, CELL as int);
    if i < 0 || j < 0 || j >= maze.len() || i >= maze[0]@.len() {
        Ground::Outside
    } else {
        let cell = maze[j]@[i];
        if cell == '$' {
            Ground::Door
        } else if cell == 'E' {
            Ground::Exit
        } else if cell == '#' || cell == 'L' {
            Ground::Wall
        } else {
            Ground::Floor
        }
    }
}

/// Where a move ends and whether it reached the exit, seen from step `k`:
/// `(nx, ny)` is where the player stands after `k - 1` steps of `(dx, dy)`.
pub open spec fn move_from(
    maze: Seq<Vec<char>>,
    start: (int, int),
    target: (int, int),
    at: (int, int),
    step: (int, int),
    k: int,
) -> ((int, int), bool)
    decreases MOVE_STEPS + 1 - k,
{
    if k > MOVE_STEPS {
        (target, false)
    } else {
        let next = (at.0 + step.0, at.1 + step.1);
        match ground_at(maze, next.0, next.1) {
            Ground::Outside => (start, false),
            Ground::Wall => (start, false),
            Ground::Door => (next, false),
            Ground::Exit => (next, true),
            Ground::Floor => move_from(maze, start, target, next, step, k + 1),
        }
    }
}

/// Where a move from `(x, y)` towards `(new_x, new_y)` ends, and whether it
/// reached the exit. The way is walked in [`MOVE_STEPS`] equal steps: a
/// wall or the maze's edge on the way leaves the player where they were, a
/// door or the exit stops them there, and a free way takes them to the
/// target.
pub open spec fn move_outcome(maze: Seq<Vec<char>>, x: int, y: int, new_x: int, new_y: int) -> (
    (int, int),
    bool,
) {
    move_from(
        maze,
        (x, y),
        (new_x, new_y),
        (x, y),
        (div_trunc(new_x - x, MOVE_STEPS as int), div_trunc(new_y - y, MOVE_STEPS as int)),
        1,
    )
}

/// Whether `v` lies between `a` and `b`, in either order.
pub open spec fn is_between(v: int, a: int, b: int) -> bool {
    (a <= v <= b) || (b <= v <= a)
}

/// An angle brought into `[-PI, PI]` by whole turns. Every fixed-point value
/// in that range stands for an angle above minus half a turn and at most
/// half a turn.
pub open spec fn wrap_half(a: int) -> int {
    let r = a % (TAU as int);
    if r > PI {
        r - TAU
    } else {
        r
    }
}

/// An angle brought into `[-PI, PI]` by whole turns.
pub fn wrap_angle(a: i64) -> (r: i32)
    ensures
        r == wrap_half(a as int),
        -PI <= r <= PI,
{
    let mut r: i64 = a % (TAU as i64);
    if r < 0 {
        r = r + TAU as i64;
    }
    if r > PI as i64 {
        r = r - TAU as i64;
    }
    r as i32
}

impl Player {
    /// A player at `(x, y)` with full health and a full lamp, heading and
    /// field of view both a sixth of a turn.
    pub fn new(x: i32, y: i32) -> (p: Player)
        ensures
            p == (Player {
                x,
                y,
                a: 68629,
                fov: 68629,
                health: 100,
                max_health: 100,
                has_flashlight: true,
                flashlight_battery: FULL_BATTERY,
            }),
    {
        Player {
            x,
            y,
            a: 68629,
            fov: 68629,
            health: 100,
            max_health: 100,
            has_flashlight: true,
            flashlight_battery: FULL_BATTERY,
        }
    }

    /// Turns the player by `angle`; the heading is brought back into
    /// `[-PI, PI]`.
    pub fn rotate(&mut self, angle: i32)
        ensures
            final(self).a == wrap_half(old(self).a + angle),
            -PI <= final(self).a <= PI,
            *final(self) == (Player { a: final(self).a, ..*old(self) }),
    {
        self.a = wrap_angle(self.a as i64 + angle as i64);
    }

    /// Tries to move to `(new_x, new_y)`; says whether the exit was reached.
    pub fn try_move(&mut self, new_x: i32, new_y: i32, maze: &Vec<Vec<char>>) -> (won: bool)
        requires
            is_rectangular(maze@),
        ensures
            ((final(self).x as int, final(self).y as int), won) == move_outcome(
                maze@,
                old(self).x as int,
                old(self).y as int,
                new_x as int,
                new_y as int,
            ),
            *final(self) == (Player { x: final(self).x, y: final(self).y, ..*old(self) }),
            is_between(final(self).x as int, old(self).x as int, new_x as int),
            is_between(final(self).y as int, old(self).y as int, new_y as int),
    {
        let dx: i64 = div_trunc_i64(new_x as i64 - self.x as i64, MOVE_STEPS as i64);
        let dy: i64 = div_trunc_i64(new_y as i64 - self.y as i64, MOVE_STEPS as i64);
        let mut nx: i64 = self.x as i64;
        let mut ny: i64 = self.y as i64;
        let mut k: i32 = 1;
        while k <= MOVE_STEPS
            invariant
                1 <= k <= MOVE_STEPS + 1,
                is_rectangular(maze@),
                *self == *old(self),
                dx == div_trunc(new_x - old(self).x, MOVE_STEPS as int),
                dy == div_trunc(new_y - old(self).y, MOVE_STEPS as int),
                -0x1_0000_0000 <= dx <= 0x1_0000_0000,
                -0x1_0000_0000 <= dy <= 0x1_0000_0000,
                nx == old(self).x + (k - 1) * dx,
                ny == old(self).y + (k - 1) * dy,
                move_outcome(
                    maze@,
                    old(self).x as int,
                    old(self).y as int,
                    new_x as int,
                    new_y as int,
                ) == move_from(
                    maze@,
                    (old(self).x as int, old(self).y as int),
                    (new_x as int, new_y as int),
                    (nx as int, ny as int),
                    (dx as int, dy as int),
                    k as int,
                ),
            decreases MOVE_STEPS + 1 - k,
        {
            assert(-6 * 0x1_0000_0000 <= (k - 1) * dx <= 6 * 0x1_0000_0000) by (nonlinear_arith)
                requires
                    0 <= k - 1 <= 5,
                    -0x1_0000_0000 <= dx <= 0x1_0000_0000,
            ;
            assert(-6 * 0x1_0000_0000 <= (k - 1) * dy <= 6 * 0x1_0000_0000) by (nonlinear_arith)
                requires
                    0 <= k - 1 <= 5,
                    -0x1_0000_0000 <= dy <= 0x1_0000_0000,
            ;
            assert((k - 1) * dx + dx == k * dx) by (nonlinear_arith);
            assert((k - 1) * dy + dy == k * dy) by (nonlinear_arith);
            nx = nx + dx;
            ny = ny + dy;
            let i: i64 = div_trunc_i64(nx, CELL);
            let j: i64 = div_trunc_i64(ny, CELL);
            if j < 0 || i < 0 {
                return false;
            }
            if j as u64 >= maze.len() as u64 || i as u64 >= maze[0].len() as u64 {
                return false;
            }
            let cell: char = maze[j as usize][i as usize];
            if cell == '$' || cell == 'E' {
                proof {
                    lemma_step_stays_near(old(self).x as int, new_x as int, k as int, dx as int);
                    lemma_step_stays_near(old(self).y as int, new_y as int, k as int, dy as int);
                }
                self.x = nx as i32;
                self.y = ny as i32;
                return cell == 'E';
            }
            if cell == '#' || cell == 'L' {
                return false;
            }
            k = k + 1;
        }
        self.x = new_x;
        self.y = new_y;
        false
    }

    /// Moves the player by `distance` along `heading`, the cosine and sine
    /// of the way to go; says whether the exit was reached.
    pub fn move_forward(&mut self, distance: i32, heading: Ray, maze: &Vec<Vec<char>>) -> (won:
        bool)
        requires
            is_rectangular(maze@),
            -0x8000_0000 <= old(self).x + scaled(distance as int, heading.dx as int) < 0x8000_0000,
            -0x8000_0000 <= old(self).y + scaled(distance as int, heading.dy as int) < 0x8000_0000,
        ensures
            ((final(self).x as int, final(self).y as int), won) == move_outcome(
                maze@,
                old(self).x as int,
                old(self).y as int,
                old(self).x + scaled(distance as int, heading.dx as int),
                old(self).y + scaled(distance as int, heading.dy as int),
            ),
            *final(self) == (Player { x: final(self).x, y: final(self).y, ..*old(self) }),
            is_between(
                final(self).x as int,
                old(self).x as int,
                old(self).x + scaled(distance as int, heading.dx as int),
            ),
            is_between(
                final(self).y as int,
                old(self).y as int,
                old(self).y + scaled(distance as int, heading.dy as int),
            ),
    {
        let new_x: i64 = self.x as i64 + scale_signed(distance as i64, heading.dx as i64);
        let new_y: i64 = self.y as i64 + scale_signed(distance as i64, heading.dy as i64);
        self.try_move(new_x as i32, new_y as i32, maze)
    }

    /// Moves the player by `distance` against `heading`; says whether the
    /// exit was reached.
    pub fn move_backward(&mut self, distance: i32, heading: Ray, maze: &Vec<Vec<char>>) -> (won:
        bool)
        requires
            is_rectangular(maze@),
            -0x8000_0000 <= old(self).x - scaled(distance as int, heading.dx as int) < 0x8000_0000,
            -0x8000_0000 <= old(self).y - scaled(distance as int, heading.dy as int) < 0x8000_0000,
        ensures
            ((final(self).x as int, final(self).y as int), won) == move_outcome(
                maze@,
                old(self).x as int,
                old(self).y as int,
                old(self).x - scaled(distance as int, heading.dx as int),
                old(self).y - scaled(distance as int, heading.dy as int),
            ),
            *final(self) == (Player { x: final(self).x, y: final(self).y, ..*old(self) }),
            is_between(
                final(self).x as int,
                old(self).x as int,
                old(self).x - scaled(distance as int, heading.dx as int),
            ),
            is_between(
                final(self).y as int,
                old(self).y as int,
                old(self).y - scaled(distance as int, heading.dy as int),
            ),
    {
        let new_x: i64 = self.x as i64 - scale_signed(distance as i64, heading.dx as i64);
        let new_y: i64 = self.y as i64 - scale_signed(distance as i64, heading.dy as i64);
        self.try_move(new_x as i32, new_y as i32, maze)
    }

    /// Takes `damage` from the player's health, which does not fall below 0.
    pub fn take_damage(&mut self, damage: i32)
        requires
            i32::MIN <= old(self).health - damage <= i32::MAX,
        ensures
            final(self).health == (if old(self).health - damage < 0 {
                0
            } else {
                old(self).health - damage
            }),
            *final(self) == (Player { health: final(self).health, ..*old(self) }),
    {
        let h: i32 = self.health - damage;
        self.health = if h < 0 {
            0
        } else {
            h
        };
    }

    /// Adds `amount` to the player's health, which does not rise above its
    /// maximum.
    pub fn heal(&mut self, amount: i32)
        requires
            i32::MIN <= old(self).health + amount <= i32::MAX,
        ensures
            final(self).health == (if old(self).health + amount > old(self).max_health {
                old(self).max_health as int
            } else {
                old(self).health + amount
            }),
            *final(self) == (Player { health: final(self).health, ..*old(self) }),
    {
        let h: i32 = self.health + amount;
        self.health = if h > self.max_health {
            self.max_health
        } else {
            h
        };
    }

    /// Whether the player has health left.
    pub fn is_alive(&self) -> (alive: bool)
        ensures
            alive == (self.health > 0),
    {
        self.health > 0
    }

    /// Burns the lamp for `delta_time` seconds, at ten units a second; an
    /// empty lamp, or none, stays as it is.
    pub fn use_flashlight(&mut self, delta_time: i32)
        ensures
            final(self).flashlight_battery == (if old(self).has_flashlight && old(
                self,
            ).flashlight_battery > 0 {
                if old(self).flashlight_battery - 10 * delta_time < 0 {
                    0
                } else if old(self).flashlight_battery - 10 * delta_time > i32::MAX {
                    i32::MAX as int
                } else {
                    old(self).flashlight_battery - 10 * delta_time
                }
            } else {
                old(self).flashlight_battery as int
            }),
            *final(self) == (Player {
                flashlight_battery: final(self).flashlight_battery,
                ..*old(self)
            }),
    {
        if self.has_flashlight && self.flashlight_battery > 0 {
            let left: i64 = self.flashlight_battery as i64 - 10 * (delta_time as i64);
            self.flashlight_battery = if left < 0 {
                0
            } else if left > i32::MAX as i64 {
                i32::MAX
            } else {
                left as i32
            };
        }
    }

    /// Charges the lamp by `amount`, up to [`FULL_BATTERY`].
    pub fn recharge_flashlight(&mut self, amount: i32)
        ensures
            final(self).flashlight_battery == (if old(self).flashlight_battery + amount
                > FULL_BATTERY {
                FULL_BATTERY as int
            } else if old(self).flashlight_battery + amount < i32::MIN {
                i32::MIN as int
            } else {
                old(self).flashlight_battery + amount
            }),
            *final(self) == (Player {
                flashlight_battery: final(self).flashlight_battery,
                ..*old(self)
            }),
    {
        let sum: i64 = self.flashlight_battery as i64 + amount as i64;
        self.flashlight_battery = if sum > FULL_BATTERY as i64 {
            FULL_BATTERY
        } else if sum < i32::MIN as i64 {
            i32::MIN
        } else {
            sum as i32
        };
    }
}

/// After at most six steps of a sixth of the way, rounded towards zero, a
/// walker stands between where they began and where they wanted to go.
proof fn lemma_step_stays_near(from: int, to: int, k: int, d: int)
    requires
        -0x8000_0000 <= from < 0x8000_0000,
        -0x8000_0000 <= to < 0x8000_0000,
        1 <= k <= 6,
        d == div_trunc(to - from, 6),
    ensures
        -0x8000_0000 <= from + k * d < 0x8000_0000,
        is_between(from + k * d, from, to),
{
    let gap = to - from;
    if gap >= 0 {
        assert(0 <= 6 * d <= gap) by {
            vstd::arithmetic::div_mod::lemma_fundamental_div_mod(gap, 6);
            vstd::arithmetic::div_mod::lemma_div_pos_is_pos(gap, 6);
        }
        assert(0 <= k * d <= 6 * d) by (nonlinear_arith)
            requires
                1 <= k <= 6,
                0 <= d,
        ;
    } else {
        assert(gap <= 6 * d <= 0) by {
            vstd::arithmetic::div_mod::lemma_fundamental_div_mod(-gap, 6);
            vstd::arithmetic::div_mod::lemma_div_pos_is_pos(-gap, 6);
        }
        assert(6 * d <= k * d <= 0) by (nonlinear_arith)
            requires
                1 <= k <= 6,
                d <= 0,
        ;
    }
}

} // verus!
