//! The ray caster: a walk over the grid, cell by cell, from an origin along a
//! direction to the first solid tile.
//!
//! Positions and direction components are fixed-point numbers. The walk keeps,
//! for each axis, the distance along the ray to the next grid line of that
//! axis, and always crosses the nearer line.

use vstd::prelude::*;
use crate::fixed::{
    ONE, abs_i64, div_trunc, div_trunc_i64, floor_fixed, floor_of, fract_of, lemma_div_bounds,
    lemma_div_monotone, mag, scale_fixed,
};
use crate::map::{TileMap, BOUNDARY_WALL};

verus! {

/// A direction component below this magnitude (about 0.0001) counts as zero.
pub const EPSILON: i64 = 7;

/// The distance that stands for "never": the step between grid lines of an
/// axis that the ray runs parallel to.
pub const FAR: i64 = 0x80_0000_0000_0000;

/// The least distance a cast reports (about 0.01 tiles).
pub const MIN_DIST: i64 = 655;

/// The number of cells a ray may cross before the walk is cut off.
pub const MAX_STEPS: u32 = 200;

/// A ray's direction: cosine and sine of its angle in fixed point.
#[derive(Clone, Copy, Debug)]
pub struct Ray {
    pub dx: i32,
    pub dy: i32,
}

/// Where a ray stopped.
#[derive(Clone, Copy, Debug)]
pub struct RayHit {
    /// Distance to the hit, measured perpendicular to the grid line crossed.
    pub dist: i64,
    /// The tile that stopped the ray; never 0 in what a cast returns.
    pub tile: u8,
    /// 0 where the last line crossed was vertical, 1 where it was horizontal.
    pub side: i32,
    /// Position of the hit along the face, as a fraction in `[0, ONE)`.
    pub u: i32,
    /// Position of the hit along the face, as an absolute coordinate.
    pub coord: i64,
}

/// The mathematical content of a [`RayHit`].
pub struct HitModel {
    pub dist: int,
    pub tile: u8,
    pub side: int,
    pub u: int,
    pub coord: int,
}

impl View for RayHit {
    type V = HitModel;

    open spec fn view(&self) -> HitModel {
        HitModel {
            dist: self.dist as int,
            tile: self.tile,
            side: self.side as int,
            u: self.u as int,
            coord: self.coord as int,
        }
    }
}

/// The state of a walk: the current cell, the distance along the ray to the
/// next grid line of each axis, and the axis of the line crossed last.
pub struct Walk {
    pub x: int,
    pub y: int,
    pub sx: int,
    pub sy: int,
    pub side: int,
}

/// The distance along the ray between two grid lines of one axis: `1 / |d|`,
/// and [`FAR`] where `d` counts as zero.
pub open spec fn delta_dist(d: int) -> int {
    if mag(d) < EPSILON {
        FAR as int
    } else {
        (ONE * ONE) / mag(d)
    }
}

/// The direction in which cells are crossed along one axis.
pub open spec fn step_of(d: int) -> int {
    if d < 0 {
        -1
    } else {
        1
    }
}

/// The distance along the ray from the origin to the first grid line of one
/// axis.
pub open spec fn first_crossing(p: int, d: int) -> int {
    if d < 0 {
        fract_of(p) * delta_dist(d) / (ONE as int)
    } else {
        (ONE - fract_of(p)) * delta_dist(d) / (ONE as int)
    }
}

/// The walk before its first step.
pub open spec fn walk_start(px: int, py: int, ray: Ray) -> Walk {
    Walk {
        x: floor_of(px),
        y: floor_of(py),
        sx: first_crossing(px, ray.dx as int),
        sy: first_crossing(py, ray.dy as int),
        side: 0,
    }
}

/// One step: cross the nearer grid line, the horizontal one on a tie.
pub open spec fn walk_step(w: Walk, ray: Ray) -> Walk {
    if w.sx < w.sy {
        Walk { x: w.x + step_of(ray.dx as int), sx: w.sx + delta_dist(ray.dx as int), side: 0, ..w }
    } else {
        Walk { y: w.y + step_of(ray.dy as int), sy: w.sy + delta_dist(ray.dy as int), side: 1, ..w }
    }
}

/// The walk after `n` steps, whatever the tiles.
pub open spec fn walk_nth(w: Walk, ray: Ray, n: nat) -> Walk
    decreases n,
{
    if n == 0 {
        w
    } else {
        walk_nth(walk_step(w, ray), ray, (n - 1) as nat)
    }
}

/// Where a walk from `w` ends when it may look at `fuel` cells, and whether
/// it ended on a solid tile (`true`) or was cut off (`false`).
pub open spec fn walk_from(map: &TileMap, ray: Ray, w: Walk, fuel: nat) -> (Walk, bool)
    decreases fuel,
{
    if fuel == 0 {
        (w, false)
    } else if map.is_wall(w.x, w.y) {
        (w, true)
    } else {
        walk_from(map, ray, walk_step(w, ray), (fuel - 1) as nat)
    }
}

/// The number of steps that a walk from `w` takes when it may look at `fuel`
/// cells.
pub open spec fn walk_len(map: &TileMap, ray: Ray, w: Walk, fuel: nat) -> nat
    decreases fuel,
{
    if fuel == 0 || map.is_wall(w.x, w.y) {
        0
    } else {
        1 + walk_len(map, ray, walk_step(w, ray), (fuel - 1) as nat)
    }
}

/// The signed distance along one axis from the origin to the grid line that
/// was crossed to enter `cell`.
pub open spec fn line_offset(cell: int, p: int, d: int) -> int {
    cell * ONE - p + if d < 0 {
        ONE as int
    } else {
        0
    }
}

/// The perpendicular distance: the offset to the line divided by the
/// direction component across it, never below [`MIN_DIST`]; [`FAR`] where
/// that component counts as zero.
pub open spec fn perp_dist(offset: int, across: int) -> int {
    if mag(across) < EPSILON {
        FAR as int
    } else {
        let q = mag(offset) * ONE / mag(across);
        if q < MIN_DIST {
            MIN_DIST as int
        } else {
            q
        }
    }
}

/// How far the ray moved along the face while it covered `offset` across it.
pub open spec fn travel(offset: int, across: int, along: int) -> int {
    if mag(across) < EPSILON {
        0
    } else {
        div_trunc(offset * along, across)
    }
}

/// The hit that a finished walk stands for.
pub open spec fn hit_of(map: &TileMap, px: int, py: int, ray: Ray, end: (Walk, bool)) -> HitModel {
    let w = end.0;
    let offset = if w.side == 0 {
        line_offset(w.x, px, ray.dx as int)
    } else {
        line_offset(w.y, py, ray.dy as int)
    };
    let across = if w.side == 0 {
        ray.dx as int
    } else {
        ray.dy as int
    };
    let along = if w.side == 0 {
        ray.dy as int
    } else {
        ray.dx as int
    };
    let base = if w.side == 0 {
        py
    } else {
        px
    };
    let coord = base + travel(offset, across, along);
    HitModel {
        dist: perp_dist(offset, across),
        tile: if end.1 {
            map.tile(w.x, w.y)
        } else {
            BOUNDARY_WALL
        },
        side: w.side,
        u: fract_of(coord),
        coord,
    }
}

/// What [`cast`] returns: the hit at the end of a walk of at most
/// [`MAX_STEPS`] steps from the origin's cell.
pub open spec fn cast_spec(map: &TileMap, px: int, py: int, ray: Ray) -> HitModel {
    hit_of(map, px, py, ray, walk_from(map, ray, walk_start(px, py, ray), MAX_STEPS as nat))
}

/// The distance between grid lines for one direction component.
fn delta_dist_of(d: i64) -> (delta: i64)
    requires
        -0x8000_0000 <= d <= 0x8000_0000,
    ensures
        delta == delta_dist(d as int),
        0 < delta <= FAR,
{
    let m: i64 = abs_i64(d);
    if m < EPSILON {
        FAR
    } else {
        proof {
            lemma_delta_positive(d as int);
        }
        (ONE * ONE) / m
    }
}

/// The distance to the first grid line of one axis.
fn first_crossing_of(p: i64, d: i64, delta: i64) -> (s: i64)
    requires
        delta == delta_dist(d as int),
        0 < delta <= FAR,
    ensures
        s == first_crossing(p as int, d as int),
        0 <= s <= FAR,
{
    let c: i64 = floor_fixed(p);
    let f: i64 = p - c * ONE;
    if d < 0 {
        scale_fixed(f, delta)
    } else {
        scale_fixed(ONE - f, delta)
    }
}

/// The perpendicular distance for an offset and the component across.
fn perp_dist_of(offset: i64, across: i64) -> (dist: i64)
    requires
        -0x100_0000 <= offset <= 0x100_0000,
        -0x8000_0000 <= across <= 0x8000_0000,
    ensures
        dist == perp_dist(offset as int, across as int),
        MIN_DIST <= dist <= FAR,
{
    let m: i64 = abs_i64(across);
    if m < EPSILON {
        FAR
    } else {
        let n: i64 = abs_i64(offset);
        proof {
            lemma_div_bounds(n * ONE, m as int);
        }
        let q: i64 = (n * ONE) / m;
        if q < MIN_DIST {
            MIN_DIST
        } else {
            q
        }
    }
}

/// The movement along the face for an offset across it.
fn travel_of(offset: i64, across: i64, along: i64) -> (t: i64)
    requires
        -0x100_0000 <= offset <= 0x100_0000,
        -0x8000_0000 <= across <= 0x8000_0000,
        -0x8000_0000 <= along <= 0x8000_0000,
    ensures
        t == travel(offset as int, across as int, along as int),
        -0x80_0000_0000_0000 <= t <= 0x80_0000_0000_0000,
{
    let m: i64 = abs_i64(across);
    if m < EPSILON {
        0
    } else {
        assert(-0x80_0000_0000_0000 <= offset * along <= 0x80_0000_0000_0000)
            by (nonlinear_arith)
            requires
                -0x100_0000 <= offset <= 0x100_0000,
                -0x8000_0000 <= along <= 0x8000_0000,
        ;
        div_trunc_i64(offset * along, across)
    }
}

/// Casts a ray from `(px, py)` along `ray` and reports where it stops.
///
/// The walk starts in the origin's cell and crosses one grid line per step.
/// It stops on the first cell whose tile is not 0; every cell outside the
/// grid is a boundary wall, and a walk cut off after [`MAX_STEPS`] steps
/// counts as a boundary wall too.
pub fn cast(map: &TileMap, px: i32, py: i32, ray: Ray) -> (hit: RayHit)
    requires
        map.wf(),
    ensures
        hit@ == cast_spec(map, px as int, py as int, ray),
        MIN_DIST <= hit.dist <= FAR,
        hit.tile != 0,
        hit.side == 0 || hit.side == 1,
        0 <= hit.u < ONE,
{
    let dx: i64 = ray.dx as i64;
    let dy: i64 = ray.dy as i64;
    let delta_x: i64 = delta_dist_of(dx);
    let delta_y: i64 = delta_dist_of(dy);
    let step_x: i64 = if dx < 0 { -1 } else { 1 };
    let step_y: i64 = if dy < 0 { -1 } else { 1 };
    let x0: i64 = floor_fixed(px as i64);
    let y0: i64 = floor_fixed(py as i64);
    let mut x: i64 = x0;
    let mut y: i64 = y0;
    let mut sx: i64 = first_crossing_of(px as i64, dx, delta_x);
    let mut sy: i64 = first_crossing_of(py as i64, dy, delta_y);
    let mut side: i32 = 0;
    let mut tile: u8 = BOUNDARY_WALL;
    let mut found: bool = false;
    let mut n: u32 = 0;
    let ghost start = walk_start(px as int, py as int, ray);
    while n < MAX_STEPS && !found
        invariant
            map.wf(),
            n <= MAX_STEPS,
            dx == ray.dx,
            dy == ray.dy,
            delta_x == delta_dist(dx as int),
            delta_y == delta_dist(dy as int),
            0 < delta_x <= FAR,
            0 < delta_y <= FAR,
            step_x == step_of(dx as int),
            step_y == step_of(dy as int),
            x0 - n <= x <= x0 + n,
            y0 - n <= y <= y0 + n,
            -0x8000 <= x0 < 0x8000,
            -0x8000 <= y0 < 0x8000,
            0 <= sx <= (n + 1) * 0x80_0000_0000_0000,
            0 <= sy <= (n + 1) * 0x80_0000_0000_0000,
            side == 0 || side == 1,
            tile != 0,
            !found ==> tile == BOUNDARY_WALL,
            !found ==> walk_from(map, ray, start, MAX_STEPS as nat) == walk_from(
                map,
                ray,
                Walk { x: x as int, y: y as int, sx: sx as int, sy: sy as int, side: side as int },
                (MAX_STEPS - n) as nat,
            ),
            found ==> walk_from(map, ray, start, MAX_STEPS as nat) == (
                Walk { x: x as int, y: y as int, sx: sx as int, sy: sy as int, side: side as int },
                true,
            ) && tile == map.tile(x as int, y as int),
        decreases
            if found {
                0int
            } else {
                MAX_STEPS - n + 1
            },
    {
        let t: u8 = map.at(x as i32, y as i32);
        if t != 0 {
            tile = t;
            found = true;
        } else {
            if sx < sy {
                sx = sx + delta_x;
                x = x + step_x;
                side = 0;
            } else {
                sy = sy + delta_y;
                y = y + step_y;
                side = 1;
            }
            n = n + 1;
        }
    }
    let ghost last = Walk {
        x: x as int,
        y: y as int,
        sx: sx as int,
        sy: sy as int,
        side: side as int,
    };
    let ghost end = walk_from(map, ray, start, MAX_STEPS as nat);
    proof {
        assert(end == (last, found));
    }
    let offset: i64 = if side == 0 {
        x * ONE - (px as i64) + (if dx < 0 { ONE } else { 0 })
    } else {
        y * ONE - (py as i64) + (if dy < 0 { ONE } else { 0 })
    };
    let across: i64 = if side == 0 { dx } else { dy };
    let along: i64 = if side == 0 { dy } else { dx };
    let base: i64 = if side == 0 { py as i64 } else { px as i64 };
    let dist: i64 = perp_dist_of(offset, across);
    let coord: i64 = base + travel_of(offset, across, along);
    let whole: i64 = floor_fixed(coord);
    let u: i64 = coord - whole * ONE;
    RayHit { dist, tile, side, u: u as i32, coord }
}

/// A walk ends on the first solid cell on its way: it passes only empty
/// cells, and it stops either on a solid cell or, having looked at `fuel`
/// empty cells, where the next step took it.
pub proof fn lemma_walk_stops_at_first_wall(map: &TileMap, ray: Ray, w: Walk, fuel: nat)
    ensures
        walk_len(map, ray, w, fuel) <= fuel,
        walk_from(map, ray, w, fuel).0 == walk_nth(w, ray, walk_len(map, ray, w, fuel)),
        forall|j: nat|
            j < walk_len(map, ray, w, fuel) ==> !map.is_wall(
                (#[trigger] walk_nth(w, ray, j)).x,
                walk_nth(w, ray, j).y,
            ),
        walk_from(map, ray, w, fuel).1 <==> walk_len(map, ray, w, fuel) < fuel,
        walk_from(map, ray, w, fuel).1 ==> map.is_wall(
            walk_from(map, ray, w, fuel).0.x,
            walk_from(map, ray, w, fuel).0.y,
        ),
    decreases fuel,
{
    if fuel == 0 || map.is_wall(w.x, w.y) {
    } else {
        let next = walk_step(w, ray);
        let rest = (fuel - 1) as nat;
        lemma_walk_stops_at_first_wall(map, ray, next, rest);
        let n = walk_len(map, ray, w, fuel);
        assert forall|j: nat| j < n implies !map.is_wall(
            (#[trigger] walk_nth(w, ray, j)).x,
            walk_nth(w, ray, j).y,
        ) by {
            if j > 0 {
                assert(walk_nth(w, ray, j) == walk_nth(next, ray, (j - 1) as nat));
            }
        }
    }
}

/// The distance along the ray to the next grid line that a walk crosses.
pub open spec fn next_crossing(w: Walk) -> int {
    if w.sx < w.sy {
        w.sx
    } else {
        w.sy
    }
}

/// A walk crosses the grid lines in the order in which the ray meets them:
/// the distance along the ray to the line crossed next never falls from one
/// step to the following one.
pub proof fn lemma_crossings_in_order(w: Walk, ray: Ray, n: nat)
    ensures
        next_crossing(walk_nth(w, ray, n)) <= next_crossing(walk_nth(w, ray, n + 1)),
    decreases n,
{
    lemma_delta_positive(ray.dx as int);
    lemma_delta_positive(ray.dy as int);
    if n == 0 {
        assert(walk_nth(w, ray, 1) == walk_step(w, ray)) by {
            assert(walk_nth(walk_step(w, ray), ray, 0) == walk_step(w, ray));
        }
    } else {
        lemma_crossings_in_order(walk_step(w, ray), ray, (n - 1) as nat);
    }
}

/// The distance between two grid lines of an axis is positive.
pub proof fn lemma_delta_positive(d: int)
    requires
        -0x8000_0000 <= d <= 0x8000_0000,
    ensures
        0 < delta_dist(d) <= FAR,
{
    if mag(d) >= EPSILON {
        lemma_div_bounds(ONE * ONE, mag(d));
        vstd::arithmetic::div_mod::lemma_div_is_ordered_by_denominator(
            ONE * ONE,
            mag(d),
            0x8000_0000,
        );
    }
}

/// What [`cast`] reports is never zero, negative or beyond [`FAR`], whatever
/// the ray: also for a ray that runs along a grid axis, and for one whose
/// direction is the zero vector.
pub proof fn lemma_cast_distance_bounded(map: &TileMap, px: int, py: int, ray: Ray)
    requires
        map.wf(),
        -0x8000_0000 <= px < 0x8000_0000,
        -0x8000_0000 <= py < 0x8000_0000,
    ensures
        MIN_DIST <= cast_spec(map, px, py, ray).dist <= FAR,
        cast_spec(map, px, py, ray).tile != 0,
{
    let end = walk_from(map, ray, walk_start(px, py, ray), MAX_STEPS as nat);
    lemma_walk_stops_at_first_wall(map, ray, walk_start(px, py, ray), MAX_STEPS as nat);
    let w = end.0;
    let offset = if w.side == 0 {
        line_offset(w.x, px, ray.dx as int)
    } else {
        line_offset(w.y, py, ray.dy as int)
    };
    let across = if w.side == 0 {
        ray.dx as int
    } else {
        ray.dy as int
    };
    if mag(across) >= EPSILON {
        lemma_walk_reach(walk_start(px, py, ray), ray, walk_len(map, ray, walk_start(px, py, ray), MAX_STEPS as nat));
        assert(mag(offset) <= 0x100_0000);
        assert(mag(offset) * ONE <= 0x100_0000 * 65536) by (nonlinear_arith)
            requires
                mag(offset) <= 0x100_0000,
        ;
        lemma_div_bounds(mag(offset) * ONE, mag(across));
    }
}

/// A walk of `n` steps ends at most `n` cells from where it began, along
/// either axis.
pub proof fn lemma_walk_reach(w: Walk, ray: Ray, n: nat)
    ensures
        w.x - n <= walk_nth(w, ray, n).x <= w.x + n,
        w.y - n <= walk_nth(w, ray, n).y <= w.y + n,
    decreases n,
{
    if n > 0 {
        lemma_walk_reach(walk_step(w, ray), ray, (n - 1) as nat);
    }
}

/// While the next vertical line stays nearer than the next horizontal one,
/// a walk moves along x only.
proof fn lemma_walk_straight_x(w: Walk, ray: Ray, n: nat)
    requires
        n == 0 || w.sx + (n - 1) * delta_dist(ray.dx as int) < w.sy,
        delta_dist(ray.dx as int) > 0,
    ensures
        walk_nth(w, ray, n) == (Walk {
            x: w.x + n * step_of(ray.dx as int),
            y: w.y,
            sx: w.sx + n * delta_dist(ray.dx as int),
            sy: w.sy,
            side: if n == 0 {
                w.side
            } else {
                0
            },
        }),
    decreases n,
{
    let delta = delta_dist(ray.dx as int);
    let step = step_of(ray.dx as int);
    if n > 0 {
        assert((n - 1) * delta >= 0) by (nonlinear_arith)
            requires
                n >= 1,
                delta > 0,
        ;
        let next = walk_step(w, ray);
        if n > 1 {
            assert(delta + (n - 2) * delta == (n - 1) * delta) by (nonlinear_arith);
        }
        lemma_walk_straight_x(next, ray, (n - 1) as nat);
        assert(step + (n - 1) * step == n * step) by (nonlinear_arith);
        assert(delta + (n - 1) * delta == n * delta) by (nonlinear_arith);
    }
}

/// While the next horizontal line stays at least as near as the next
/// vertical one, a walk moves along y only.
proof fn lemma_walk_straight_y(w: Walk, ray: Ray, n: nat)
    requires
        n == 0 || w.sy + (n - 1) * delta_dist(ray.dy as int) <= w.sx,
        delta_dist(ray.dy as int) > 0,
    ensures
        walk_nth(w, ray, n) == (Walk {
            x: w.x,
            y: w.y + n * step_of(ray.dy as int),
            sx: w.sx,
            sy: w.sy + n * delta_dist(ray.dy as int),
            side: if n == 0 {
                w.side
            } else {
                1
            },
        }),
    decreases n,
{
    let delta = delta_dist(ray.dy as int);
    let step = step_of(ray.dy as int);
    if n > 0 {
        assert((n - 1) * delta >= 0) by (nonlinear_arith)
            requires
                n >= 1,
                delta > 0,
        ;
        let next = walk_step(w, ray);
        if n > 1 {
            assert(delta + (n - 2) * delta == (n - 1) * delta) by (nonlinear_arith);
        }
        lemma_walk_straight_y(next, ray, (n - 1) as nat);
        assert(step + (n - 1) * step == n * step) by (nonlinear_arith);
        assert(delta + (n - 1) * delta == n * delta) by (nonlinear_arith);
    }
}

/// The first crossing of an axis that the ray runs exactly parallel to is
/// farther than two hundred steps along the other axis can reach.
proof fn lemma_parallel_axis_is_far(p: int, d: int, n: nat, q: int)
    requires
        mag(d) >= EPSILON,
        -0x8000_0000 <= d <= 0x8000_0000,
        n <= MAX_STEPS,
    ensures
        0 < delta_dist(d) <= 613566756,
        0 <= first_crossing(p, d) <= delta_dist(d),
        first_crossing(p, d) + n * delta_dist(d) < first_crossing(q, 0),
{
    let delta = delta_dist(d);
    lemma_div_bounds(ONE * ONE, mag(d));
    vstd::arithmetic::div_mod::lemma_div_is_ordered_by_denominator(ONE * ONE, 7, mag(d));
    vstd::arithmetic::div_mod::lemma_div_is_ordered_by_denominator(ONE * ONE, mag(d), 0x8000_0000);
    let f = if d < 0 {
        fract_of(p)
    } else {
        ONE - fract_of(p)
    };
    assert(0 <= f * delta <= 65536 * delta) by (nonlinear_arith)
        requires
            0 <= f <= 65536,
            0 <= delta,
    ;
    lemma_div_monotone(0, f * delta, 65536);
    lemma_div_monotone(f * delta, 65536 * delta, 65536);
    vstd::arithmetic::div_mod::lemma_div_multiples_vanish(delta, 65536);
    let g = ONE - fract_of(q);
    assert(g * FAR >= FAR) by (nonlinear_arith)
        requires
            g >= 1,
            FAR == 0x80_0000_0000_0000,
    ;
    lemma_div_monotone(FAR as int, g * FAR, 65536);
    assert(n * delta <= 200 * 613566756) by (nonlinear_arith)
        requires
            n <= 200,
            0 <= delta <= 613566756,
    ;
}

/// The cell that lies `j` steps from the origin's along one axis.
pub open spec fn cell_along(p: int, d: int, j: int) -> int {
    floor_of(p) + j * step_of(d)
}

/// A ray along the x axis stays in the row of its origin: it stops on the
/// first solid cell of that row in its direction, the face it hits is a
/// vertical one, and the distance is the distance along x to that face
/// divided by the ray's x component.
pub proof fn lemma_cast_along_x(map: &TileMap, px: int, py: int, ray: Ray)
    requires
        map.wf(),
        ray.dy == 0,
        mag(ray.dx as int) >= EPSILON,
    ensures
        ({
            let hit = cast_spec(map, px, py, ray);
            let n = walk_len(map, ray, walk_start(px, py, ray), MAX_STEPS as nat);
            let cell = cell_along(px, ray.dx as int, n as int);
            &&& n <= MAX_STEPS
            &&& forall|j: int|
                0 <= j < n ==> !map.is_wall(
                    #[trigger] cell_along(px, ray.dx as int, j),
                    floor_of(py),
                )
            &&& n < MAX_STEPS ==> hit.tile == map.tile(cell, floor_of(py))
            &&& hit.side == 0
            &&& hit.dist == perp_dist(line_offset(cell, px, ray.dx as int), ray.dx as int)
            &&& MIN_DIST <= hit.dist < FAR
            &&& hit.coord == py
        }),
{
    let start = walk_start(px, py, ray);
    let n = walk_len(map, ray, start, MAX_STEPS as nat);
    let dx = ray.dx as int;
    lemma_walk_stops_at_first_wall(map, ray, start, MAX_STEPS as nat);
    assert forall|j: nat| j <= n implies #[trigger] walk_nth(start, ray, j) == (Walk {
        x: start.x + j * step_of(dx),
        y: start.y,
        sx: start.sx + j * delta_dist(dx),
        sy: start.sy,
        side: 0,
    }) by {
        lemma_parallel_axis_is_far(px, dx, j, py);
        if j > 0 {
            lemma_parallel_axis_is_far(px, dx, (j - 1) as nat, py);
        }
        lemma_walk_straight_x(start, ray, j);
    }
    assert forall|j: int| 0 <= j < n implies !map.is_wall(
        #[trigger] cell_along(px, dx, j),
        floor_of(py),
    ) by {
        let w = walk_nth(start, ray, j as nat);
        assert(!map.is_wall(w.x, w.y));
    }
    let cell = floor_of(px) + n * step_of(dx);
    let offset = line_offset(cell, px, dx);
    assert(mag(offset) <= 201 * 65536) by (nonlinear_arith)
        requires
            offset == cell * 65536 - px + if dx < 0 {
                65536int
            } else {
                0int
            },
            cell == px / 65536 + n * step_of(dx),
            n <= 200,
            0 <= px - (px / 65536) * 65536 < 65536,
            step_of(dx) == 1 || step_of(dx) == -1,
            dx < 0 <==> step_of(dx) == -1,
    ;
    assert(mag(offset) * ONE <= 201 * 65536 * 65536) by (nonlinear_arith)
        requires
            0 <= mag(offset) <= 201 * 65536,
    ;
    lemma_div_bounds(mag(offset) * ONE, mag(dx));
    assert(div_trunc(offset * 0, dx) == 0) by {
        assert(offset * 0 == 0);
        vstd::arithmetic::div_mod::lemma_div_basics(mag(dx));
    }
}

/// A ray along the y axis stays in the column of its origin: it stops on
/// the first solid cell of that column in its direction, the face it hits is
/// a horizontal one, and the distance is the distance along y to that face
/// divided by the ray's y component.
pub proof fn lemma_cast_along_y(map: &TileMap, px: int, py: int, ray: Ray)
    requires
        map.wf(),
        ray.dx == 0,
        mag(ray.dy as int) >= EPSILON,
    ensures
        ({
            let hit = cast_spec(map, px, py, ray);
            let n = walk_len(map, ray, walk_start(px, py, ray), MAX_STEPS as nat);
            let cell = cell_along(py, ray.dy as int, n as int);
            &&& n <= MAX_STEPS
            &&& forall|j: int|
                0 <= j < n ==> !map.is_wall(
                    floor_of(px),
                    #[trigger] cell_along(py, ray.dy as int, j),
                )
            &&& n < MAX_STEPS ==> hit.tile == map.tile(floor_of(px), cell)
            &&& n > 0 ==> hit.side == 1
            &&& n > 0 ==> hit.dist == perp_dist(
                line_offset(cell, py, ray.dy as int),
                ray.dy as int,
            )
            &&& n > 0 ==> MIN_DIST <= hit.dist < FAR
            &&& n > 0 ==> hit.coord == px
        }),
{
    let start = walk_start(px, py, ray);
    let n = walk_len(map, ray, start, MAX_STEPS as nat);
    let dy = ray.dy as int;
    lemma_walk_stops_at_first_wall(map, ray, start, MAX_STEPS as nat);
    assert forall|j: nat| j <= n implies #[trigger] walk_nth(start, ray, j) == (Walk {
        x: start.x,
        y: start.y + j * step_of(dy),
        sx: start.sx,
        sy: start.sy + j * delta_dist(dy),
        side: if j == 0 {
            0int
        } else {
            1int
        },
    }) by {
        lemma_parallel_axis_is_far(py, dy, j, px);
        if j > 0 {
            lemma_parallel_axis_is_far(py, dy, (j - 1) as nat, px);
        }
        lemma_walk_straight_y(start, ray, j);
    }
    assert forall|j: int| 0 <= j < n implies !map.is_wall(
        floor_of(px),
        #[trigger] cell_along(py, dy, j),
    ) by {
        let w = walk_nth(start, ray, j as nat);
        assert(!map.is_wall(w.x, w.y));
    }
    let cell = floor_of(py) + n * step_of(dy);
    let offset = line_offset(cell, py, dy);
    assert(mag(offset) <= 201 * 65536) by (nonlinear_arith)
        requires
            offset == cell * 65536 - py + if dy < 0 {
                65536int
            } else {
                0int
            },
            cell == py / 65536 + n * step_of(dy),
            n <= 200,
            0 <= py - (py / 65536) * 65536 < 65536,
            step_of(dy) == 1 || step_of(dy) == -1,
            dy < 0 <==> step_of(dy) == -1,
    ;
    assert(mag(offset) * ONE <= 201 * 65536 * 65536) by (nonlinear_arith)
        requires
            0 <= mag(offset) <= 201 * 65536,
    ;
    lemma_div_bounds(mag(offset) * ONE, mag(dy));
    assert(div_trunc(offset * 0, dy) == 0) by {
        assert(offset * 0 == 0);
        vstd::arithmetic::div_mod::lemma_div_basics(mag(dy));
    }
}

/// The distance along one axis from the origin to the first grid line that
/// the ray heads for, in `[0, ONE]`.
pub open spec fn to_first_line(p: int, d: int) -> int {
    if d < 0 {
        fract_of(p)
    } else {
        ONE - fract_of(p)
    }
}

/// The number of grid lines of one axis that lie between the origin and
/// the cell `cell`, seen along the ray.
pub open spec fn lines_crossed(cell: int, p: int, d: int) -> int {
    (cell - floor_of(p)) * step_of(d)
}

/// Where the ray truly meets grid line `k` of an axis: the distance along
/// the ray is this number divided by the magnitude of the ray's component
/// along that axis.
pub open spec fn true_crossing(p: int, d: int, k: int) -> int {
    (to_first_line(p, d) + k * ONE) * ONE
}

/// After any number of steps, a walk holds for each axis the distance to the
/// first grid line plus one step between lines for every line crossed, and
/// it has crossed as many lines in all as it took steps.
pub proof fn lemma_walk_counts_lines(w: Walk, ray: Ray, n: nat)
    ensures
        ({
            let end = walk_nth(w, ray, n);
            let kx = (end.x - w.x) * step_of(ray.dx as int);
            let ky = (end.y - w.y) * step_of(ray.dy as int);
            &&& 0 <= kx
            &&& 0 <= ky
            &&& kx + ky == n
            &&& end.sx == w.sx + kx * delta_dist(ray.dx as int)
            &&& end.sy == w.sy + ky * delta_dist(ray.dy as int)
        }),
    decreases n,
{
    if n > 0 {
        let next = walk_step(w, ray);
        let end = walk_nth(w, ray, n);
        lemma_walk_counts_lines(next, ray, (n - 1) as nat);
        let sx = step_of(ray.dx as int);
        let sy = step_of(ray.dy as int);
        let dx = delta_dist(ray.dx as int);
        let dy = delta_dist(ray.dy as int);
        let kx1 = (end.x - next.x) * sx;
        let ky1 = (end.y - next.y) * sy;
        if w.sx < w.sy {
            assert((end.x - w.x) * sx == kx1 + 1) by (nonlinear_arith)
                requires
                    next.x == w.x + sx,
                    kx1 == (end.x - next.x) * sx,
                    sx == 1 || sx == -1,
            ;
            assert((kx1 + 1) * dx == kx1 * dx + dx) by (nonlinear_arith);
        } else {
            assert((end.y - w.y) * sy == ky1 + 1) by (nonlinear_arith)
                requires
                    next.y == w.y + sy,
                    ky1 == (end.y - next.y) * sy,
                    sy == 1 || sy == -1,
            ;
            assert((ky1 + 1) * dy == ky1 * dy + dy) by (nonlinear_arith);
        }
    } else {
        assert(0 * delta_dist(ray.dx as int) == 0) by (nonlinear_arith);
        assert(0 * delta_dist(ray.dy as int) == 0) by (nonlinear_arith);
        assert(0 * step_of(ray.dx as int) == 0) by (nonlinear_arith);
        assert(0 * step_of(ray.dy as int) == 0) by (nonlinear_arith);
    }
}

/// What a walk holds as the distance to grid line `k` of an axis is the true
/// distance rounded down, and less than `k + 2` below it: with `m` the
/// magnitude of the ray's component along the axis, `m` times the held
/// distance is at most the true crossing, which is less than `m` times the
/// held distance plus `k + 2`.
pub proof fn lemma_held_distance_is_close(p: int, d: int, k: int)
    requires
        mag(d) >= EPSILON,
        0 <= k,
    ensures
        mag(d) * (first_crossing(p, d) + k * delta_dist(d)) <= true_crossing(p, d, k),
        true_crossing(p, d, k) < mag(d) * (first_crossing(p, d) + k * delta_dist(d) + k + 2),
{
    let m = mag(d);
    let one = ONE as int;
    let delta = delta_dist(d);
    let f = to_first_line(p, d);
    let s0 = first_crossing(p, d);
    assert(delta == (one * one) / m);
    vstd::arithmetic::div_mod::lemma_fundamental_div_mod(one * one, m);
    vstd::arithmetic::div_mod::lemma_mod_bound(one * one, m);
    assert(m * delta == delta * m) by (nonlinear_arith);
    assert(delta * m <= one * one < delta * m + m);
    assert(0 <= delta) by {
        lemma_div_bounds(one * one, m);
    }
    assert(0 <= f <= one);
    assert(s0 == (f * delta) / one);
    assert(0 <= f * delta) by (nonlinear_arith)
        requires
            0 <= f,
            0 <= delta,
    ;
    vstd::arithmetic::div_mod::lemma_fundamental_div_mod(f * delta, one);
    vstd::arithmetic::div_mod::lemma_mod_bound(f * delta, one);
    assert(one * s0 == s0 * one) by (nonlinear_arith);
    assert(s0 * one <= f * delta < s0 * one + one);
    // The first line: m * s0 <= f * ONE < m * (s0 + 2).
    assert(m * s0 * one <= f * (one * one)) by (nonlinear_arith)
        requires
            s0 * one <= f * delta,
            delta * m <= one * one,
            0 <= f,
            0 < m,
    ;
    assert(m * s0 <= f * one) by (nonlinear_arith)
        requires
            m * s0 * one <= f * (one * one),
            one == 65536,
    ;
    assert(f * (one * one) < (s0 + 2) * m * one) by (nonlinear_arith)
        requires
            f * delta < s0 * one + one,
            one * one < delta * m + m,
            0 <= f <= one,
            0 < m,
            0 <= delta,
    ;
    assert(f * one < (s0 + 2) * m) by (nonlinear_arith)
        requires
            f * (one * one) < (s0 + 2) * m * one,
            one == 65536,
    ;
    // The lines after it: k * delta * m <= k * ONE * ONE <= k * delta * m + k * m.
    assert(k * delta * m <= k * (one * one) && k * (one * one) <= k * delta * m + k * m)
        by (nonlinear_arith)
        requires
            0 <= k,
            delta * m <= one * one < delta * m + m,
    ;
    assert(m * (s0 + k * delta) == m * s0 + k * delta * m) by (nonlinear_arith);
    assert(m * (s0 + k * delta + k + 2) == (s0 + 2) * m + k * delta * m + k * m)
        by (nonlinear_arith);
    assert((f + k * one) * one == f * one + k * (one * one)) by (nonlinear_arith);
}

/// A walk follows the ray: the grid line that it crosses next is the one
/// that the ray meets first, give or take the rounding of the distances it
/// holds. Where it is about to cross a vertical line, having crossed `kx` of
/// them, the ray meets that line less than `kx + 1` fixed-point units of
/// distance after the next horizontal one, if after it at all; and likewise
/// with the axes exchanged. (The true distances are fractions; the claims
/// are stated with both sides multiplied by both denominators.)
pub proof fn lemma_walk_follows_the_ray(px: int, py: int, ray: Ray, n: nat)
    requires
        mag(ray.dx as int) >= EPSILON,
        mag(ray.dy as int) >= EPSILON,
    ensures
        ({
            let w = walk_nth(walk_start(px, py, ray), ray, n);
            let kx = lines_crossed(w.x, px, ray.dx as int);
            let ky = lines_crossed(w.y, py, ray.dy as int);
            let mx = mag(ray.dx as int);
            let my = mag(ray.dy as int);
            let tx = true_crossing(px, ray.dx as int, kx);
            let ty = true_crossing(py, ray.dy as int, ky);
            &&& 0 <= kx
            &&& 0 <= ky
            &&& kx + ky == n
            &&& w.sx < w.sy ==> tx * my < ty * mx + (kx + 1) * (mx * my)
            &&& w.sx >= w.sy ==> ty * mx < tx * my + (ky + 2) * (mx * my)
        }),
{
    let start = walk_start(px, py, ray);
    let w = walk_nth(start, ray, n);
    let dx = ray.dx as int;
    let dy = ray.dy as int;
    lemma_walk_counts_lines(start, ray, n);
    let kx = lines_crossed(w.x, px, dx);
    let ky = lines_crossed(w.y, py, dy);
    let mx = mag(dx);
    let my = mag(dy);
    let tx = true_crossing(px, dx, kx);
    let ty = true_crossing(py, dy, ky);
    lemma_held_distance_is_close(px, dx, kx);
    lemma_held_distance_is_close(py, dy, ky);
    assert(w.sx == first_crossing(px, dx) + kx * delta_dist(dx));
    assert(w.sy == first_crossing(py, dy) + ky * delta_dist(dy));
    assert(mx * w.sx <= tx < mx * (w.sx + kx + 2));
    assert(my * w.sy <= ty < my * (w.sy + ky + 2));
    if w.sx < w.sy {
        assert(tx * my < ty * mx + (kx + 1) * (mx * my)) by (nonlinear_arith)
            requires
                tx < mx * (w.sx + kx + 2),
                my * w.sy <= ty,
                w.sx + 1 <= w.sy,
                0 < mx,
                0 < my,
        ;
    } else {
        assert(ty * mx < tx * my + (ky + 2) * (mx * my)) by (nonlinear_arith)
            requires
                ty < my * (w.sy + ky + 2),
                mx * w.sx <= tx,
                w.sy <= w.sx,
                0 < mx,
                0 < my,
        ;
    }
}

/// The distance that a cast reports is a true one: the offset to the line
/// through which a cell was entered, taken as a distance along the ray, is
/// where the ray truly meets that line.
pub proof fn lemma_offset_is_true_crossing(cell: int, p: int, d: int)
    requires
        lines_crossed(cell, p, d) >= 1,
    ensures
        mag(line_offset(cell, p, d)) * ONE == true_crossing(p, d, lines_crossed(cell, p, d) - 1),
{
    let k = lines_crossed(cell, p, d);
    vstd::arithmetic::div_mod::lemma_fundamental_div_mod(p, ONE as int);
    vstd::arithmetic::div_mod::lemma_mod_bound(p, ONE as int);
    assert(p == floor_of(p) * ONE + fract_of(p)) by {
        assert(ONE * floor_of(p) == floor_of(p) * ONE) by (nonlinear_arith);
    }
    if d < 0 {
        assert(cell == floor_of(p) - k) by (nonlinear_arith)
            requires
                k == (cell - floor_of(p)) * (-1int),
        ;
        assert(cell * ONE == floor_of(p) * ONE - k * ONE) by (nonlinear_arith)
            requires
                cell == floor_of(p) - k,
        ;
    } else {
        assert(cell == floor_of(p) + k) by (nonlinear_arith)
            requires
                k == (cell - floor_of(p)) * 1int,
        ;
        assert(cell * ONE == floor_of(p) * ONE + k * ONE) by (nonlinear_arith)
            requires
                cell == floor_of(p) + k,
        ;
    }
    assert((k - 1) * ONE == k * ONE - ONE) by (nonlinear_arith);
}

/// Whether every cell of the grid is empty.
pub open spec fn is_open(map: &TileMap) -> bool {
    forall|x: int, y: int| map.inside(x, y) ==> #[trigger] map.tile(x, y) == 0
}

/// The coordinate of the grid's border that a ray with component `d` heads
/// for, along an axis with `cells` cells.
pub open spec fn border_ahead(cells: int, d: int) -> int {
    if d < 0 {
        0
    } else {
        cells * ONE
    }
}

/// The index of the first cell beyond that border.
pub open spec fn cell_beyond(cells: int, d: int) -> int {
    if d < 0 {
        -1
    } else {
        cells
    }
}

/// The number of cells between `w` and the borders that the ray heads for.
spec fn room_ahead(map: &TileMap, ray: Ray, w: Walk) -> int {
    (if ray.dx < 0 {
        w.x
    } else {
        map.w - 1 - w.x
    }) + (if ray.dy < 0 {
        w.y
    } else {
        map.h - 1 - w.y
    })
}

/// In a grid without walls, a walk that may look at enough cells ends on
/// the first cell beyond the border that it crossed last.
proof fn lemma_walk_leaves_open_map(map: &TileMap, ray: Ray, w: Walk, fuel: nat)
    requires
        is_open(map),
        map.inside(w.x, w.y),
        fuel >= room_ahead(map, ray, w) + 2,
    ensures
        ({
            let end = walk_from(map, ray, w, fuel);
            &&& end.1
            &&& !map.inside(end.0.x, end.0.y)
            &&& end.0.side == 0 || end.0.side == 1
            &&& end.0.side == 0 ==> end.0.x == cell_beyond(map.w as int, ray.dx as int)
            &&& end.0.side == 1 ==> end.0.y == cell_beyond(map.h as int, ray.dy as int)
        }),
    decreases fuel,
{
    assert(map.tile(w.x, w.y) == 0);
    let next = walk_step(w, ray);
    let rest = (fuel - 1) as nat;
    if map.inside(next.x, next.y) {
        lemma_walk_leaves_open_map(map, ray, next, rest);
    } else {
        assert(map.is_wall(next.x, next.y));
        assert(walk_from(map, ray, next, rest) == (next, true));
    }
}

/// In a grid without walls, a ray cast from inside hits the boundary wall,
/// and its distance is the distance to the grid's border along the axis
/// that it left by, divided by the ray's component along that axis.
pub proof fn lemma_cast_in_open_map(map: &TileMap, px: int, py: int, ray: Ray)
    requires
        map.wf(),
        is_open(map),
        map.inside(floor_of(px), floor_of(py)),
        map.w + map.h <= MAX_STEPS,
    ensures
        ({
            let hit = cast_spec(map, px, py, ray);
            &&& hit.tile == BOUNDARY_WALL
            &&& hit.side == 0 || hit.side == 1
            &&& hit.side == 0 ==> hit.dist == perp_dist(
                border_ahead(map.w as int, ray.dx as int) - px,
                ray.dx as int,
            )
            &&& hit.side == 1 ==> hit.dist == perp_dist(
                border_ahead(map.h as int, ray.dy as int) - py,
                ray.dy as int,
            )
        }),
{
    lemma_walk_leaves_open_map(map, ray, walk_start(px, py, ray), MAX_STEPS as nat);
}

/// Where the ray truly leaves a grid of `cells` cells along one axis: the
/// distance along the ray is this number divided by the magnitude of the
/// ray's component along that axis.
pub open spec fn exit_crossing(cells: int, p: int, d: int) -> int {
    mag(border_ahead(cells, d) - p) * ONE
}

/// Whether the distance `dist` lies no more than a thousandth above the
/// true distance `num / den`, or a thousandth of a tile where that is more:
/// `dist - t <= max(1, t) / 1000`, with both sides multiplied by `den`.
pub open spec fn within_thousandth(dist: int, num: int, den: int) -> bool {
    1000 * (dist * den - num) <= (if ONE * den > num {
        ONE * den
    } else {
        num
    })
}

/// The last step of a walk of `n + 1` steps is a step from where the walk
/// stood after `n`.
pub proof fn lemma_walk_last_step(w: Walk, ray: Ray, n: nat)
    ensures
        walk_nth(w, ray, n + 1) == walk_step(walk_nth(w, ray, n), ray),
    decreases n,
{
    if n == 0 {
        assert(walk_nth(walk_step(w, ray), ray, 0) == walk_step(w, ray));
    } else {
        lemma_walk_last_step(walk_step(w, ray), ray, (n - 1) as nat);
    }
}

/// From a cell of the grid, the ray meets the next grid line of an axis no
/// later than it leaves the grid along that axis; and it leaves the grid
/// where it meets the line into the first cell beyond.
pub proof fn lemma_lines_before_the_border(cells: int, cell: int, p: int, d: int)
    requires
        0 <= floor_of(p) < cells,
        0 <= cell < cells,
        0 <= lines_crossed(cell, p, d),
    ensures
        0 <= true_crossing(p, d, lines_crossed(cell, p, d)) <= exit_crossing(cells, p, d),
        cell + step_of(d) == cell_beyond(cells, d) ==> true_crossing(
            p,
            d,
            lines_crossed(cell, p, d),
        ) == exit_crossing(cells, p, d),
        true_crossing(p, d, lines_crossed(cell, p, d)) >= lines_crossed(cell, p, d) * (ONE * ONE),
{
    let k = lines_crossed(cell, p, d);
    let one = ONE as int;
    vstd::arithmetic::div_mod::lemma_fundamental_div_mod(p, one);
    vstd::arithmetic::div_mod::lemma_mod_bound(p, one);
    assert(one * floor_of(p) == floor_of(p) * one) by (nonlinear_arith);
    assert(p == floor_of(p) * one + fract_of(p));
    let f = to_first_line(p, d);
    assert((f + k * one) * one == f * one + k * (one * one)) by (nonlinear_arith);
    assert(0 <= f * one) by (nonlinear_arith)
        requires
            0 <= f,
            one == 65536,
    ;
    assert(0 <= k * (one * one)) by (nonlinear_arith)
        requires
            0 <= k,
            one == 65536,
    ;
    if d < 0 {
        assert(k == floor_of(p) - cell) by (nonlinear_arith)
            requires
                k == (cell - floor_of(p)) * (-1int),
        ;
        let gap = p - (f + k * one);
        assert(gap == cell * one) by (nonlinear_arith)
            requires
                gap == p - (fract_of(p) + k * one),
                p == floor_of(p) * one + fract_of(p),
                k == floor_of(p) - cell,
        ;
        assert(0 <= gap) by (nonlinear_arith)
            requires
                gap == cell * one,
                0 <= cell,
                one == 65536,
        ;
        assert(mag(0 - p) == p);
        assert((f + k * one) * one <= p * one) by (nonlinear_arith)
            requires
                f + k * one <= p,
                one == 65536,
        ;
    } else {
        assert(k == cell - floor_of(p)) by (nonlinear_arith)
            requires
                k == (cell - floor_of(p)) * 1int,
        ;
        let far = cells * one - p;
        let gap = far - (f + k * one);
        assert(gap == (cells - 1 - cell) * one) by (nonlinear_arith)
            requires
                gap == cells * one - p - (one - fract_of(p) + k * one),
                p == floor_of(p) * one + fract_of(p),
                k == cell - floor_of(p),
        ;
        assert(0 <= gap) by (nonlinear_arith)
            requires
                gap == (cells - 1 - cell) * one,
                cell <= cells - 1,
                one == 65536,
        ;
        assert(0 <= f + k * one) by (nonlinear_arith)
            requires
                0 <= f,
                0 <= k,
                one == 65536,
        ;
        assert(mag(far) == far);
        assert((f + k * one) * one <= far * one) by (nonlinear_arith)
            requires
                f + k * one <= far,
                one == 65536,
        ;
        if cell + 1 == cells {
            assert(gap == 0) by (nonlinear_arith)
                requires
                    gap == (cells - 1 - cell) * one,
                    cell + 1 == cells,
            ;
        }
    }
    if d < 0 && cell - 1 == -1 {
        assert(p - (f + k * one) == 0) by (nonlinear_arith)
            requires
                p - (f + k * one) == cell * one,
                cell == 0,
        ;
    }
}

/// Where a distance is the true distance along one axis rounded down, and
/// the ray meets the other axis's border less than `k + slack` units
/// before, the distance lies within a thousandth of both.
proof fn lemma_exit_tolerance(dist: int, ne: int, me: int, no: int, mo: int, k: int, slack: int)
    requires
        0 < me <= ONE,
        0 < mo,
        0 <= k,
        slack == 1 || slack == 2,
        dist * me <= ne < (dist + 1) * me,
        ne >= k * (ONE * ONE),
        0 <= no,
        ne * mo < no * me + (k + slack) * (me * mo),
    ensures
        within_thousandth(dist, ne, me),
        within_thousandth(dist, no, mo),
{
    let one = ONE as int;
    assert(0 <= one * me) by (nonlinear_arith)
        requires
            0 < me,
            one == 65536,
    ;
    // The distance is below the other axis's crossing plus `k + slack`.
    let z = dist * mo - no - (k + slack) * mo;
    assert(z * me < 0) by (nonlinear_arith)
        requires
            z == dist * mo - no - (k + slack) * mo,
            dist * me <= ne,
            ne * mo < no * me + (k + slack) * (me * mo),
            0 < mo,
    ;
    assert(z < 0) by (nonlinear_arith)
        requires
            z * me < 0,
            0 < me,
    ;
    if k == 0 {
        assert(1000 * (slack * mo) <= one * mo) by (nonlinear_arith)
            requires
                slack <= 2,
                0 < mo,
                one == 65536,
        ;
        assert((k + slack) * mo == slack * mo) by (nonlinear_arith)
            requires
                k == 0,
        ;
    } else {
        // The distance is at least `k` tiles, so the other crossing is far.
        assert(dist >= k * one) by (nonlinear_arith)
            requires
                ne < (dist + 1) * me,
                ne >= k * (one * one),
                0 < me <= one,
                0 <= k,
                one == 65536,
        ;
        assert(no > (k * one - k - slack) * mo) by (nonlinear_arith)
            requires
                dist * mo - no - (k + slack) * mo < 0,
                dist >= k * one,
                0 < mo,
        ;
        assert((k * one - k - slack) * mo >= 1000 * ((k + slack) * mo)) by (nonlinear_arith)
            requires
                1 <= k,
                slack <= 2,
                0 < mo,
                one == 65536,
        ;
    }
}

/// In a grid without walls, the distance of a ray cast from inside is the
/// distance along the ray to where it leaves the grid, to within a
/// thousandth (or a thousandth of a tile, where that is more), and never
/// more than one unit below it.
///
/// The ray's components are the cosine and sine of its angle, so neither is
/// above 1; both are at least [`EPSILON`] here. The ray leaves the grid
/// along the axis where it meets the border first; the claims are made for
/// both axes, which gives them for the nearer one. An origin nearer than
/// [`MIN_DIST`] to a border that the ray heads for is left out: there the
/// least distance is reported.
pub proof fn lemma_open_map_distance_is_the_exit(map: &TileMap, px: int, py: int, ray: Ray)
    requires
        map.wf(),
        is_open(map),
        map.inside(floor_of(px), floor_of(py)),
        map.w + map.h <= MAX_STEPS,
        EPSILON <= mag(ray.dx as int) <= ONE,
        EPSILON <= mag(ray.dy as int) <= ONE,
        exit_crossing(map.w as int, px, ray.dx as int) >= MIN_DIST * mag(ray.dx as int),
        exit_crossing(map.h as int, py, ray.dy as int) >= MIN_DIST * mag(ray.dy as int),
    ensures
        ({
            let dist = cast_spec(map, px, py, ray).dist;
            let nx = exit_crossing(map.w as int, px, ray.dx as int);
            let ny = exit_crossing(map.h as int, py, ray.dy as int);
            let mx = mag(ray.dx as int);
            let my = mag(ray.dy as int);
            &&& within_thousandth(dist, nx, mx)
            &&& within_thousandth(dist, ny, my)
            &&& nx < (dist + 1) * mx || ny < (dist + 1) * my
        }),
{
    let start = walk_start(px, py, ray);
    let dx = ray.dx as int;
    let dy = ray.dy as int;
    let mx = mag(dx);
    let my = mag(dy);
    let w_cells = map.w as int;
    let h_cells = map.h as int;
    let nx = exit_crossing(w_cells, px, dx);
    let ny = exit_crossing(h_cells, py, dy);
    lemma_walk_leaves_open_map(map, ray, start, MAX_STEPS as nat);
    lemma_walk_stops_at_first_wall(map, ray, start, MAX_STEPS as nat);
    lemma_cast_in_open_map(map, px, py, ray);
    let n = walk_len(map, ray, start, MAX_STEPS as nat);
    let end = walk_nth(start, ray, n);
    assert(map.tile(start.x, start.y) == 0);
    assert(n >= 1);
    let m = (n - 1) as nat;
    let prev = walk_nth(start, ray, m);
    lemma_walk_last_step(start, ray, m);
    assert(end == walk_step(prev, ray));
    assert(!map.is_wall(prev.x, prev.y));
    assert(map.inside(prev.x, prev.y));
    lemma_walk_follows_the_ray(px, py, ray, m);
    let kx = lines_crossed(prev.x, px, dx);
    let ky = lines_crossed(prev.y, py, dy);
    lemma_lines_before_the_border(w_cells, prev.x, px, dx);
    lemma_lines_before_the_border(h_cells, prev.y, py, dy);
    let tx = true_crossing(px, dx, kx);
    let ty = true_crossing(py, dy, ky);
    let dist = cast_spec(map, px, py, ray).dist;
    if prev.sx < prev.sy {
        assert(end.side == 0);
        assert(tx == nx);
        lemma_floor_is_distance(nx, mx, dist);
        assert(tx * my < ny * mx + (kx + 1) * (mx * my)) by (nonlinear_arith)
            requires
                tx * my < ty * mx + (kx + 1) * (mx * my),
                ty <= ny,
                0 < mx,
        ;
        lemma_exit_tolerance(dist, nx, mx, ny, my, kx, 1);
    } else {
        assert(end.side == 1);
        assert(ty == ny);
        lemma_floor_is_distance(ny, my, dist);
        assert(ty * mx < nx * my + (ky + 2) * (my * mx)) by (nonlinear_arith)
            requires
                ty * mx < tx * my + (ky + 2) * (mx * my),
                tx <= nx,
                0 < my,
        ;
        lemma_exit_tolerance(dist, ny, my, nx, mx, ky, 2);
    }
}

/// A distance that is a quotient rounded down, and not below the least
/// distance, lies at most one unit below the quotient.
proof fn lemma_floor_is_distance(num: int, den: int, dist: int)
    requires
        den >= EPSILON,
        0 <= num,
        num >= MIN_DIST * den,
        dist == (if num / den < MIN_DIST {
            MIN_DIST as int
        } else {
            num / den
        }),
    ensures
        dist * den <= num < (dist + 1) * den,
{
    vstd::arithmetic::div_mod::lemma_fundamental_div_mod(num, den);
    vstd::arithmetic::div_mod::lemma_mod_bound(num, den);
    assert(den * (num / den) == (num / den) * den) by (nonlinear_arith);
    lemma_div_monotone(MIN_DIST * den, num, den);
    vstd::arithmetic::div_mod::lemma_div_multiples_vanish(MIN_DIST as int, den);
    assert((num / den + 1) * den == (num / den) * den + den) by (nonlinear_arith);
}

/// In a grid without walls, the distance of a ray cast from inside along
/// the x axis is the true distance to the border ahead, rounded down.
pub proof fn lemma_open_map_distance_along_x(map: &TileMap, px: int, py: int, ray: Ray)
    requires
        map.wf(),
        is_open(map),
        map.inside(floor_of(px), floor_of(py)),
        map.w + map.h <= MAX_STEPS,
        ray.dy == 0,
        EPSILON <= mag(ray.dx as int),
        exit_crossing(map.w as int, px, ray.dx as int) >= MIN_DIST * mag(ray.dx as int),
    ensures
        ({
            let dist = cast_spec(map, px, py, ray).dist;
            let nx = exit_crossing(map.w as int, px, ray.dx as int);
            dist * mag(ray.dx as int) <= nx < (dist + 1) * mag(ray.dx as int)
        }),
{
    lemma_cast_along_x(map, px, py, ray);
    lemma_cast_in_open_map(map, px, py, ray);
    let nx = exit_crossing(map.w as int, px, ray.dx as int);
    assert(0 <= nx) by (nonlinear_arith)
        requires
            nx == mag(border_ahead(map.w as int, ray.dx as int) - px) * ONE,
            ONE == 65536,
    ;
    lemma_floor_is_distance(nx, mag(ray.dx as int), cast_spec(map, px, py, ray).dist);
}

/// In a grid without walls, the distance of a ray cast from inside along
/// the y axis is the true distance to the border ahead, rounded down.
pub proof fn lemma_open_map_distance_along_y(map: &TileMap, px: int, py: int, ray: Ray)
    requires
        map.wf(),
        is_open(map),
        map.inside(floor_of(px), floor_of(py)),
        map.w + map.h <= MAX_STEPS,
        ray.dx == 0,
        EPSILON <= mag(ray.dy as int),
        exit_crossing(map.h as int, py, ray.dy as int) >= MIN_DIST * mag(ray.dy as int),
    ensures
        ({
            let dist = cast_spec(map, px, py, ray).dist;
            let ny = exit_crossing(map.h as int, py, ray.dy as int);
            dist * mag(ray.dy as int) <= ny < (dist + 1) * mag(ray.dy as int)
        }),
{
    let start = walk_start(px, py, ray);
    assert(map.tile(start.x, start.y) == 0);
    assert(walk_len(map, ray, start, MAX_STEPS as nat) >= 1);
    lemma_cast_along_y(map, px, py, ray);
    lemma_cast_in_open_map(map, px, py, ray);
    let ny = exit_crossing(map.h as int, py, ray.dy as int);
    assert(0 <= ny) by (nonlinear_arith)
        requires
            ny == mag(border_ahead(map.h as int, ray.dy as int) - py) * ONE,
            ONE == 65536,
    ;
    lemma_floor_is_distance(ny, mag(ray.dy as int), cast_spec(map, px, py, ray).dist);
}

} // verus!
