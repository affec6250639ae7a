//! The maze: a grid of characters, and what is looked up in it.

use vstd::prelude::*;
use crate::fixed::ONE;
use crate::framebuffer::Color;
use crate::map::TileMap;

verus! {

/// A maze: rows of cells, one character each.
pub type Maze = Vec<Vec<char>>;

/// The side of a cell in world units where the game does not say otherwise.
pub const BLOCK_SIZE: usize = 20;

/// The greatest coordinate that a position can have, in whole world units.
pub const WORLD_LIMIT: usize = 32767;

/// The colours that cells and plain walls are shown in.
#[derive(Clone, Copy, Debug, PartialEq, Eq, Structural)]
pub enum Paint {
    Gray,
    DarkGray,
    Brown,
    DarkPurple,
    Purple,
    DarkGreen,
    Green,
    Yellow,
    Blue,
    Red,
    Gold,
    Black,
}

/// The channels of a paint.
pub open spec fn paint_color(p: Paint) -> Color {
    match p {
        Paint::Gray => Color { r: 130, g: 130, b: 130, a: 255 },
        Paint::DarkGray => Color { r: 80, g: 80, b: 80, a: 255 },
        Paint::Brown => Color { r: 127, g: 106, b: 79, a: 255 },
        Paint::DarkPurple => Color { r: 112, g: 31, b: 126, a: 255 },
        Paint::Purple => Color { r: 200, g: 122, b: 255, a: 255 },
        Paint::DarkGreen => Color { r: 0, g: 117, b: 44, a: 255 },
        Paint::Green => Color { r: 0, g: 228, b: 48, a: 255 },
        Paint::Yellow => Color { r: 253, g: 249, b: 0, a: 255 },
        Paint::Blue => Color { r: 0, g: 121, b: 241, a: 255 },
        Paint::Red => Color { r: 230, g: 41, b: 55, a: 255 },
        Paint::Gold => Color { r: 255, g: 203, b: 0, a: 255 },
        Paint::Black => Color { r: 0, g: 0, b: 0, a: 255 },
    }
}

impl Paint {
    /// The channels of this paint.
    pub fn color(self) -> (c: Color)
        ensures
            c == paint_color(self),
    {
        match self {
            Paint::Gray => Color { r: 130, g: 130, b: 130, a: 255 },
            Paint::DarkGray => Color { r: 80, g: 80, b: 80, a: 255 },
            Paint::Brown => Color { r: 127, g: 106, b: 79, a: 255 },
            Paint::DarkPurple => Color { r: 112, g: 31, b: 126, a: 255 },
            Paint::Purple => Color { r: 200, g: 122, b: 255, a: 255 },
            Paint::DarkGreen => Color { r: 0, g: 117, b: 44, a: 255 },
            Paint::Green => Color { r: 0, g: 228, b: 48, a: 255 },
            Paint::Yellow => Color { r: 253, g: 249, b: 0, a: 255 },
            Paint::Blue => Color { r: 0, g: 121, b: 241, a: 255 },
            Paint::Red => Color { r: 230, g: 41, b: 55, a: 255 },
            Paint::Gold => Color { r: 255, g: 203, b: 0, a: 255 },
            Paint::Black => Color { r: 0, g: 0, b: 0, a: 255 },
        }
    }
}

/// Whether a maze with cells of side `block_size` fits into the world: no
/// row and no column reaches beyond [`WORLD_LIMIT`].
pub open spec fn fits(maze: Seq<Vec<char>>, block_size: int) -> bool {
    &&& 0 < block_size
    &&& (maze.len() + 1) * block_size <= WORLD_LIMIT
    &&& forall|j: int| 0 <= j < maze.len() ==> ((#[trigger] maze[j])@.len() + 1) * block_size
        <= WORLD_LIMIT
}

/// The middle of cell `i` along one axis, in fixed point.
pub open spec fn center(i: int, block_size: int) -> int {
    (i * block_size) * ONE + (block_size * ONE) / 2
}

/// The positions of the cells among the first `n` of row `j` that hold `a`
/// or `b`, from left to right.
pub open spec fn row_positions(
    row: Seq<char>,
    a: char,
    b: char,
    block_size: int,
    j: int,
    n: nat,
) -> Seq<(i32, i32)>
    decreases n,
{
    if n == 0 {
        Seq::empty()
    } else if row[n - 1] == a || row[n - 1] == b {
        row_positions(row, a, b, block_size, j, (n - 1) as nat).push(
            (center(n - 1, block_size) as i32, center(j, block_size) as i32),
        )
    } else {
        row_positions(row, a, b, block_size, j, (n - 1) as nat)
    }
}

/// The positions of the cells in the first `rows` rows that hold `a` or
/// `b`, row by row.
pub open spec fn maze_positions(
    maze: Seq<Vec<char>>,
    a: char,
    b: char,
    block_size: int,
    rows: nat,
) -> Seq<(i32, i32)>
    decreases rows,
{
    if rows == 0 {
        Seq::empty()
    } else {
        maze_positions(maze, a, b, block_size, (rows - 1) as nat) + row_positions(
            maze[rows - 1]@,
            a,
            b,
            block_size,
            rows - 1,
            maze[rows - 1]@.len(),
        )
    }
}

/// The middle of cell `i` along one axis.
fn center_of(i: usize, block_size: usize) -> (c: i32)
    requires
        0 < block_size,
        (i + 1) * block_size <= WORLD_LIMIT,
    ensures
        c == center(i as int, block_size as int),
        0 <= c,
{
    assert(0 <= i * block_size <= 32767 && block_size <= 32767) by (nonlinear_arith)
        requires
            0 < block_size,
            (i + 1) * block_size <= 32767,
            0 <= i,
    ;
    let edge: i64 = (i * block_size) as i64 * ONE;
    let half: i64 = (block_size as i64 * ONE) / 2;
    assert((i * block_size) * 65536 + (block_size * 65536) / 2 < 0x8000_0000) by (nonlinear_arith)
        requires
            (i + 1) * block_size <= 32767,
            0 < block_size,
    ;
    (edge + half) as i32
}

/// Every position of a cell that holds `target`, row by row and from left
/// to right: the middle of each such cell.
pub fn find_positions_in_maze(maze: &Maze, target: char, block_size: usize) -> (found: Vec<
    (i32, i32),
>)
    requires
        fits(maze@, block_size as int),
    ensures
        found@ == maze_positions(maze@, target, target, block_size as int, maze@.len()),
{
    let mut found: Vec<(i32, i32)> = Vec::new();
    let mut j: usize = 0;
    while j < maze.len()
        invariant
            j <= maze@.len(),
            fits(maze@, block_size as int),
            found@ == maze_positions(maze@, target, target, block_size as int, j as nat),
        decreases maze@.len() - j,
    {
        let row: &Vec<char> = &maze[j];
        let ghost before = found@;
        let mut i: usize = 0;
        while i < row.len()
            invariant
                j < maze@.len(),
                row@ == maze@[j as int]@,
                i <= row@.len(),
                fits(maze@, block_size as int),
                found@ == before + row_positions(
                    row@,
                    target,
                    target,
                    block_size as int,
                    j as int,
                    i as nat,
                ),
            decreases row@.len() - i,
        {
            if row[i] == target {
                proof {
                    lemma_cell_fits(maze@, block_size as int, i as int, j as int);
                }
                let x: i32 = center_of(i, block_size);
                let y: i32 = center_of(j, block_size);
                found.push((x, y));
            }
            assert(found@ =~= before + row_positions(
                row@,
                target,
                target,
                block_size as int,
                j as int,
                (i + 1) as nat,
            ));
            i = i + 1;
        }
        j = j + 1;
    }
    found
}

/// A cell of a maze that fits lies within the world.
proof fn lemma_cell_fits(maze: Seq<Vec<char>>, block_size: int, i: int, j: int)
    requires
        fits(maze, block_size),
        0 <= j < maze.len(),
        0 <= i < maze[j]@.len(),
    ensures
        (i + 1) * block_size <= WORLD_LIMIT,
        (j + 1) * block_size <= WORLD_LIMIT,
{
    assert((i + 1) * block_size <= (maze[j]@.len() + 1) * block_size) by (nonlinear_arith)
        requires
            0 <= i < maze[j]@.len(),
            0 < block_size,
    ;
    assert((j + 1) * block_size <= (maze.len() + 1) * block_size) by (nonlinear_arith)
        requires
            0 <= j < maze.len(),
            0 < block_size,
    ;
}

/// Where the player starts: the middle of the first cell, row by row and
/// from left to right, that holds `P` or `p`; `None` where no cell does.
pub fn find_player_start(maze: &Maze) -> (start: Option<(i32, i32)>)
    requires
        fits(maze@, BLOCK_SIZE as int),
    ensures
        start == (if maze_positions(maze@, 'P', 'p', BLOCK_SIZE as int, maze@.len()).len() > 0 {
            Some(maze_positions(maze@, 'P', 'p', BLOCK_SIZE as int, maze@.len())[0])
        } else {
            None
        }),
{
    let mut j: usize = 0;
    while j < maze.len()
        invariant
            j <= maze@.len(),
            fits(maze@, BLOCK_SIZE as int),
            maze_positions(maze@, 'P', 'p', BLOCK_SIZE as int, j as nat).len() == 0,
        decreases maze@.len() - j,
    {
        let row: &Vec<char> = &maze[j];
        let mut i: usize = 0;
        while i < row.len()
            invariant
                j < maze@.len(),
                row@ == maze@[j as int]@,
                i <= row@.len(),
                fits(maze@, BLOCK_SIZE as int),
                maze_positions(maze@, 'P', 'p', BLOCK_SIZE as int, j as nat).len() == 0,
                row_positions(row@, 'P', 'p', BLOCK_SIZE as int, j as int, i as nat).len() == 0,
            decreases row@.len() - i,
        {
            if row[i] == 'P' || row[i] == 'p' {
                proof {
                    lemma_cell_fits(maze@, BLOCK_SIZE as int, i as int, j as int);
                }
                let x: i32 = center_of(i, BLOCK_SIZE);
                let y: i32 = center_of(j, BLOCK_SIZE);
                proof {
                    lemma_first_in_row(row@, 'P', 'p', BLOCK_SIZE as int, j as int, i as nat, row@.len());
                    lemma_first_in_maze(maze@, 'P', 'p', BLOCK_SIZE as int, j as nat, maze@.len());
                }
                return Some((x, y));
            }
            i = i + 1;
        }
        j = j + 1;
    }
    None
}

/// Where the first `i` cells of a row hold no match and cell `i` holds one,
/// the row's first position is that of cell `i`.
proof fn lemma_first_in_row(
    row: Seq<char>,
    a: char,
    b: char,
    block_size: int,
    j: int,
    i: nat,
    n: nat,
)
    requires
        i < n <= row.len(),
        row_positions(row, a, b, block_size, j, i).len() == 0,
        row[i as int] == a || row[i as int] == b,
    ensures
        row_positions(row, a, b, block_size, j, n).len() > 0,
        row_positions(row, a, b, block_size, j, n)[0] == (
            center(i as int, block_size) as i32,
            center(j, block_size) as i32,
        ),
    decreases n,
{
    if n > i + 1 {
        lemma_first_in_row(row, a, b, block_size, j, i, (n - 1) as nat);
    }
}

/// Where the first `j` rows hold no match and row `j` holds one, the maze's
/// first position is that row's first.
proof fn lemma_first_in_maze(
    maze: Seq<Vec<char>>,
    a: char,
    b: char,
    block_size: int,
    j: nat,
    rows: nat,
)
    requires
        j < rows <= maze.len(),
        maze_positions(maze, a, b, block_size, j).len() == 0,
        row_positions(maze[j as int]@, a, b, block_size, j as int, maze[j as int]@.len()).len() > 0,
    ensures
        maze_positions(maze, a, b, block_size, rows).len() > 0,
        maze_positions(maze, a, b, block_size, rows)[0] == row_positions(
            maze[j as int]@,
            a,
            b,
            block_size,
            j as int,
            maze[j as int]@.len(),
        )[0],
    decreases rows,
{
    if rows > j + 1 {
        lemma_first_in_maze(maze, a, b, block_size, j, (rows - 1) as nat);
    }
}

/// The paint that stands for a cell on a map of the maze.
pub open spec fn cell_color(cell: char) -> Paint {
    if cell == '#' {
        Paint::Gray
    } else if cell == 'M' {
        Paint::DarkGray
    } else if cell == 'L' {
        Paint::Brown
    } else if cell == '$' {
        Paint::DarkPurple
    } else if cell == 'T' {
        Paint::DarkGreen
    } else if cell == 'P' {
        Paint::Green
    } else if cell == 'E' {
        Paint::Yellow
    } else if cell == 'p' {
        Paint::Blue
    } else if cell == 'F' {
        Paint::Red
    } else if cell == 'C' {
        Paint::Gold
    } else {
        Paint::Black
    }
}

/// The paint that stands for a cell on a map of the maze: walls in greys
/// and brown, the door purple, pipes green, the exit yellow, the start blue,
/// enemies red, chests gold, and black for open floor.
pub fn get_cell_color(cell: char) -> (c: Paint)
    ensures
        c == cell_color(cell),
{
    match cell {
        '#' => Paint::Gray,
        'M' => Paint::DarkGray,
        'L' => Paint::Brown,
        '$' => Paint::DarkPurple,
        'T' => Paint::DarkGreen,
        'P' => Paint::Green,
        'E' => Paint::Yellow,
        'p' => Paint::Blue,
        'F' => Paint::Red,
        'C' => Paint::Gold,
        _ => Paint::Black,
    }
}

/// The tile that stands for a cell of the maze where rays are cast through
/// it: each kind of wall has an id of its own, and every other cell is
/// empty.
pub open spec fn wall_id(cell: char) -> u8 {
    if cell == '#' {
        1
    } else if cell == 'L' {
        2
    } else if cell == '$' {
        3
    } else if cell == 'M' {
        4
    } else if cell == 'T' {
        5
    } else if cell == 'P' {
        6
    } else {
        0
    }
}

/// The cell that a tile stands for; a tile that stands for none, such as
/// the boundary beyond the maze, reads as a plain wall.
pub open spec fn wall_cell(tile: u8) -> char {
    if tile == 2 {
        'L'
    } else if tile == 3 {
        '$'
    } else if tile == 4 {
        'M'
    } else if tile == 5 {
        'T'
    } else if tile == 6 {
        'P'
    } else {
        '#'
    }
}

/// The tile for a cell.
pub fn wall_id_of(cell: char) -> (id: u8)
    ensures
        id == wall_id(cell),
{
    match cell {
        '#' => 1,
        'L' => 2,
        '$' => 3,
        'M' => 4,
        'T' => 5,
        'P' => 6,
        _ => 0,
    }
}

/// The cell for a tile.
pub fn wall_cell_of(tile: u8) -> (cell: char)
    ensures
        cell == wall_cell(tile),
        tile != 0 && tile <= 6 ==> wall_id(cell) == tile,
{
    match tile {
        2 => 'L',
        3 => '$',
        4 => 'M',
        5 => 'T',
        6 => 'P',
        _ => '#',
    }
}

/// The tile that the maze holds at `(x, y)`: that of the cell, and a plain
/// wall where the row is too short to have one.
pub open spec fn maze_tile(maze: Seq<Vec<char>>, x: int, y: int) -> u8 {
    if x < maze[y]@.len() {
        wall_id(maze[y]@[x])
    } else {
        1
    }
}

/// The maze as a tile map for the ray caster: as wide as the first row and
/// as high as the maze has rows.
pub fn tiles_of(maze: &Vec<Vec<char>>) -> (map: TileMap)
    ensures
        map.wf(),
        map.h == maze@.len(),
        map.w == (if maze@.len() > 0 {
            maze@[0]@.len()
        } else {
            0
        }),
        forall|x: int, y: int|
            map.inside(x, y) ==> #[trigger] map.tile(x, y) == maze_tile(maze@, x, y),
{
    let h: usize = maze.len();
    let w: usize = if h > 0 {
        maze[0].len()
    } else {
        0
    };
    let mut tiles: Vec<u8> = Vec::new();
    let mut y: usize = 0;
    while y < h
        invariant
            h == maze@.len(),
            y <= h,
            tiles@.len() == y * w,
            forall|i: int, j: int|
                0 <= j < y && 0 <= i < w ==> #[trigger] tiles@[j * w + i] == maze_tile(maze@, i, j),
        decreases h - y,
    {
        let row: &Vec<char> = &maze[y];
        let mut x: usize = 0;
        while x < w
            invariant
                y < h,
                h == maze@.len(),
                row@ == maze@[y as int]@,
                x <= w,
                tiles@.len() == y * w + x,
                forall|i: int, j: int|
                    0 <= j < y && 0 <= i < w ==> #[trigger] tiles@[j * w + i] == maze_tile(
                        maze@,
                        i,
                        j,
                    ),
                forall|i: int|
                    0 <= i < x ==> #[trigger] tiles@[y * w + i] == maze_tile(maze@, i, y as int),
            decreases w - x,
        {
            let id: u8 = if x < row.len() {
                wall_id_of(row[x])
            } else {
                1
            };
            let ghost before = tiles@;
            tiles.push(id);
            proof {
                assert forall|i: int, j: int| 0 <= j < y && 0 <= i < w implies #[trigger] tiles@[j
                    * w + i] == maze_tile(maze@, i, j) by {
                    assert(0 <= j * w + i < y * w) by (nonlinear_arith)
                        requires
                            0 <= j < y,
                            0 <= i < w,
                    ;
                    assert(before[j * w + i] == maze_tile(maze@, i, j));
                }
                assert forall|i: int| 0 <= i < x + 1 implies #[trigger] tiles@[y * w + i]
                    == maze_tile(maze@, i, y as int) by {
                    if i < x {
                        assert(before[y * w + i] == maze_tile(maze@, i, y as int));
                    }
                }
            }
            x = x + 1;
        }
        proof {
            assert((y + 1) * w == y * w + w) by (nonlinear_arith);
            assert forall|i: int, j: int| 0 <= j < y + 1 && 0 <= i < w implies #[trigger] tiles@[j
                * w + i] == maze_tile(maze@, i, j) by {
                if j == y {
                    assert(tiles@[y * w + i] == maze_tile(maze@, i, y as int));
                }
            }
        }
        y = y + 1;
    }
    let map = TileMap { w, h, tiles };
    proof {
        assert(h * w == w * h) by (nonlinear_arith);
        assert forall|x: int, y: int| map.inside(x, y) implies #[trigger] map.tile(x, y)
            == maze_tile(maze@, x, y) by {
            assert(map.tiles@[y * w + x] == maze_tile(maze@, x, y));
        }
    }
    map
}

} // verus!
