//! The tile map: a row-major grid of tile ids with a solid implicit border.

use vstd::prelude::*;
use vstd::string::StrSliceExecFns;
use vstd::string::StringSliceAdditionalSpecFns;

verus! {

/// The tile id that every coordinate outside the grid reads as.
pub const BOUNDARY_WALL: u8 = 1;

/// A grid of `w` by `h` tiles, row by row; id 0 is walkable.
pub struct TileMap {
    pub w: usize,
    pub h: usize,
    pub tiles: Vec<u8>,
}

impl TileMap {
    /// The structural invariant: one tile per cell.
    pub open spec fn wf(&self) -> bool {
        self.tiles@.len() == self.w * self.h
    }

    /// Whether `(x, y)` names a cell of the grid.
    pub open spec fn inside(&self, x: int, y: int) -> bool {
        0 <= x < self.w && 0 <= y < self.h
    }

    /// The tile at `(x, y)`: the stored id inside the grid, the boundary
    /// wall everywhere else.
    pub open spec fn tile(&self, x: int, y: int) -> u8 {
        if self.inside(x, y) {
            self.tiles@[y * self.w + x]
        } else {
            BOUNDARY_WALL
        }
    }

    /// Whether a ray stops at `(x, y)`.
    pub open spec fn is_wall(&self, x: int, y: int) -> bool {
        self.tile(x, y) != 0
    }

    /// Inside the grid a cell's row-major index is within the tile array.
    pub proof fn lemma_index_in_range(&self, x: int, y: int)
        requires
            self.wf(),
            self.inside(x, y),
        ensures
            0 <= y * self.w,
            0 <= y * self.w + x < self.tiles@.len(),
    {
        assert(y * self.w + x < self.w * self.h) by (nonlinear_arith)
            requires
                0 <= x < self.w,
                0 <= y < self.h,
        ;
        assert(0 <= y * self.w) by (nonlinear_arith)
            requires
                0 <= y,
                0 <= self.w,
        ;
    }

    /// Bounds-safe lookup.
    pub fn at(&self, x: i32, y: i32) -> (t: u8)
        requires
            self.wf(),
        ensures
            t == self.tile(x as int, y as int),
    {
        if x < 0 || y < 0 {
            return BOUNDARY_WALL;
        }
        let (x, y) = (x as usize, y as usize);
        if x >= self.w || y >= self.h {
            return BOUNDARY_WALL;
        }
        let len = self.tiles.len();
        proof {
            self.lemma_index_in_range(x as int, y as int);
            assert(y * self.w + x < len);
        }
        self.tiles[y * self.w + x]
    }
}

/// The tile that a character of a level's text stands for.
pub open spec fn tile_of_char(ch: char) -> u8 {
    if ch == '.' || ch == '0' {
        0
    } else if ch == '2' {
        2
    } else if ch == '3' {
        3
    } else if ch == '4' {
        4
    } else if ch == '5' {
        5
    } else if ch == '9' {
        9
    } else {
        1
    }
}

/// The tiles of one row of text.
pub open spec fn row_tiles(row: Seq<char>) -> Seq<u8> {
    Seq::new(row.len(), |i: int| tile_of_char(row[i]))
}

/// The tiles of the first `n` rows of a level's text, row after row.
pub open spec fn grid_tiles(lines: Seq<&str>, n: nat) -> Seq<u8>
    decreases n,
{
    if n == 0 {
        Seq::empty()
    } else {
        grid_tiles(lines, (n - 1) as nat) + row_tiles(lines[n - 1]@)
    }
}

/// Whether every row of a level's text has `w` characters.
pub open spec fn is_grid(lines: Seq<&str>, w: int) -> bool {
    forall|y: int| 0 <= y < lines.len() ==> (#[trigger] lines[y])@.len() == w
}

/// The first `n` rows of a text whose rows have `w` characters make `n * w`
/// tiles, and the tile of row `y`, column `x` stands at `y * w + x`.
pub proof fn lemma_grid_tiles(lines: Seq<&str>, w: int, n: nat)
    requires
        is_grid(lines, w),
        n <= lines.len(),
    ensures
        grid_tiles(lines, n).len() == n * w,
        forall|x: int, y: int|
            0 <= y < n && 0 <= x < w ==> #[trigger] grid_tiles(lines, n)[y * w + x] == tile_of_char(
                lines[y]@[x],
            ),
    decreases n,
{
    if n > 0 {
        let m = (n - 1) as nat;
        lemma_grid_tiles(lines, w, m);
        assert(m * w + w == n * w) by (nonlinear_arith)
            requires
                m + 1 == n,
        ;
        assert(lines[m as int]@.len() == w);
        assert forall|x: int, y: int| 0 <= y < n && 0 <= x < w implies #[trigger] grid_tiles(
            lines,
            n,
        )[y * w + x] == tile_of_char(lines[y]@[x]) by {
            if y < m {
                assert(y * w + x < m * w) by (nonlinear_arith)
                    requires
                        0 <= x < w,
                        0 <= y < m,
                ;
                assert(0 <= y * w + x) by (nonlinear_arith)
                    requires
                        0 <= x,
                        0 <= y,
                        0 <= w,
                ;
                assert(grid_tiles(lines, m)[y * w + x] == tile_of_char(lines[y]@[x]));
            } else {
                assert(y * w + x == m * w + x);
                assert(row_tiles(lines[m as int]@)[x] == tile_of_char(lines[y]@[x]));
            }
        }
    } else {
        assert(n * w == 0) by (nonlinear_arith)
            requires
                n == 0,
        ;
    }
}

/// The tile for one character.
fn tile_for(ch: char) -> (t: u8)
    ensures
        t == tile_of_char(ch),
{
    match ch {
        '.' | '0' => 0,
        '1' => 1,
        '2' => 2,
        '3' => 3,
        '4' => 4,
        '5' => 5,
        '9' => 9,
        _ => 1,
    }
}

/// Reads a level from its text: one row per line, one tile per character.
/// The map is as wide as the first line has bytes and as high as there are
/// lines.
pub fn to_map(lines: &[&str]) -> (m: TileMap)
    requires
        lines@.len() > 0,
    ensures
        m.h == lines@.len(),
        m.w == lines@[0].spec_bytes().len(),
        m.tiles@ == grid_tiles(lines@, lines@.len()),
{
    let h: usize = lines.len();
    let w: usize = lines[0].as_bytes().len();
    let mut t: Vec<u8> = Vec::new();
    let mut y: usize = 0;
    while y < h
        invariant
            h == lines@.len(),
            y <= h,
            t@ == grid_tiles(lines@, y as nat),
        decreases h - y,
    {
        let row: &str = lines[y];
        let n: usize = row.unicode_len();
        let ghost before = t@;
        let mut x: usize = 0;
        while x < n
            invariant
                n == row@.len(),
                x <= n,
                t@ == before + row_tiles(row@).subrange(0, x as int),
            decreases n - x,
        {
            t.push(tile_for(row.get_char(x)));
            assert(t@ =~= before + row_tiles(row@).subrange(0, x + 1));
            x = x + 1;
        }
        assert(row_tiles(row@).subrange(0, n as int) =~= row_tiles(row@));
        y = y + 1;
    }
    TileMap { w, h, tiles: t }
}

/// The text of the first level.
pub open spec fn level1_text() -> Seq<&'static str> {
    seq![
        "1111111111111",
        "1...........1",
        "1.222...333.1",
        "1...........1",
        "1...........1",
        "1...555555..1",
        "1...555555..1",
        "1...........1",
        "1.........4.1",
        "1.........9.1",
        "1...........1",
        "1111111111111",
    ]
}

/// The text of the second level.
pub open spec fn level2_text() -> Seq<&'static str> {
    seq![
        "222222222222222",
        "2.............2",
        "2.3333..4444..2",
        "2.3..3..4..4..2",
        "2.3..3..4..4..2",
        "2.3..3........2",
        "2.3..555555...2",
        "2.3..555555...2",
        "2....555555...2",
        "2.........9...2",
        "2.............2",
        "222222222222222",
    ]
}

impl TileMap {
    /// The map that the game starts with: the first level.
    pub fn demo() -> (m: Self)
        ensures
            m.wf(),
            m.w == 13,
            m.h == 12,
            m.tiles@ == grid_tiles(level1_text(), 12),
    {
        Self::level1()
    }

    /// The first level: a walled room of 13 by 12 tiles.
    pub fn level1() -> (m: Self)
        ensures
            m.wf(),
            m.w == 13,
            m.h == 12,
            m.tiles@ == grid_tiles(level1_text(), 12),
    {
        let raw: [&str; 12] = [
            "1111111111111",
            "1...........1",
            "1.222...333.1",
            "1...........1",
            "1...........1",
            "1...555555..1",
            "1...555555..1",
            "1...........1",
            "1.........4.1",
            "1.........9.1",
            "1...........1",
            "1111111111111",
        ];
        proof {
            reveal_strlit("1111111111111");
            reveal_strlit("1...........1");
            reveal_strlit("1.222...333.1");
            reveal_strlit("1...555555..1");
            reveal_strlit("1.........4.1");
            reveal_strlit("1.........9.1");
            vstd::string::is_ascii_spec_bytes("1111111111111");
            assert(raw@ =~= level1_text());
            assert(is_grid(raw@, 13));
            lemma_grid_tiles(raw@, 13, 12);
        }
        to_map(raw.as_slice())
    }

    /// The second level: a walled room of 15 by 12 tiles.
    pub fn level2() -> (m: Self)
        ensures
            m.wf(),
            m.w == 15,
            m.h == 12,
            m.tiles@ == grid_tiles(level2_text(), 12),
    {
        let raw: [&str; 12] = [
            "222222222222222",
            "2.............2",
            "2.3333..4444..2",
            "2.3..3..4..4..2",
            "2.3..3..4..4..2",
            "2.3..3........2",
            "2.3..555555...2",
            "2.3..555555...2",
            "2....555555...2",
            "2.........9...2",
            "2.............2",
            "222222222222222",
        ];
        proof {
            reveal_strlit("222222222222222");
            reveal_strlit("2.............2");
            reveal_strlit("2.3333..4444..2");
            reveal_strlit("2.3..3..4..4..2");
            reveal_strlit("2.3..3........2");
            reveal_strlit("2.3..555555...2");
            reveal_strlit("2....555555...2");
            reveal_strlit("2.........9...2");
            vstd::string::is_ascii_spec_bytes("222222222222222");
            assert(raw@ =~= level2_text());
            assert(is_grid(raw@, 15));
            lemma_grid_tiles(raw@, 15, 12);
        }
        to_map(raw.as_slice())
    }
}

} // verus!
