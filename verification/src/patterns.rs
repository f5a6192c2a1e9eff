//! The seed patterns that can be placed on a board.
use vstd::prelude::*;
use crate::board::{Board, H, W};

verus! {

/// The seed patterns, in the order of the number keys that select them.
#[derive(Clone, Copy, Debug)]
pub enum Pattern {
    Glider,
    Random,
    Blinker,
    Toad,
    Beacon,
    Lwss,
    Block,
    Pentadecathlon,
    Cross,
    Custom9,
}

/// The patterns, indexed by the number key that selects them.
pub const PATTERNS: [Pattern; 10] = [
    Pattern::Glider,
    Pattern::Random,
    Pattern::Blinker,
    Pattern::Toad,
    Pattern::Beacon,
    Pattern::Lwss,
    Pattern::Block,
    Pattern::Pentadecathlon,
    Pattern::Cross,
    Pattern::Custom9,
];

/// The cell (`row + dr`, `col + dc`), wrapped onto the board, is (`r`, `c`).
pub open spec fn offset_is(row: int, col: int, dr: int, dc: int, r: int, c: int) -> bool {
    r == (row + dr) % (H as int) && c == (col + dc) % (W as int)
}

/// The cells of a glider whose bounding box starts at (`row`, `col`).
pub open spec fn glider_cell(row: int, col: int, r: int, c: int) -> bool {
    ||| offset_is(row, col, 0, 1, r, c)
    ||| offset_is(row, col, 1, 2, r, c)
    ||| offset_is(row, col, 2, 0, r, c)
    ||| offset_is(row, col, 2, 1, r, c)
    ||| offset_is(row, col, 2, 2, r, c)
}

/// The cells of a horizontal blinker starting at (`row`, `col`).
pub open spec fn blinker_cell(row: int, col: int, r: int, c: int) -> bool {
    ||| offset_is(row, col, 0, 0, r, c)
    ||| offset_is(row, col, 0, 1, r, c)
    ||| offset_is(row, col, 0, 2, r, c)
}

/// The cells of a toad whose bounding box starts at (`row`, `col`).
pub open spec fn toad_cell(row: int, col: int, r: int, c: int) -> bool {
    ||| offset_is(row, col, 0, 1, r, c)
    ||| offset_is(row, col, 0, 2, r, c)
    ||| offset_is(row, col, 0, 3, r, c)
    ||| offset_is(row, col, 1, 0, r, c)
    ||| offset_is(row, col, 1, 1, r, c)
    ||| offset_is(row, col, 1, 2, r, c)
}

/// The cells of a beacon whose bounding box starts at (`row`, `col`).
pub open spec fn beacon_cell(row: int, col: int, r: int, c: int) -> bool {
    ||| offset_is(row, col, 0, 0, r, c)
    ||| offset_is(row, col, 0, 1, r, c)
    ||| offset_is(row, col, 1, 0, r, c)
    ||| offset_is(row, col, 1, 1, r, c)
    ||| offset_is(row, col, 2, 2, r, c)
    ||| offset_is(row, col, 2, 3, r, c)
    ||| offset_is(row, col, 3, 2, r, c)
    ||| offset_is(row, col, 3, 3, r, c)
}

/// The cells of a lightweight spaceship whose bounding box starts at (`row`, `col`).
pub open spec fn lwss_cell(row: int, col: int, r: int, c: int) -> bool {
    ||| offset_is(row, col, 0, 1, r, c)
    ||| offset_is(row, col, 1, 0, r, c)
    ||| offset_is(row, col, 2, 0, r, c)
    ||| offset_is(row, col, 2, 1, r, c)
    ||| offset_is(row, col, 2, 2, r, c)
    ||| offset_is(row, col, 2, 3, r, c)
    ||| offset_is(row, col, 1, 3, r, c)
}

/// The cells of a block whose corner is (`row`, `col`).
pub open spec fn block_cell(row: int, col: int, r: int, c: int) -> bool {
    ||| offset_is(row, col, 0, 0, r, c)
    ||| offset_is(row, col, 0, 1, r, c)
    ||| offset_is(row, col, 1, 0, r, c)
    ||| offset_is(row, col, 1, 1, r, c)
}

/// The cells of the cross through row `row` and column `col`.
pub open spec fn cross_cell(row: int, col: int, r: int, c: int) -> bool {
    r == row % (H as int) || c == col % (W as int)
}

/// The cells that `rows` marks with `#`: character `j` of row `i` stands for
/// (`i mod H`, `j mod W`).
pub open spec fn ascii_cell(rows: Seq<Seq<char>>, r: int, c: int) -> bool {
    exists|i: int, j: int|
        0 <= i < rows.len() && 0 <= j < rows[i].len() && #[trigger] rows[i][j] == '#' && i % (H as int)
            == r && j % (W as int) == c
}

/// One step of the linear congruential generator that seeds random boards.
pub open spec fn lcg(seed: u32) -> u32 {
    seed.wrapping_mul(1664525).wrapping_add(1013904223)
}

/// `n` steps of `lcg` from `seed`.
pub open spec fn lcg_iter(seed: u32, n: int) -> u32
    decreases n,
{
    if n <= 0 {
        seed
    } else {
        lcg(lcg_iter(seed, n - 1))
    }
}

/// The state of (`r`, `c`) on the random board for `seed`: bit 8 of the generator's
/// value after `r * W + c + 1` steps.
pub open spec fn random_cell(seed: u32, r: int, c: int) -> bool {
    lcg_iter(seed, r * (W as int) + c + 1) & 0x100 != 0
}

/// The pentadecathlon, one string per row, `#` for a live cell.
pub open spec fn pentadecathlon_rows() -> Seq<Seq<char>> {
    seq![
        "................"@,
        "................"@,
        "................"@,
        "......###......."@,
        ".....#...#......"@,
        "................"@,
        "....#.....#....."@,
        "....#.....#....."@,
        "................"@,
        ".....#...#......"@,
        "......###......."@,
        "................"@,
        "................"@,
        "................"@,
        "................"@,
        "................"@,
    ]
}

/// The pattern of key 9, one string per row, `#` for a live cell.
pub open spec fn custom9_rows() -> Seq<Seq<char>> {
    seq![
        "................"@,
        "...##.....##...."@,
        "....##...##....."@,
        ".#..#.#.#.#..#.."@,
        ".###.##.##.###.."@,
        "..#.#.#.#.#.#..."@,
        "...###...###...."@,
        "................"@,
        "...###...###...."@,
        "..#.#.#.#.#.#..."@,
        ".###.##.##.###.."@,
        ".#..#.#.#.#..#.."@,
        "....##...##....."@,
        "...##.....##...."@,
        "................"@,
        "................"@,
    ]
}

/// A cell of a figure of 16 rows of 16 characters is marked when its own character is `#`.
proof fn lemma_square_ascii_cell(rows: Seq<Seq<char>>, r: int, c: int)
    requires
        rows.len() == H,
        forall|i: int| 0 <= i < H ==> #[trigger] rows[i].len() == W,
        0 <= r < H,
        0 <= c < W,
    ensures
        ascii_cell(rows, r, c) == (rows[r][c] == '#'),
{
    if rows[r][c] == '#' {
        assert(r % (H as int) == r && c % (W as int) == c);
    }
}

/// The rows of the pattern of key 9 have 16 characters each.
proof fn lemma_custom9_rows_square()
    ensures
        custom9_rows().len() == H,
        forall|i: int| 0 <= i < H ==> #[trigger] custom9_rows()[i].len() == W,
{
    reveal_strlit("................");
    reveal_strlit("...##.....##....");
    reveal_strlit("....##...##.....");
    reveal_strlit(".#..#.#.#.#..#..");
    reveal_strlit(".###.##.##.###..");
    reveal_strlit("..#.#.#.#.#.#...");
    reveal_strlit("...###...###....");
}

/// The pattern of key 9, drawn on an empty board, is the same under the reflection of
/// row `r` onto row `14 - r`; rows 0, 7, 14 and 15 are empty; of row 13 the cells of
/// columns 3, 4, 10 and 11 are alive, and of row 8 those of columns 3 to 5 and 9 to 11.
pub proof fn lemma_custom9_figure(empty: Board, b: Board, seed: u32)
    requires
        forall|r: int, c: int| 0 <= r < H && 0 <= c < W ==> !#[trigger] empty.at(r, c),
        pattern_placed(empty, b, Pattern::Custom9, seed),
    ensures
        forall|r: int, c: int| 0 <= r <= 14 && 0 <= c < W ==> #[trigger] b.at(r, c) == b.at(14 - r, c),
        forall|c: int| 0 <= c < W ==> !#[trigger] b.at(0, c) && !b.at(7, c) && !b.at(14, c) && !b.at(15, c),
        forall|c: int| 0 <= c < W ==> (#[trigger] b.at(13, c) <==> (c == 3 || c == 4 || c == 10 || c == 11)),
        forall|c: int| 0 <= c < W ==> (#[trigger] b.at(8, c) <==> (3 <= c <= 5 || 9 <= c <= 11)),
{
    let rows = custom9_rows();
    lemma_custom9_rows_square();
    assert forall|r: int, c: int| 0 <= r < H && 0 <= c < W implies #[trigger] b.at(r, c) == (rows[r][c] == '#') by {
        assert(b.at(r, c) == pattern_cell(Pattern::Custom9, r, c));
        lemma_square_ascii_cell(rows, r, c);
    }
    assert forall|r: int| 0 <= r <= 14 implies #[trigger] rows[r] == rows[14 - r] by {
        if r == 0 || r == 14 {
        } else if r == 1 || r == 13 {
        } else if r == 2 || r == 12 {
        } else if r == 3 || r == 11 {
        } else if r == 4 || r == 10 {
        } else if r == 5 || r == 9 {
        } else if r == 6 || r == 8 {
        }
    }
    reveal_strlit("................");
    reveal_strlit("...##.....##....");
    reveal_strlit("...###...###....");
    assert forall|r: int, c: int| 0 <= r <= 14 && 0 <= c < W implies #[trigger] b.at(r, c) == b.at(14 - r, c) by {
        assert(rows[r] == rows[14 - r]);
    }
}

/// The cells that `pattern` makes alive (for every pattern but `Random`, which
/// overwrites the whole board).
pub open spec fn pattern_cell(pattern: Pattern, r: int, c: int) -> bool {
    match pattern {
        Pattern::Glider => glider_cell(4, 2, r, c),
        Pattern::Random => false,
        Pattern::Blinker => blinker_cell(5, 4, r, c),
        Pattern::Toad => toad_cell(5, 4, r, c),
        Pattern::Beacon => beacon_cell(4, 4, r, c),
        Pattern::Lwss => lwss_cell(5, 6, r, c),
        Pattern::Block => block_cell(5, 4, r, c),
        Pattern::Pentadecathlon => ascii_cell(pentadecathlon_rows(), r, c),
        Pattern::Cross => cross_cell(7, 7, r, c),
        Pattern::Custom9 => ascii_cell(custom9_rows(), r, c),
    }
}

/// `new` is `old` with the cells of `shape` made alive.
pub open spec fn stamped(old: Board, new: Board, shape: spec_fn(int, int) -> bool) -> bool {
    forall|r: int, c: int|
        0 <= r < H && 0 <= c < W ==> #[trigger] new.at(r, c) == (old.at(r, c) || shape(r, c))
}

/// Row `row` of the random board for `random_seed`, given the generator's value
/// `seed` before the row; and the value after it.
fn random_row(random_seed: u32, seed: u32, row: usize) -> (res: ([bool; W], u32))
    requires
        row < H,
        seed == lcg_iter(random_seed, row * W),
    ensures
        res.1 == lcg_iter(random_seed, row * W + W),
        forall|c: int| 0 <= c < W ==> #[trigger] res.0[c] == random_cell(random_seed, row as int, c),
{
    let mut line = [false; W];
    let mut seed = seed;
    for col in 0..W
        invariant
            row < H,
            seed == lcg_iter(random_seed, row * W + col),
            forall|c: int| 0 <= c < col ==> #[trigger] line[c] == random_cell(random_seed, row as int, c),
    {
        let ghost n = row * W + col;
        seed = seed.wrapping_mul(1664525).wrapping_add(1013904223);
        assert(seed == lcg_iter(random_seed, n + 1));
        line[col] = (seed & 0x100) != 0;
    }
    (line, seed)
}

/// The random pattern depends on the seed alone: two boards that `add_pattern` filled
/// from the same seed have the same cells, whatever they held before.
pub proof fn lemma_random_board_determined(first: Board, second: Board, seed: u32)
    requires
        forall|r: int, c: int|
            0 <= r < H && 0 <= c < W ==> #[trigger] first.at(r, c) == random_cell(seed, r, c),
        forall|r: int, c: int|
            0 <= r < H && 0 <= c < W ==> #[trigger] second.at(r, c) == random_cell(seed, r, c),
    ensures
        first.same_cells(second),
{
}

/// `new` is `old` after `add_pattern(pattern, seed)`: `Random` overwrites every cell
/// from the generator seeded with `seed`, the others make their cells alive.
pub open spec fn pattern_placed(old: Board, new: Board, pattern: Pattern, seed: u32) -> bool {
    &&& pattern is Random ==> forall|r: int, c: int|
        0 <= r < H && 0 <= c < W ==> #[trigger] new.at(r, c) == random_cell(seed, r, c)
    &&& !(pattern is Random) ==> stamped(old, new, |r: int, c: int| pattern_cell(pattern, r, c))
}

impl Board {
    fn add_glider(&mut self, row: usize, col: usize)
        requires
            row < H,
            col < W,
        ensures
            stamped(*old(self), *final(self), |r: int, c: int| glider_cell(row as int, col as int, r, c)),
    {
        self.set_alive(row, col + 1);
        self.set_alive(row + 1, col + 2);
        self.set_alive(row + 2, col);
        self.set_alive(row + 2, col + 1);
        self.set_alive(row + 2, col + 2);
    }

    fn add_blinker(&mut self, row: usize, col: usize)
        requires
            row < H,
            col < W,
        ensures
            stamped(*old(self), *final(self), |r: int, c: int| blinker_cell(row as int, col as int, r, c)),
    {
        self.set_alive(row, col);
        self.set_alive(row, col + 1);
        self.set_alive(row, col + 2);
    }

    fn add_toad(&mut self, row: usize, col: usize)
        requires
            row < H,
            col < W,
        ensures
            stamped(*old(self), *final(self), |r: int, c: int| toad_cell(row as int, col as int, r, c)),
    {
        self.set_alive(row, col + 1);
        self.set_alive(row, col + 2);
        self.set_alive(row, col + 3);
        self.set_alive(row + 1, col);
        self.set_alive(row + 1, col + 1);
        self.set_alive(row + 1, col + 2);
    }

    fn add_beacon(&mut self, row: usize, col: usize)
        requires
            row < H,
            col < W,
        ensures
            stamped(*old(self), *final(self), |r: int, c: int| beacon_cell(row as int, col as int, r, c)),
    {
        self.set_alive(row, col);
        self.set_alive(row, col + 1);
        self.set_alive(row + 1, col);
        self.set_alive(row + 1, col + 1);
        self.set_alive(row + 2, col + 2);
        self.set_alive(row + 2, col + 3);
        self.set_alive(row + 3, col + 2);
        self.set_alive(row + 3, col + 3);
    }

    fn add_lwss(&mut self, row: usize, col: usize)
        requires
            row < H,
            col < W,
        ensures
            stamped(*old(self), *final(self), |r: int, c: int| lwss_cell(row as int, col as int, r, c)),
    {
        self.set_alive(row, col + 1);
        self.set_alive(row + 1, col);
        self.set_alive(row + 2, col);
        self.set_alive(row + 2, col + 1);
        self.set_alive(row + 2, col + 2);
        self.set_alive(row + 2, col + 3);
        self.set_alive(row + 1, col + 3);
    }

    fn add_block(&mut self, row: usize, col: usize)
        requires
            row < H,
            col < W,
        ensures
            stamped(*old(self), *final(self), |r: int, c: int| block_cell(row as int, col as int, r, c)),
    {
        self.set_alive(row, col);
        self.set_alive(row, col + 1);
        self.set_alive(row + 1, col);
        self.set_alive(row + 1, col + 1);
    }

    fn add_random(&mut self, random_seed: u32)
        ensures
            forall|r: int, c: int|
                0 <= r < H && 0 <= c < W ==> #[trigger] final(self).at(r, c) == random_cell(random_seed, r, c),
    {
        let mut seed = random_seed;
        for row in 0..H
            invariant
                seed == lcg_iter(random_seed, row * W),
                forall|r: int, c: int|
                    0 <= r < row && 0 <= c < W ==> #[trigger] self.at(r, c) == random_cell(random_seed, r, c),
        {
            let (line, next) = random_row(random_seed, seed, row);
            seed = next;
            let ghost before = *self;
            self.cells[row] = line;
            assert(row * W + W == (row + 1) * W);
            assert forall|r: int, c: int| 0 <= r < row + 1 && 0 <= c < W implies #[trigger] self.at(r, c)
                == random_cell(random_seed, r, c) by {
                if r < row {
                    assert(self.cells[r] == before.cells[r]);
                    assert(before.at(r, c) == random_cell(random_seed, r, c));
                }
            }
        }
    }

    fn draw_ascii(&mut self, rows: &[&str])
        ensures
            stamped(*old(self), *final(self), |r: int, c: int| ascii_cell(rows@.map_values(|s: &str| s@), r, c)),
    {
        let ghost start = *self;
        let ghost views = rows@.map_values(|s: &str| s@);
        for i in 0..rows.len()
            invariant
                views == rows@.map_values(|s: &str| s@),
                forall|r: int, c: int|
                    0 <= r < H && 0 <= c < W ==> #[trigger] self.at(r, c) == (start.at(r, c)
                        || ascii_cell(views.take(i as int), r, c)),
        {
            let text: &str = rows[i];
            let ghost before = *self;
            let mut col: usize = 0;
            for ch in it: text.chars()
                invariant
                    col == it.index() % (W as int),
                    it.seq() == text@,
                    forall|r: int, c: int|
                        0 <= r < H && 0 <= c < W ==> #[trigger] self.at(r, c) == (before.at(r, c) || exists|j: int|
                            0 <= j < it.index() && text@[j] == '#' && i % H == r && j % (W as int) == c),
            {
                if ch == '#' {
                    self.set_alive(i, col);
                }
                col = if col + 1 == W { 0 } else { col + 1 };
            }
            proof {
                assert forall|r: int, c: int| 0 <= r < H && 0 <= c < W implies #[trigger] self.at(r, c) == (
                start.at(r, c) || ascii_cell(views.take(i + 1), r, c)) by {
                    let vt = views.take(i + 1);
                    if ascii_cell(vt, r, c) && !ascii_cell(views.take(i as int), r, c) {
                        let (a, b) = choose|a: int, b: int|
                            0 <= a < vt.len() && 0 <= b < vt[a].len() && #[trigger] vt[a][b] == '#'
                                && a % (H as int) == r && b % (W as int) == c;
                        if a < i {
                            assert(views.take(i as int)[a][b] == '#');
                        }
                    }
                    if ascii_cell(views.take(i as int), r, c) {
                        let (a, b) = choose|a: int, b: int|
                            0 <= a < views.take(i as int).len() && 0 <= b < views.take(i as int)[a].len()
                                && #[trigger] views.take(i as int)[a][b] == '#' && a % (H as int) == r && b % (W as int) == c;
                        assert(vt[a][b] == '#');
                    }
                    if exists|j: int| 0 <= j < text@.len() && text@[j] == '#' && i % H == r && j % (W as int) == c {
                        let j = choose|j: int| 0 <= j < text@.len() && text@[j] == '#' && i % H == r && j % (W as int) == c;
                        assert(vt[i as int][j] == '#');
                    }
                }
            }
        }
        assert(views.take(rows.len() as int) =~= views);
    }

    fn add_pentadecathlon(&mut self)
        ensures
            stamped(*old(self), *final(self), |r: int, c: int| ascii_cell(pentadecathlon_rows(), r, c)),
    {
        let rows: [&str; 16] = [
            "................",
            "................",
            "................",
            "......###.......",
            ".....#...#......",
            "................",
            "....#.....#.....",
            "....#.....#.....",
            "................",
            ".....#...#......",
            "......###.......",
            "................",
            "................",
            "................",
            "................",
            "................",
        ];
        assert(rows@.map_values(|s: &str| s@) =~= pentadecathlon_rows());
        self.draw_ascii(&rows);
    }

    fn add_custom9(&mut self)
        ensures
            stamped(*old(self), *final(self), |r: int, c: int| ascii_cell(custom9_rows(), r, c)),
    {
        let rows: [&str; 16] = [
            "................",
            "...##.....##....",
            "....##...##.....",
            ".#..#.#.#.#..#..",
            ".###.##.##.###..",
            "..#.#.#.#.#.#...",
            "...###...###....",
            "................",
            "...###...###....",
            "..#.#.#.#.#.#...",
            ".###.##.##.###..",
            ".#..#.#.#.#..#..",
            "....##...##.....",
            "...##.....##....",
            "................",
            "................",
        ];
        assert(rows@.map_values(|s: &str| s@) =~= custom9_rows());
        self.draw_ascii(&rows);
    }

    /// Places `pattern` on the board; `Random` overwrites every cell from the generator
    /// seeded with `random_seed`, the others make their cells alive and leave the rest.
    pub fn add_pattern(&mut self, pattern: Pattern, random_seed: u32)
        ensures
            pattern_placed(*old(self), *final(self), pattern, random_seed),
    {
        match pattern {
            Pattern::Glider => self.add_glider(4, 2),
            Pattern::Random => self.add_random(random_seed),
            Pattern::Blinker => self.add_blinker(5, 4),
            Pattern::Toad => self.add_toad(5, 4),
            Pattern::Beacon => self.add_beacon(4, 4),
            Pattern::Lwss => self.add_lwss(5, 6),
            Pattern::Block => self.add_block(5, 4),
            Pattern::Pentadecathlon => self.add_pentadecathlon(),
            Pattern::Cross => self.add_cross(7, 7),
            Pattern::Custom9 => self.add_custom9(),
        }
    }

    fn add_cross(&mut self, row: usize, col: usize)
        ensures
            stamped(*old(self), *final(self), |r: int, c: int| cross_cell(row as int, col as int, r, c)),
    {
        let ghost start = *self;
        for c in 0..W
            invariant
                forall|r0: int, c0: int|
                    0 <= r0 < H && 0 <= c0 < W ==> #[trigger] self.at(r0, c0) == (start.at(r0, c0) || (r0
                        == row % H && c0 < c)),
        {
            self.set_alive(row, c);
        }
        for r in 0..H
            invariant
                forall|r0: int, c0: int|
                    0 <= r0 < H && 0 <= c0 < W ==> #[trigger] self.at(r0, c0) == (start.at(r0, c0) || r0
                        == row % H || (c0 == col % W && r0 < r)),
        {
            self.set_alive(r, col);
        }
    }
}

} // verus!
