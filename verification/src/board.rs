use vstd::prelude::*;

verus! {

/// Number of rows of the board.
pub const H: usize = 16;
/// Number of columns of the board.
pub const W: usize = 16;

/// A board of `H` x `W` cells; the edges wrap around (a torus).
#[derive(Clone, Copy, Debug)]
pub struct Board {
    pub cells: [[bool; W]; H],
}

/// 1 for a live cell, 0 for a dead one.
pub open spec fn b2i(x: bool) -> int {
    if x { 1 } else { 0 }
}

/// Conway's rule: a live cell survives with 2 or 3 live neighbours, a dead
/// cell is born with exactly 3.
pub open spec fn life_rule(alive: bool, neighbors: int) -> bool {
    (alive && (neighbors == 2 || neighbors == 3)) || (!alive && neighbors == 3)
}

impl Board {
    /// Whether the cell at (`r`, `c`) is alive, for `0 <= r < H`, `0 <= c < W`.
    pub open spec fn at(self, r: int, c: int) -> bool {
        self.cells[r][c]
    }

    /// The cell at (`r mod H`, `c mod W`), for any integers `r`, `c`.
    pub open spec fn wrapped(self, r: int, c: int) -> bool {
        self.at(r % (H as int), c % (W as int))
    }

    /// The number of live cells among the eight that surround (`r`, `c`) on the torus.
    pub open spec fn neighbors(self, r: int, c: int) -> int {
        b2i(self.wrapped(r - 1, c - 1)) + b2i(self.wrapped(r - 1, c)) + b2i(self.wrapped(r - 1, c + 1))
            + b2i(self.wrapped(r, c - 1)) + b2i(self.wrapped(r, c + 1))
            + b2i(self.wrapped(r + 1, c - 1)) + b2i(self.wrapped(r + 1, c)) + b2i(self.wrapped(r + 1, c + 1))
    }

    /// The state of (`r`, `c`) one generation later.
    pub open spec fn next_at(self, r: int, c: int) -> bool {
        life_rule(self.at(r, c), self.neighbors(r, c))
    }

    /// Two boards with the same cells.
    pub open spec fn same_cells(self, other: Board) -> bool {
        forall|r: int, c: int| 0 <= r < H && 0 <= c < W ==> #[trigger] self.at(r, c) == other.at(r, c)
    }

    /// `self` is a predecessor of `target`: one generation turns it into `target`.
    pub open spec fn is_predecessor_of(self, target: Board) -> bool {
        forall|r: int, c: int| 0 <= r < H && 0 <= c < W ==> #[trigger] self.next_at(r, c) == target.at(r, c)
    }

    /// Number of live cells among the first `n` cells of row `r`.
    pub open spec fn row_live(self, r: int, n: int) -> int
        decreases n,
    {
        if n <= 0 { 0 } else { self.row_live(r, n - 1) + b2i(self.at(r, n - 1)) }
    }

    /// Number of live cells in the first `n` rows.
    pub open spec fn live_upto(self, n: int) -> int
        decreases n,
    {
        if n <= 0 { 0 } else { self.live_upto(n - 1) + self.row_live(n - 1, W as int) }
    }

    /// Number of live cells on the board.
    pub open spec fn live(self) -> int {
        self.live_upto(H as int)
    }

    /// An empty board.
    pub fn new() -> (b: Self)
        ensures
            forall|r: int, c: int| 0 <= r < H && 0 <= c < W ==> !#[trigger] b.at(r, c),
    {
        Board { cells: [[false; W]; H] }
    }

    /// The number of live cells among the eight that surround
    /// (`row mod H`, `col mod W`); the board wraps at its edges.
    pub fn count_live_neighbors(&self, row: usize, col: usize) -> (n: u8)
        ensures
            n == self.neighbors((row % H) as int, (col % W) as int),
    {
        let r = row % H;
        let c = col % W;
        let up = (r + H - 1) % H;
        let down = (r + 1) % H;
        let left = (c + W - 1) % W;
        let right = (c + 1) % W;
        let rows: [usize; 3] = [up, r, down];
        let cols: [usize; 3] = [left, c, right];
        let mut count: u8 = 0;
        let ghost r_i = r as int;
        let ghost c_i = c as int;
        assert(up as int == (r_i - 1) % (H as int));
        assert(down as int == (r_i + 1) % (H as int));
        assert(left as int == (c_i - 1) % (W as int));
        assert(right as int == (c_i + 1) % (W as int));
        assert(r_i == r_i % (H as int));
        assert(c_i == c_i % (W as int));
        if self.cells[up][left] { count = count + 1; }
        if self.cells[up][c] { count = count + 1; }
        if self.cells[up][right] { count = count + 1; }
        if self.cells[r][left] { count = count + 1; }
        if self.cells[r][right] { count = count + 1; }
        if self.cells[down][left] { count = count + 1; }
        if self.cells[down][c] { count = count + 1; }
        if self.cells[down][right] { count = count + 1; }
        count
    }

    /// Advances the board by one generation of Conway's Game of Life.
    pub fn step(&mut self)
        ensures
            forall|r: int, c: int|
                0 <= r < H && 0 <= c < W ==> #[trigger] final(self).at(r, c) == old(self).next_at(r, c),
    {
        let mut next: [[bool; W]; H] = [[false; W]; H];
        for row in 0..H
            invariant
                forall|r: int, c: int|
                    0 <= r < row && 0 <= c < W ==> #[trigger] next[r][c] == self.next_at(r, c),
        {
            let mut line: [bool; W] = [false; W];
            for col in 0..W
                invariant
                    0 <= row < H,
                    forall|c: int| 0 <= c < col ==> #[trigger] line[c] == self.next_at(row as int, c),
            {
                let live_neighbors = self.count_live_neighbors(row, col);
                let alive = self.cells[row][col];
                line[col] = (alive && (live_neighbors == 2 || live_neighbors == 3))
                    || (!alive && live_neighbors == 3);
            }
            next[row] = line;
        }
        self.cells = next;
    }

    /// The number of live cells on the board.
    pub fn count_live_cells(&self) -> (n: u16)
        ensures
            n == self.live(),
    {
        let mut count: u16 = 0;
        for row in 0..H
            invariant
                count == self.live_upto(row as int),
                count <= row * W,
        {
            let mut in_row: u16 = 0;
            for col in 0..W
                invariant
                    0 <= row < H,
                    in_row == self.row_live(row as int, col as int),
                    in_row <= col,
            {
                if self.cells[row][col] {
                    in_row = in_row + 1;
                }
            }
            count = count + in_row;
        }
        count
    }

    /// Makes the cell at (`row mod H`, `col mod W`) alive.
    pub fn set_alive(&mut self, row: usize, col: usize)
        ensures
            forall|r: int, c: int|
                0 <= r < H && 0 <= c < W ==> #[trigger] final(self).at(r, c) == (old(self).at(r, c)
                    || (r == row % H && c == col % W)),
    {
        let r = row % H;
        let c = col % W;
        let mut line = self.cells[r];
        line[c] = true;
        self.cells[r] = line;
    }
}

proof fn lemma_row_live_same_cells(a: Board, b: Board, r: int, n: int)
    requires
        a.same_cells(b),
        0 <= r < H,
        n <= W,
    ensures
        a.row_live(r, n) == b.row_live(r, n),
    decreases n,
{
    if n > 0 {
        lemma_row_live_same_cells(a, b, r, n - 1);
        assert(a.at(r, n - 1) == b.at(r, n - 1));
    }
}

/// Boards with the same cells have the same number of live cells.
pub proof fn lemma_live_same_cells(a: Board, b: Board)
    requires
        a.same_cells(b),
    ensures
        a.live() == b.live(),
{
    lemma_live_upto_same_cells(a, b, H as int);
}

proof fn lemma_live_upto_same_cells(a: Board, b: Board, n: int)
    requires
        a.same_cells(b),
        n <= H,
    ensures
        a.live_upto(n) == b.live_upto(n),
    decreases n,
{
    if n > 0 {
        lemma_live_upto_same_cells(a, b, n - 1);
        lemma_row_live_same_cells(a, b, n - 1, W as int);
    }
}

/// `moved` is `b` shifted by `a` rows and `d` columns around the torus.
pub open spec fn is_shift_of(moved: Board, b: Board, a: int, d: int) -> bool {
    forall|r: int, c: int|
        0 <= r < H && 0 <= c < W ==> #[trigger] moved.at(r, c) == b.at(
            (r + H - a) % (H as int),
            (c + W - d) % (W as int),
        )
}

proof fn lemma_mod_add(x: int, y: int, m: int)
    requires
        m > 0,
    ensures
        ((x % m) + y) % m == (x + y) % m,
{
    vstd::arithmetic::div_mod::lemma_fundamental_div_mod(x, m);
    vstd::arithmetic::div_mod::lemma_mod_multiples_vanish(x / m, (x % m) + y, m);
    assert(x + y == m * (x / m) + ((x % m) + y));
}

/// In a shifted board, each cell sees the shifted neighbourhood.
proof fn lemma_shift_wrapped(moved: Board, b: Board, a: int, d: int, r: int, c: int, dr: int, dc: int)
    requires
        0 <= a < H,
        0 <= d < W,
        is_shift_of(moved, b, a, d),
    ensures
        moved.wrapped(r + dr, c + dc) == b.wrapped(
            (r + H - a) % (H as int) + dr,
            (c + W - d) % (W as int) + dc,
        ),
{
    let hr = (r + dr) % (H as int);
    let hc = (c + dc) % (W as int);
    assert(moved.at(hr, hc) == b.at((hr + H - a) % (H as int), (hc + W - d) % (W as int)));
    lemma_mod_add(r + dr, H - a, H as int);
    lemma_mod_add(c + dc, W - d, W as int);
    lemma_mod_add(r + H - a, dr, H as int);
    lemma_mod_add(c + W - d, dc, W as int);
    assert(r + dr + (H - a) == r + H - a + dr);
    assert(c + dc + (W - d) == c + W - d + dc);
}

/// Stepping commutes with every translation of the torus: the next generation of a
/// shifted board is the shifted next generation.
pub proof fn lemma_step_commutes_with_shift(b0: Board, b1: Board, s0: Board, s1: Board, a: int, d: int)
    requires
        0 <= a < H,
        0 <= d < W,
        is_shift_of(b1, b0, a, d),
        forall|r: int, c: int| 0 <= r < H && 0 <= c < W ==> #[trigger] s0.at(r, c) == b0.next_at(r, c),
        forall|r: int, c: int| 0 <= r < H && 0 <= c < W ==> #[trigger] s1.at(r, c) == b1.next_at(r, c),
    ensures
        is_shift_of(s1, s0, a, d),
{
    assert forall|r: int, c: int| 0 <= r < H && 0 <= c < W implies #[trigger] s1.at(r, c) == s0.at(
        (r + H - a) % (H as int),
        (c + W - d) % (W as int),
    ) by {
        let r0 = (r + H - a) % (H as int);
        let c0 = (c + W - d) % (W as int);
        assert(b1.at(r, c) == b0.at(r0, c0));
        lemma_shift_wrapped(b1, b0, a, d, r, c, -1, -1);
        lemma_shift_wrapped(b1, b0, a, d, r, c, -1, 0);
        lemma_shift_wrapped(b1, b0, a, d, r, c, -1, 1);
        lemma_shift_wrapped(b1, b0, a, d, r, c, 0, -1);
        lemma_shift_wrapped(b1, b0, a, d, r, c, 0, 1);
        lemma_shift_wrapped(b1, b0, a, d, r, c, 1, -1);
        lemma_shift_wrapped(b1, b0, a, d, r, c, 1, 0);
        lemma_shift_wrapped(b1, b0, a, d, r, c, 1, 1);
        assert(b1.neighbors(r, c) == b0.neighbors(r0, c0));
        assert(s0.at(r0, c0) == b0.next_at(r0, c0));
    }
}

impl PartialEq for Board {
    fn eq(&self, other: &Board) -> (same: bool) {
        let mut row: usize = 0;
        while row < H
            invariant
                row <= H,
                forall|r: int, c: int| 0 <= r < row && 0 <= c < W ==> #[trigger] self.at(r, c) == other.at(r, c),
            decreases H - row,
        {
            let mut col: usize = 0;
            while col < W
                invariant
                    row < H,
                    col <= W,
                    forall|c: int| 0 <= c < col ==> #[trigger] self.at(row as int, c) == other.at(row as int, c),
                decreases W - col,
            {
                if self.cells[row][col] != other.cells[row][col] {
                    assert(self.at(row as int, col as int) != other.at(row as int, col as int));
                    return false;
                }
                col = col + 1;
            }
            row = row + 1;
        }
        true
    }
}

impl vstd::std_specs::cmp::PartialEqSpecImpl for Board {
    open spec fn obeys_eq_spec() -> bool {
        true
    }

    open spec fn eq_spec(&self, other: &Board) -> bool {
        self.same_cells(*other)
    }
}

impl Eq for Board {

}

} // verus!
