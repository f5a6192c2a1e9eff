//! Sums over the cells of the torus, and the law that relates the neighbour counts
//! to the number of live cells.
use vstd::prelude::*;
use crate::board::{Board, H, W, b2i};

verus! {

/// The sum of `f` over `lo..hi`.
pub open spec fn sum_range(f: spec_fn(int) -> int, lo: int, hi: int) -> int
    decreases hi - lo,
{
    if hi <= lo {
        0
    } else {
        sum_range(f, lo, hi - 1) + f(hi - 1)
    }
}

proof fn lemma_sum_ext(f: spec_fn(int) -> int, g: spec_fn(int) -> int, lo: int, hi: int)
    requires
        forall|x: int| lo <= x < hi ==> #[trigger] f(x) == g(x),
    ensures
        sum_range(f, lo, hi) == sum_range(g, lo, hi),
    decreases hi - lo,
{
    if hi > lo {
        lemma_sum_ext(f, g, lo, hi - 1);
    }
}

proof fn lemma_sum_split(f: spec_fn(int) -> int, lo: int, mid: int, hi: int)
    requires
        lo <= mid <= hi,
    ensures
        sum_range(f, lo, hi) == sum_range(f, lo, mid) + sum_range(f, mid, hi),
    decreases hi - mid,
{
    if hi > mid {
        lemma_sum_split(f, lo, mid, hi - 1);
    }
}

proof fn lemma_sum_shift(f: spec_fn(int) -> int, g: spec_fn(int) -> int, d: int, lo: int, hi: int)
    requires
        forall|x: int| lo <= x < hi ==> #[trigger] g(x) == f(x + d),
    ensures
        sum_range(g, lo, hi) == sum_range(f, lo + d, hi + d),
    decreases hi - lo,
{
    if hi > lo {
        lemma_sum_shift(f, g, d, lo, hi - 1);
    }
}

/// Summing a cyclic rotation of `f` over `0..n` gives the sum of `f`.
proof fn lemma_sum_rotate(f: spec_fn(int) -> int, g: spec_fn(int) -> int, d: int, n: int)
    requires
        0 <= d <= n,
        forall|x: int| 0 <= x < n ==> #[trigger] g(x) == f((x + d) % n),
    ensures
        sum_range(g, 0, n) == sum_range(f, 0, n),
{
    assert forall|x: int| 0 <= x < n - d implies #[trigger] g(x) == f(x + d) by {
        vstd::arithmetic::div_mod::lemma_small_mod((x + d) as nat, n as nat);
    }
    assert forall|x: int| n - d <= x < n implies #[trigger] g(x) == f(x + (d - n)) by {
        vstd::arithmetic::div_mod::lemma_fundamental_div_mod_converse_mod(x + d, n, 1, x + d - n);
    }
    lemma_sum_split(g, 0, n - d, n);
    lemma_sum_shift(f, g, d, 0, n - d);
    lemma_sum_shift(f, g, d - n, n - d, n);
    lemma_sum_split(f, 0, d, n);
}

proof fn lemma_sum8(
    f0: spec_fn(int) -> int,
    f1: spec_fn(int) -> int,
    f2: spec_fn(int) -> int,
    f3: spec_fn(int) -> int,
    f4: spec_fn(int) -> int,
    f5: spec_fn(int) -> int,
    f6: spec_fn(int) -> int,
    f7: spec_fn(int) -> int,
    h: spec_fn(int) -> int,
    lo: int,
    hi: int,
)
    requires
        forall|x: int|
            lo <= x < hi ==> #[trigger] h(x) == f0(x) + f1(x) + f2(x) + f3(x) + f4(x) + f5(x) + f6(x)
                + f7(x),
    ensures
        sum_range(h, lo, hi) == sum_range(f0, lo, hi) + sum_range(f1, lo, hi) + sum_range(f2, lo, hi)
            + sum_range(f3, lo, hi) + sum_range(f4, lo, hi) + sum_range(f5, lo, hi) + sum_range(
            f6,
            lo,
            hi,
        ) + sum_range(f7, lo, hi),
    decreases hi - lo,
{
    if hi > lo {
        lemma_sum8(f0, f1, f2, f3, f4, f5, f6, f7, h, lo, hi - 1);
    }
}

/// The live cells of row `r`.
pub open spec fn row_total(b: Board, r: int) -> int {
    sum_range(|c: int| b2i(b.at(r, c)), 0, W as int)
}

/// Along row `r`: 1 at column `c` where the cell at (`r + dr`, `c + dc`) on the torus is alive.
pub open spec fn cell_term(b: Board, dr: int, dc: int, r: int) -> spec_fn(int) -> int {
    |c: int| b2i(b.wrapped(r + dr, c + dc))
}

/// The sums of `cell_term` along each row.
pub open spec fn row_term(b: Board, dr: int, dc: int) -> spec_fn(int) -> int {
    |r: int| sum_range(cell_term(b, dr, dc, r), 0, W as int)
}

/// The sum over the board of the cells shifted by (`dr`, `dc`).
pub open spec fn shifted_total(b: Board, dr: int, dc: int) -> int {
    sum_range(row_term(b, dr, dc), 0, H as int)
}

/// The sums of the neighbour counts along each row.
pub open spec fn neighbor_row(b: Board) -> spec_fn(int) -> int {
    |r: int| sum_range(|c: int| b.neighbors(r, c), 0, W as int)
}

/// The sum of the neighbour counts over the board.
pub open spec fn neighbor_total(b: Board) -> int {
    sum_range(neighbor_row(b), 0, H as int)
}

proof fn lemma_row_live_is_sum(b: Board, r: int, n: int)
    ensures
        b.row_live(r, n) == sum_range(|c: int| b2i(b.at(r, c)), 0, n),
    decreases n,
{
    if n > 0 {
        lemma_row_live_is_sum(b, r, n - 1);
    }
}

proof fn lemma_live_is_sum(b: Board, n: int)
    ensures
        b.live_upto(n) == sum_range(|r: int| row_total(b, r), 0, n),
    decreases n,
{
    if n > 0 {
        lemma_live_is_sum(b, n - 1);
        lemma_row_live_is_sum(b, n - 1, W as int);
    }
}

/// Shifting the board around the torus does not change how many cells are alive.
proof fn lemma_shifted_total(b: Board, dr: int, dc: int)
    requires
        -1 <= dr <= 1,
        -1 <= dc <= 1,
    ensures
        shifted_total(b, dr, dc) == b.live(),
{
    let rd = (dr + H) % (H as int);
    let cd = (dc + W) % (W as int);
    let outer = row_term(b, dr, dc);
    let rows = |r: int| row_total(b, r);
    assert forall|r: int| 0 <= r < H implies #[trigger] outer(r) == rows((r + rd) % (H as int)) by {
        let r0 = (r + rd) % (H as int);
        let inner = cell_term(b, dr, dc, r);
        let cells = |c: int| b2i(b.at(r0, c));
        assert forall|c: int| 0 <= c < W implies #[trigger] inner(c) == cells((c + cd) % (W as int)) by {
            assert((r + dr) % (H as int) == r0);
            assert((c + dc) % (W as int) == (c + cd) % (W as int));
        }
        lemma_sum_rotate(cells, inner, cd, W as int);
    }
    lemma_sum_rotate(rows, outer, rd, H as int);
    lemma_live_is_sum(b, H as int);
}

/// Every live cell is a neighbour of exactly eight cells: over the board, the
/// neighbour counts add up to eight times the number of live cells.
pub proof fn lemma_neighbor_total(b: Board)
    ensures
        neighbor_total(b) == 8 * b.live(),
{
    let h = neighbor_row(b);
    assert forall|r: int| 0 <= r < H implies #[trigger] h(r) == row_term(b, -1, -1)(r) + row_term(b, -1, 0)(r)
        + row_term(b, -1, 1)(r) + row_term(b, 0, -1)(r) + row_term(b, 0, 1)(r) + row_term(b, 1, -1)(r)
        + row_term(b, 1, 0)(r) + row_term(b, 1, 1)(r) by {
        lemma_sum8(
            cell_term(b, -1, -1, r),
            cell_term(b, -1, 0, r),
            cell_term(b, -1, 1, r),
            cell_term(b, 0, -1, r),
            cell_term(b, 0, 1, r),
            cell_term(b, 1, -1, r),
            cell_term(b, 1, 0, r),
            cell_term(b, 1, 1, r),
            |c: int| b.neighbors(r, c),
            0,
            W as int,
        );
    }
    lemma_sum8(
        row_term(b, -1, -1),
        row_term(b, -1, 0),
        row_term(b, -1, 1),
        row_term(b, 0, -1),
        row_term(b, 0, 1),
        row_term(b, 1, -1),
        row_term(b, 1, 0),
        row_term(b, 1, 1),
        h,
        0,
        H as int,
    );
    lemma_shifted_total(b, -1, -1);
    lemma_shifted_total(b, -1, 0);
    lemma_shifted_total(b, -1, 1);
    lemma_shifted_total(b, 0, -1);
    lemma_shifted_total(b, 0, 1);
    lemma_shifted_total(b, 1, -1);
    lemma_shifted_total(b, 1, 0);
    lemma_shifted_total(b, 1, 1);
}

} // verus!
