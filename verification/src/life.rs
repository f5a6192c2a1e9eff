//! The clauses that say "this assignment is a predecessor of the target board".
use vstd::prelude::*;
use crate::board::{Board, H, W, b2i, life_rule};
use crate::cnf::{Assignment, lit_holds, clause_holds, all_hold, lemma_all_hold_concat, literals_in_range, lemma_literals_concat};

verus! {

/// The SAT variable (1-based) that stands for the cell (`r`, `c`).
pub open spec fn cell_var(r: int, c: int) -> int {
    r * (W as int) + c + 1
}

/// Row of the `j`-th cell (0 <= j < 9, row-major) of the 3x3 block centred on row `r`.
pub open spec fn block_row(r: int, j: int) -> int {
    (r + j / 3 - 1) % (H as int)
}

/// Column of the `j`-th cell (0 <= j < 9, row-major) of the 3x3 block centred on column `c`.
pub open spec fn block_col(c: int, j: int) -> int {
    (c + j % 3 - 1) % (W as int)
}

/// The variable of the `j`-th cell of the block around (`r`, `c`); `j == 4` is the centre.
pub open spec fn block_var(r: int, c: int, j: int) -> int {
    cell_var(block_row(r, j), block_col(c, j))
}

/// Bit `j` of `bits`: the state (1 = alive) that `bits` gives the `j`-th cell of a block.
pub open spec fn bit(bits: u16, j: int) -> u16 {
    (bits >> (j as u16)) & 1
}

/// Sum of the bits `0..n` of `bits`, leaving out the centre bit 4.
pub open spec fn ring_sum(bits: u16, n: int) -> int
    decreases n,
{
    if n <= 0 {
        0
    } else {
        ring_sum(bits, n - 1) + if n - 1 == 4 { 0 } else { bit(bits, n - 1) as int }
    }
}

/// Whether the centre of a block whose cells `bits` gives is alive one generation later.
pub open spec fn produces_alive(bits: u16) -> bool {
    life_rule(bit(bits, 4) == 1, ring_sum(bits, 9))
}

/// The clause that is false exactly when the block around (`r`, `c`) shows `bits`:
/// the literal of cell `j` is negative where `bits` has a 1, positive where it has a 0.
pub open spec fn block_clause(r: int, c: int, bits: u16) -> Seq<i32> {
    Seq::new(
        9,
        |j: int|
            if bit(bits, j) == 1 {
                (-block_var(r, c, j)) as i32
            } else {
                block_var(r, c, j) as i32
            },
    )
}

/// The clauses of cell (`r`, `c`) for the block states `0..n`: one for each state
/// after which the cell would not have its state in `target`.
pub open spec fn cell_clauses(target: Board, r: int, c: int, n: int) -> Seq<Seq<i32>>
    decreases n,
{
    if n <= 0 {
        seq![]
    } else {
        cell_clauses(target, r, c, n - 1) + if produces_alive((n - 1) as u16) != target.at(r, c) {
            seq![block_clause(r, c, (n - 1) as u16)]
        } else {
            seq![]
        }
    }
}

/// The clauses of the first `k` cells, in row-major order.
pub open spec fn life_clauses_upto(target: Board, k: int) -> Seq<Seq<i32>>
    decreases k,
{
    if k <= 0 {
        seq![]
    } else {
        life_clauses_upto(target, k - 1) + cell_clauses(
            target,
            (k - 1) / (W as int),
            (k - 1) % (W as int),
            512,
        )
    }
}

/// All the clauses for `target`: an assignment of the cell variables satisfies
/// them exactly when the board it describes steps to `target`.
pub open spec fn life_clauses(target: Board) -> Seq<Seq<i32>> {
    life_clauses_upto(target, (H * W) as int)
}

/// 1 where `a` makes the `j`-th cell of the block around (`r`, `c`) alive, else 0.
pub open spec fn block_bit(a: Assignment, r: int, c: int, j: int) -> u16 {
    if a(block_var(r, c, j)) { 1 } else { 0 }
}

/// The state (bit `j` for cell `j`) that `a` gives the block around (`r`, `c`).
pub open spec fn block_state(a: Assignment, r: int, c: int) -> u16 {
    block_bit(a, r, c, 0) | (block_bit(a, r, c, 1) << 1u16) | (block_bit(a, r, c, 2) << 2u16)
        | (block_bit(a, r, c, 3) << 3u16) | (block_bit(a, r, c, 4) << 4u16) | (block_bit(
        a,
        r,
        c,
        5,
    ) << 5u16) | (block_bit(a, r, c, 6) << 6u16) | (block_bit(a, r, c, 7) << 7u16) | (block_bit(
        a,
        r,
        c,
        8,
    ) << 8u16)
}

/// Number of live neighbours of (`r`, `c`) on the board that `a` describes.
pub open spec fn assigned_neighbors(a: Assignment, r: int, c: int) -> int {
    b2i(a(block_var(r, c, 0))) + b2i(a(block_var(r, c, 1))) + b2i(a(block_var(r, c, 2))) + b2i(
        a(block_var(r, c, 3)),
    ) + b2i(a(block_var(r, c, 5))) + b2i(a(block_var(r, c, 6))) + b2i(a(block_var(r, c, 7))) + b2i(
        a(block_var(r, c, 8)),
    )
}

/// The board that `a` describes steps to `target`.
pub open spec fn assignment_steps_to(a: Assignment, target: Board) -> bool {
    forall|r: int, c: int|
        0 <= r < H && 0 <= c < W ==> #[trigger] life_rule(a(cell_var(r, c)), assigned_neighbors(a, r, c))
            == target.at(r, c)
}

/// `a` gives each cell variable the state that `b` gives its cell.
pub open spec fn describes(a: Assignment, b: Board) -> bool {
    forall|r: int, c: int| 0 <= r < H && 0 <= c < W ==> #[trigger] a(cell_var(r, c)) == b.at(r, c)
}

proof fn lemma_pack(x0: u16, x1: u16, x2: u16, x3: u16, x4: u16, x5: u16, x6: u16, x7: u16, x8: u16)
    by (bit_vector)
    requires
        x0 <= 1, x1 <= 1, x2 <= 1, x3 <= 1, x4 <= 1, x5 <= 1, x6 <= 1, x7 <= 1, x8 <= 1,
    ensures
        ({
            let p = x0 | (x1 << 1u16) | (x2 << 2u16) | (x3 << 3u16) | (x4 << 4u16) | (x5 << 5u16)
                | (x6 << 6u16) | (x7 << 7u16) | (x8 << 8u16);
            &&& p < 512
            &&& (p >> 0u16) & 1 == x0
            &&& (p >> 1u16) & 1 == x1
            &&& (p >> 2u16) & 1 == x2
            &&& (p >> 3u16) & 1 == x3
            &&& (p >> 4u16) & 1 == x4
            &&& (p >> 5u16) & 1 == x5
            &&& (p >> 6u16) & 1 == x6
            &&& (p >> 7u16) & 1 == x7
            &&& (p >> 8u16) & 1 == x8
        }),
{
}

proof fn lemma_bits_determine(p: u16, q: u16)
    by (bit_vector)
    requires
        p < 512,
        q < 512,
        (p >> 0u16) & 1 == (q >> 0u16) & 1,
        (p >> 1u16) & 1 == (q >> 1u16) & 1,
        (p >> 2u16) & 1 == (q >> 2u16) & 1,
        (p >> 3u16) & 1 == (q >> 3u16) & 1,
        (p >> 4u16) & 1 == (q >> 4u16) & 1,
        (p >> 5u16) & 1 == (q >> 5u16) & 1,
        (p >> 6u16) & 1 == (q >> 6u16) & 1,
        (p >> 7u16) & 1 == (q >> 7u16) & 1,
        (p >> 8u16) & 1 == (q >> 8u16) & 1,
    ensures
        p == q,
{
}

proof fn lemma_bit_at_most_one(p: u16, j: u16)
    by (bit_vector)
    ensures
        (p >> j) & 1 <= 1,
{
}

proof fn lemma_block_var_range(r: int, c: int, j: int)
    requires
        0 <= j < 9,
    ensures
        1 <= block_var(r, c, j) <= (H * W) as int,
{
}

proof fn lemma_cell_literals(target: Board, r: int, c: int, n: int)
    ensures
        literals_in_range(cell_clauses(target, r, c, n)),
    decreases n,
{
    if n > 0 {
        lemma_cell_literals(target, r, c, n - 1);
        let tail = if produces_alive((n - 1) as u16) != target.at(r, c) {
            seq![block_clause(r, c, (n - 1) as u16)]
        } else {
            seq![]
        };
        lemma_literals_concat(cell_clauses(target, r, c, n - 1), tail);
        assert forall|j: int| 0 <= j < 9 implies #[trigger] block_clause(r, c, (n - 1) as u16)[j]
            > i32::MIN by {
            lemma_block_var_range(r, c, j);
        }
    } else {
        assert(cell_clauses(target, r, c, n).len() == 0);
    }
}

proof fn lemma_life_literals_upto(target: Board, k: int)
    ensures
        literals_in_range(life_clauses_upto(target, k)),
    decreases k,
{
    if k > 0 {
        lemma_life_literals_upto(target, k - 1);
        lemma_cell_literals(target, (k - 1) / (W as int), (k - 1) % (W as int), 512);
        lemma_literals_concat(
            life_clauses_upto(target, k - 1),
            cell_clauses(target, (k - 1) / (W as int), (k - 1) % (W as int), 512),
        );
    } else {
        assert(life_clauses_upto(target, k).len() == 0);
    }
}

/// No literal of the clauses of `target` is `i32::MIN`.
pub proof fn lemma_life_literals(target: Board)
    ensures
        literals_in_range(life_clauses(target)),
{
    lemma_life_literals_upto(target, (H * W) as int);
}

/// The block state that `a` shows, bit by bit.
proof fn lemma_block_state_bits(a: Assignment, r: int, c: int)
    ensures
        block_state(a, r, c) < 512,
        forall|j: int| 0 <= j < 9 ==> #[trigger] bit(block_state(a, r, c), j) == block_bit(a, r, c, j),
{
    lemma_pack(
        block_bit(a, r, c, 0),
        block_bit(a, r, c, 1),
        block_bit(a, r, c, 2),
        block_bit(a, r, c, 3),
        block_bit(a, r, c, 4),
        block_bit(a, r, c, 5),
        block_bit(a, r, c, 6),
        block_bit(a, r, c, 7),
        block_bit(a, r, c, 8),
    );
    assert forall|j: int| 0 <= j < 9 implies #[trigger] bit(block_state(a, r, c), j) == block_bit(a, r, c, j) by {
        assert(j == 0 || j == 1 || j == 2 || j == 3 || j == 4 || j == 5 || j == 6 || j == 7 || j == 8);
    }
}

/// The clause for `bits` fails under `a` exactly when `a` shows the block in state `bits`.
proof fn lemma_block_clause(a: Assignment, r: int, c: int, bits: u16)
    ensures
        clause_holds(a, block_clause(r, c, bits)) <==> exists|j: int|
            0 <= j < 9 && #[trigger] bit(bits, j) != block_bit(a, r, c, j),
{
    let cl = block_clause(r, c, bits);
    if clause_holds(a, cl) {
        let i = choose|i: int| 0 <= i < cl.len() && #[trigger] lit_holds(a, cl[i] as int);
        lemma_block_var_range(r, c, i);
        lemma_bit_at_most_one(bits, i as u16);
        assert(bit(bits, i) != block_bit(a, r, c, i));
    }
    if exists|j: int| 0 <= j < 9 && #[trigger] bit(bits, j) != block_bit(a, r, c, j) {
        let j = choose|j: int| 0 <= j < 9 && #[trigger] bit(bits, j) != block_bit(a, r, c, j);
        lemma_block_var_range(r, c, j);
        lemma_bit_at_most_one(bits, j as u16);
        assert(lit_holds(a, cl[j] as int));
    }
}

/// The clauses of one cell for block states `0..n` hold exactly when each of
/// those states that would give the wrong next state is not the one `a` shows.
proof fn lemma_cell_clauses_hold(a: Assignment, target: Board, r: int, c: int, n: int)
    requires
        0 <= n <= 512,
    ensures
        all_hold(a, cell_clauses(target, r, c, n)) <==> forall|b: int|
            0 <= b < n && produces_alive(b as u16) != target.at(r, c) ==> #[trigger] clause_holds(
                a,
                block_clause(r, c, b as u16),
            ),
    decreases n,
{
    if n > 0 {
        lemma_cell_clauses_hold(a, target, r, c, n - 1);
        let tail = if produces_alive((n - 1) as u16) != target.at(r, c) {
            seq![block_clause(r, c, (n - 1) as u16)]
        } else {
            seq![]
        };
        lemma_all_hold_concat(a, cell_clauses(target, r, c, n - 1), tail);
        if produces_alive((n - 1) as u16) != target.at(r, c) {
            assert(tail[0] == block_clause(r, c, (n - 1) as u16));
        }
    } else {
        assert(cell_clauses(target, r, c, n).len() == 0);
    }
}

/// The clauses of cell (`r`, `c`) hold exactly when the block state that `a` shows
/// gives the cell its state in `target`.
proof fn lemma_cell_law(a: Assignment, target: Board, r: int, c: int)
    ensures
        all_hold(a, cell_clauses(target, r, c, 512)) <==> produces_alive(block_state(a, r, c))
            == target.at(r, c),
{
    lemma_cell_clauses_hold(a, target, r, c, 512);
    lemma_block_state_bits(a, r, c);
    let s = block_state(a, r, c);
    if produces_alive(s) != target.at(r, c) {
        if all_hold(a, cell_clauses(target, r, c, 512)) {
            assert(s as int as u16 == s);
            assert(clause_holds(a, block_clause(r, c, s as int as u16)));
            lemma_block_clause(a, r, c, s);
        }
    } else {
        assert forall|b: int|
            0 <= b < 512 && produces_alive(b as u16) != target.at(r, c) implies #[trigger] clause_holds(
            a,
            block_clause(r, c, b as u16),
        ) by {
            let q = b as u16;
            lemma_block_clause(a, r, c, q);
            if !(exists|j: int| 0 <= j < 9 && #[trigger] bit(q, j) != block_bit(a, r, c, j)) {
                assert(bit(q, 0) == bit(s, 0));
                assert(bit(q, 1) == bit(s, 1));
                assert(bit(q, 2) == bit(s, 2));
                assert(bit(q, 3) == bit(s, 3));
                assert(bit(q, 4) == bit(s, 4));
                assert(bit(q, 5) == bit(s, 5));
                assert(bit(q, 6) == bit(s, 6));
                assert(bit(q, 7) == bit(s, 7));
                assert(bit(q, 8) == bit(s, 8));
                lemma_bits_determine(q, s);
            }
        }
    }
}

/// The next state that the block state shown by `a` gives the centre is Conway's rule
/// applied to the centre and its eight neighbours under `a`.
proof fn lemma_block_state_rule(a: Assignment, r: int, c: int)
    requires
        0 <= r < H,
        0 <= c < W,
    ensures
        produces_alive(block_state(a, r, c)) == life_rule(a(cell_var(r, c)), assigned_neighbors(a, r, c)),
{
    lemma_block_state_bits(a, r, c);
    let s = block_state(a, r, c);
    reveal_with_fuel(ring_sum, 10);
    assert(bit(s, 0) == block_bit(a, r, c, 0));
    assert(bit(s, 1) == block_bit(a, r, c, 1));
    assert(bit(s, 2) == block_bit(a, r, c, 2));
    assert(bit(s, 3) == block_bit(a, r, c, 3));
    assert(bit(s, 4) == block_bit(a, r, c, 4));
    assert(bit(s, 5) == block_bit(a, r, c, 5));
    assert(bit(s, 6) == block_bit(a, r, c, 6));
    assert(bit(s, 7) == block_bit(a, r, c, 7));
    assert(bit(s, 8) == block_bit(a, r, c, 8));
    assert(block_var(r, c, 4) == cell_var(r, c));
}

/// The clauses of the first `k` cells hold exactly when each of those cells gets its
/// state in `target`.
proof fn lemma_life_clauses_upto(a: Assignment, target: Board, k: int)
    requires
        0 <= k <= H * W,
    ensures
        all_hold(a, life_clauses_upto(target, k)) <==> forall|i: int|
            0 <= i < k ==> #[trigger] produces_alive(block_state(a, i / (W as int), i % (W as int)))
                == target.at(i / (W as int), i % (W as int)),
    decreases k,
{
    if k > 0 {
        lemma_life_clauses_upto(a, target, k - 1);
        lemma_all_hold_concat(
            a,
            life_clauses_upto(target, k - 1),
            cell_clauses(target, (k - 1) / (W as int), (k - 1) % (W as int), 512),
        );
        lemma_cell_law(a, target, (k - 1) / (W as int), (k - 1) % (W as int));
    } else {
        assert(life_clauses_upto(target, k).len() == 0);
    }
}

/// An assignment satisfies the clauses of `target` exactly when the board it
/// describes steps to `target`.
pub proof fn lemma_life_clauses_hold(a: Assignment, target: Board)
    ensures
        all_hold(a, life_clauses(target)) <==> assignment_steps_to(a, target),
{
    lemma_life_clauses_upto(a, target, (H * W) as int);
    if all_hold(a, life_clauses(target)) {
        assert forall|r: int, c: int| 0 <= r < H && 0 <= c < W implies #[trigger] life_rule(
            a(cell_var(r, c)),
            assigned_neighbors(a, r, c),
        ) == target.at(r, c) by {
            let i = r * (W as int) + c;
            assert(i / (W as int) == r && i % (W as int) == c);
            lemma_block_state_rule(a, r, c);
            assert(produces_alive(block_state(a, i / (W as int), i % (W as int))) == target.at(
                i / (W as int),
                i % (W as int),
            ));
        }
    }
    if assignment_steps_to(a, target) {
        assert forall|i: int| 0 <= i < H * W implies #[trigger] produces_alive(
            block_state(a, i / (W as int), i % (W as int)),
        ) == target.at(i / (W as int), i % (W as int)) by {
            let r = i / (W as int);
            let c = i % (W as int);
            lemma_block_state_rule(a, r, c);
            assert(life_rule(a(cell_var(r, c)), assigned_neighbors(a, r, c)) == target.at(r, c));
        }
    }
}

/// When `a` describes `b`, its neighbour counts are those of `b`.
proof fn lemma_describes_neighbors(a: Assignment, b: Board, r: int, c: int)
    requires
        describes(a, b),
        0 <= r < H,
        0 <= c < W,
    ensures
        assigned_neighbors(a, r, c) == b.neighbors(r, c),
        a(cell_var(r, c)) == b.at(r, c),
{
    assert forall|j: int| 0 <= j < 9 implies a(#[trigger] block_var(r, c, j)) == b.at(block_row(r, j), block_col(c, j)) by {
        assert(0 <= block_row(r, j) < H);
        assert(0 <= block_col(c, j) < W);
    }
    assert(a(block_var(r, c, 0)) == b.wrapped(r - 1, c - 1));
    assert(a(block_var(r, c, 1)) == b.wrapped(r - 1, c));
    assert(a(block_var(r, c, 2)) == b.wrapped(r - 1, c + 1));
    assert(a(block_var(r, c, 3)) == b.wrapped(r, c - 1));
    assert(a(block_var(r, c, 5)) == b.wrapped(r, c + 1));
    assert(a(block_var(r, c, 6)) == b.wrapped(r + 1, c - 1));
    assert(a(block_var(r, c, 7)) == b.wrapped(r + 1, c));
    assert(a(block_var(r, c, 8)) == b.wrapped(r + 1, c + 1));
}

/// The encoding law: for an assignment `a` that describes the board `b`, the clauses of
/// `target` hold under `a` exactly when `b` is a predecessor of `target`.
pub proof fn lemma_life_clauses_exact(a: Assignment, b: Board, target: Board)
    requires
        describes(a, b),
    ensures
        all_hold(a, life_clauses(target)) <==> b.is_predecessor_of(target),
{
    lemma_life_clauses_hold(a, target);
    assert forall|r: int, c: int| 0 <= r < H && 0 <= c < W implies #[trigger] life_rule(
        a(cell_var(r, c)),
        assigned_neighbors(a, r, c),
    ) == b.next_at(r, c) by {
        lemma_describes_neighbors(a, b, r, c);
    }
    if assignment_steps_to(a, target) {
        assert forall|r: int, c: int| 0 <= r < H && 0 <= c < W implies #[trigger] b.next_at(r, c)
            == target.at(r, c) by {
            assert(life_rule(a(cell_var(r, c)), assigned_neighbors(a, r, c)) == b.next_at(r, c));
        }
    }
    if b.is_predecessor_of(target) {
        assert forall|r: int, c: int| 0 <= r < H && 0 <= c < W implies #[trigger] life_rule(
            a(cell_var(r, c)),
            assigned_neighbors(a, r, c),
        ) == target.at(r, c) by {
            assert(b.next_at(r, c) == target.at(r, c));
        }
    }
}

/// Whether the centre of a block whose cells `bits` gives is alive one generation later.
fn block_produces_alive(bits: u16) -> (alive: bool)
    ensures
        alive == produces_alive(bits),
{
    let center = (bits >> 4) & 1;
    let mut neighbor_sum: u16 = 0;
    let mut j: u16 = 0;
    while j < 9
        invariant
            j <= 9,
            neighbor_sum == ring_sum(bits, j as int),
            neighbor_sum <= j,
        decreases 9 - j,
    {
        if j != 4 {
            let b = (bits >> j) & 1;
            assert(b <= 1) by (bit_vector)
                requires
                    b == (bits >> j) & 1,
            ;
            neighbor_sum = neighbor_sum + b;
        }
        j = j + 1;
    }
    assert(center <= 1) by (bit_vector)
        requires
            center == (bits >> 4u16) & 1,
    ;
    (center == 1 && (neighbor_sum == 2 || neighbor_sum == 3)) || (center == 0 && neighbor_sum == 3)
}

/// The clause that rules out the block around (`row`, `col`) showing `bits`;
/// `nb` holds the coordinates of the block's nine cells.
fn make_block_clause(nb: &[(usize, usize); 9], row: usize, col: usize, bits: u16) -> (clause: Vec<i32>)
    requires
        row < H,
        col < W,
        forall|i: int|
            0 <= i < 9 ==> (#[trigger] nb[i]).0 == block_row(row as int, i) && nb[i].1 == block_col(
                col as int,
                i,
            ),
    ensures
        clause.deep_view() == block_clause(row as int, col as int, bits),
{
    let mut clause: Vec<i32> = Vec::new();
    let mut j: usize = 0;
    while j < 9
        invariant
            j <= 9,
            row < H,
            col < W,
            forall|i: int|
                0 <= i < 9 ==> (#[trigger] nb[i]).0 == block_row(row as int, i) && nb[i].1
                    == block_col(col as int, i),
            clause@ == block_clause(row as int, col as int, bits).take(j as int),
        decreases 9 - j,
    {
        let (nr, nc) = nb[j];
        let var = (nr * W + nc + 1) as i32;
        if (bits >> (j as u16)) & 1 == 1 {
            clause.push(-var);
        } else {
            clause.push(var);
        }
        assert(clause@ =~= block_clause(row as int, col as int, bits).take(j + 1));
        j = j + 1;
    }
    assert(clause@ =~= block_clause(row as int, col as int, bits));
    assert(clause.deep_view() =~= clause@);
    clause
}

/// The coordinates of the nine cells of the 3x3 block centred on (`row`, `col`).
fn block_coords(row: usize, col: usize) -> (nb: [(usize, usize); 9])
    requires
        row < H,
        col < W,
    ensures
        forall|j: int|
            0 <= j < 9 ==> (#[trigger] nb[j]).0 == block_row(row as int, j) && nb[j].1 == block_col(
                col as int,
                j,
            ),
{
    let up = (row + H - 1) % H;
    let down = (row + 1) % H;
    let left = (col + W - 1) % W;
    let right = (col + 1) % W;
    let nb: [(usize, usize); 9] = [
        (up, left),
        (up, col),
        (up, right),
        (row, left),
        (row, col),
        (row, right),
        (down, left),
        (down, col),
        (down, right),
    ];
    assert(block_row(row as int, 0) == up && block_col(col as int, 0) == left);
    assert(block_row(row as int, 1) == up && block_col(col as int, 1) == col);
    assert(block_row(row as int, 2) == up && block_col(col as int, 2) == right);
    assert(block_row(row as int, 3) == row && block_col(col as int, 3) == left);
    assert(block_row(row as int, 4) == row && block_col(col as int, 4) == col);
    assert(block_row(row as int, 5) == row && block_col(col as int, 5) == right);
    assert(block_row(row as int, 6) == down && block_col(col as int, 6) == left);
    assert(block_row(row as int, 7) == down && block_col(col as int, 7) == col);
    assert(block_row(row as int, 8) == down && block_col(col as int, 8) == right);
    assert forall|j: int| 0 <= j < 9 implies (#[trigger] nb[j]).0 == block_row(row as int, j)
        && nb[j].1 == block_col(col as int, j) by {
        if j == 0 {} else if j == 1 {} else if j == 2 {} else if j == 3 {} else if j == 4 {}
        else if j == 5 {} else if j == 6 {} else if j == 7 {} else {}
    }
    nb
}

/// Appends the clauses of cell (`row`, `col`).
fn push_cell_clauses(clauses: &mut Vec<Vec<i32>>, target: &Board, row: usize, col: usize)
    requires
        row < H,
        col < W,
    ensures
        final(clauses).deep_view() == old(clauses).deep_view() + cell_clauses(
            *target,
            row as int,
            col as int,
            512,
        ),
{
    let target_alive = target.cells[row][col];
    let nb = block_coords(row, col);
    let ghost start = clauses.deep_view();
    let mut bits: u16 = 0;
    while bits < 512
        invariant
            row < H,
            col < W,
            bits <= 512,
            target_alive == target.at(row as int, col as int),
            forall|j: int|
                0 <= j < 9 ==> (#[trigger] nb[j]).0 == block_row(row as int, j) && nb[j].1
                    == block_col(col as int, j),
            clauses.deep_view() == start + cell_clauses(*target, row as int, col as int, bits as int),
        decreases 512 - bits,
    {
        let ghost before = clauses.deep_view();
        if block_produces_alive(bits) != target_alive {
            let clause = make_block_clause(&nb, row, col, bits);
            clauses.push(clause);
            assert(clauses.deep_view() =~= before.push(block_clause(row as int, col as int, bits)));
        }
        assert(clauses.deep_view() =~= start + cell_clauses(
            *target,
            row as int,
            col as int,
            bits + 1,
        ));
        bits = bits + 1;
    }
}

/// For every cell and every one of the 512 states of its 3x3 block after which the
/// cell would differ from `target`, a clause that rules that state out.
pub fn build_life_clauses(target: &Board) -> (clauses: Vec<Vec<i32>>)
    ensures
        clauses.deep_view() == life_clauses(*target),
{
    let mut clauses: Vec<Vec<i32>> = Vec::new();
    assert(clauses.deep_view() =~= life_clauses_upto(*target, 0));
    for row in 0..H
        invariant
            clauses.deep_view() == life_clauses_upto(*target, row * W),
    {
        for col in 0..W
            invariant
                0 <= row < H,
                clauses.deep_view() == life_clauses_upto(*target, row * W + col),
        {
            let ghost k = row * W + col;
            push_cell_clauses(&mut clauses, target, row, col);
            assert((k + 1 - 1) / (W as int) == row && (k + 1 - 1) % (W as int) == col);
        }
    }
    clauses
}

} // verus!
