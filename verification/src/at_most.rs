//! A sequential-counter encoding of "at most `k` of the cell variables are true".
use vstd::prelude::*;
use crate::board::{H, W, b2i};
use crate::cnf::{Assignment, lit_holds, clause_holds, all_hold, lemma_all_hold_concat, literals_in_range, lemma_literals_concat};

verus! {

/// Number of cell variables, `1..=N_VARS`.
pub open spec fn n_vars() -> int {
    (H * W) as int
}

/// The counter variable `r(i, j)`, for `1 <= i < n_vars()` and `1 <= j <= k`: "at least
/// `j` of the variables `1..=i` are true".
pub open spec fn counter_var(k: int, i: int, j: int) -> int {
    n_vars() + (i - 1) * k + j
}

/// The clauses for row `i` of the counter that carry the counts `2..=j`.
pub open spec fn carry_clauses(k: int, i: int, j: int) -> Seq<Seq<i32>>
    decreases j,
{
    if j < 2 {
        seq![]
    } else {
        carry_clauses(k, i, j - 1) + seq![
            seq![(-i) as i32, (-counter_var(k, i - 1, j - 1)) as i32, counter_var(k, i, j) as i32],
            seq![(-counter_var(k, i - 1, j)) as i32, counter_var(k, i, j) as i32],
        ]
    }
}

/// The clauses of counter row `i` (`2 <= i < n_vars()`).
pub open spec fn row_clauses(k: int, i: int) -> Seq<Seq<i32>> {
    seq![
        seq![(-i) as i32, counter_var(k, i, 1) as i32],
        seq![(-counter_var(k, i - 1, 1)) as i32, counter_var(k, i, 1) as i32],
    ] + carry_clauses(k, i, k) + seq![seq![(-i) as i32, (-counter_var(k, i - 1, k)) as i32]]
}

/// The clauses of counter rows `2..=i`.
pub open spec fn rows_upto(k: int, i: int) -> Seq<Seq<i32>>
    decreases i,
{
    if i < 2 {
        seq![]
    } else {
        rows_upto(k, i - 1) + row_clauses(k, i)
    }
}

/// The clauses that `add_atmost_k` appends for the bound `k`.
pub open spec fn at_most_clauses(k: int) -> Seq<Seq<i32>> {
    if k == 0 {
        Seq::new(n_vars() as nat, |i: int| seq![(-(i + 1)) as i32])
    } else if k >= n_vars() {
        seq![]
    } else {
        seq![seq![-1i32, counter_var(k, 1, 1) as i32]] + rows_upto(k, n_vars() - 1) + seq![
            seq![(-n_vars()) as i32, (-counter_var(k, n_vars() - 1, k)) as i32],
        ]
    }
}

/// Number of true variables among `1..=i`.
pub open spec fn count_true(a: Assignment, i: int) -> int
    decreases i,
{
    if i <= 0 {
        0
    } else {
        count_true(a, i - 1) + b2i(a(i))
    }
}

/// What the clauses of counter row `i` say about `a`.
pub open spec fn row_ok(a: Assignment, k: int, i: int) -> bool {
    &&& (a(i) ==> a(counter_var(k, i, 1)))
    &&& (a(counter_var(k, i - 1, 1)) ==> a(counter_var(k, i, 1)))
    &&& forall|j: int|
        2 <= j <= k ==> #[trigger] carry_ok(a, k, i, j)
    &&& (a(i) ==> !a(counter_var(k, i - 1, k)))
}

/// What the two carry clauses of row `i` for count `j` say about `a`.
pub open spec fn carry_ok(a: Assignment, k: int, i: int, j: int) -> bool {
    &&& (a(i) && a(counter_var(k, i - 1, j - 1)) ==> a(counter_var(k, i, j)))
    &&& (a(counter_var(k, i - 1, j)) ==> a(counter_var(k, i, j)))
}

proof fn lemma_clause1(a: Assignment, x: i32)
    ensures
        clause_holds(a, seq![x]) == lit_holds(a, x as int),
{
    let c = seq![x];
    if lit_holds(a, x as int) {
        assert(lit_holds(a, c[0] as int));
    }
}

proof fn lemma_clause2(a: Assignment, x: i32, y: i32)
    ensures
        clause_holds(a, seq![x, y]) == (lit_holds(a, x as int) || lit_holds(a, y as int)),
{
    let c = seq![x, y];
    if lit_holds(a, x as int) {
        assert(lit_holds(a, c[0] as int));
    }
    if lit_holds(a, y as int) {
        assert(lit_holds(a, c[1] as int));
    }
}

proof fn lemma_clause3(a: Assignment, x: i32, y: i32, z: i32)
    ensures
        clause_holds(a, seq![x, y, z]) == (lit_holds(a, x as int) || lit_holds(a, y as int)
            || lit_holds(a, z as int)),
{
    let c = seq![x, y, z];
    if lit_holds(a, x as int) {
        assert(lit_holds(a, c[0] as int));
    }
    if lit_holds(a, y as int) {
        assert(lit_holds(a, c[1] as int));
    }
    if lit_holds(a, z as int) {
        assert(lit_holds(a, c[2] as int));
    }
}

proof fn lemma_counter_var_range(k: int, i: int, j: int)
    requires
        1 <= k < n_vars(),
        1 <= i < n_vars(),
        1 <= j <= k,
    ensures
        n_vars() < counter_var(k, i, j) < 0x7fff_ffff,
{
    assert((i - 1) * k <= 255 * 255) by (nonlinear_arith)
        requires
            0 <= i - 1 < 256,
            0 <= k < 256,
    ;
    assert((i - 1) * k >= 0) by (nonlinear_arith)
        requires
            0 <= i - 1,
            0 <= k,
    ;
}

proof fn lemma_carry_hold(a: Assignment, k: int, i: int, jj: int)
    requires
        1 <= k < n_vars(),
        2 <= i < n_vars(),
        jj <= k,
    ensures
        all_hold(a, carry_clauses(k, i, jj)) <==> forall|j: int| 2 <= j <= jj ==> #[trigger] carry_ok(a, k, i, j),
    decreases jj,
{
    if jj >= 2 {
        lemma_carry_hold(a, k, i, jj - 1);
        let x = seq![(-i) as i32, (-counter_var(k, i - 1, jj - 1)) as i32, counter_var(k, i, jj) as i32];
        let y = seq![(-counter_var(k, i - 1, jj)) as i32, counter_var(k, i, jj) as i32];
        lemma_all_hold_concat(a, carry_clauses(k, i, jj - 1), seq![x, y]);
        lemma_counter_var_range(k, i - 1, jj - 1);
        lemma_counter_var_range(k, i - 1, jj);
        lemma_counter_var_range(k, i, jj);
        lemma_clause3(a, (-i) as i32, (-counter_var(k, i - 1, jj - 1)) as i32, counter_var(k, i, jj) as i32);
        lemma_clause2(a, (-counter_var(k, i - 1, jj)) as i32, counter_var(k, i, jj) as i32);
        let pair = seq![x, y];
        assert(all_hold(a, pair) <==> clause_holds(a, x) && clause_holds(a, y)) by {
            assert(pair[0] == x && pair[1] == y);
        }
        assert(carry_ok(a, k, i, jj) <==> clause_holds(a, x) && clause_holds(a, y));
    } else {
        assert(carry_clauses(k, i, jj).len() == 0);
    }
}

proof fn lemma_row_hold(a: Assignment, k: int, i: int)
    requires
        1 <= k < n_vars(),
        2 <= i < n_vars(),
    ensures
        all_hold(a, row_clauses(k, i)) <==> row_ok(a, k, i),
{
    let h0 = seq![(-i) as i32, counter_var(k, i, 1) as i32];
    let h1 = seq![(-counter_var(k, i - 1, 1)) as i32, counter_var(k, i, 1) as i32];
    let t = seq![(-i) as i32, (-counter_var(k, i - 1, k)) as i32];
    let head = seq![h0, h1];
    lemma_all_hold_concat(a, head + carry_clauses(k, i, k), seq![t]);
    lemma_all_hold_concat(a, head, carry_clauses(k, i, k));
    lemma_carry_hold(a, k, i, k);
    lemma_counter_var_range(k, i, 1);
    lemma_counter_var_range(k, i - 1, 1);
    lemma_counter_var_range(k, i - 1, k);
    lemma_clause2(a, (-i) as i32, counter_var(k, i, 1) as i32);
    lemma_clause2(a, (-counter_var(k, i - 1, 1)) as i32, counter_var(k, i, 1) as i32);
    lemma_clause2(a, (-i) as i32, (-counter_var(k, i - 1, k)) as i32);
    assert(all_hold(a, head) <==> clause_holds(a, h0) && clause_holds(a, h1)) by {
        assert(head[0] == h0 && head[1] == h1);
    }
    assert(all_hold(a, seq![t]) <==> clause_holds(a, t)) by {
        assert(seq![t][0] == t);
    }
}

proof fn lemma_rows_hold(a: Assignment, k: int, i: int)
    requires
        1 <= k < n_vars(),
        1 <= i < n_vars(),
    ensures
        all_hold(a, rows_upto(k, i)) <==> forall|m: int| 2 <= m <= i ==> #[trigger] row_ok(a, k, m),
    decreases i,
{
    if i >= 2 {
        lemma_rows_hold(a, k, i - 1);
        lemma_all_hold_concat(a, rows_upto(k, i - 1), row_clauses(k, i));
        lemma_row_hold(a, k, i);
    } else {
        assert(rows_upto(k, i).len() == 0);
    }
}

/// What the clauses of `at_most_clauses(k)` say about `a`, for `1 <= k < n_vars()`.
pub open spec fn counter_ok(a: Assignment, k: int) -> bool {
    &&& (a(1) ==> a(counter_var(k, 1, 1)))
    &&& forall|m: int| 2 <= m < n_vars() ==> #[trigger] row_ok(a, k, m)
    &&& (a(n_vars()) ==> !a(counter_var(k, n_vars() - 1, k)))
}

proof fn lemma_counter_hold(a: Assignment, k: int)
    requires
        1 <= k < n_vars(),
    ensures
        all_hold(a, at_most_clauses(k)) <==> counter_ok(a, k),
{
    let f = seq![-1i32, counter_var(k, 1, 1) as i32];
    let l = seq![(-n_vars()) as i32, (-counter_var(k, n_vars() - 1, k)) as i32];
    lemma_all_hold_concat(a, seq![f] + rows_upto(k, n_vars() - 1), seq![l]);
    lemma_all_hold_concat(a, seq![f], rows_upto(k, n_vars() - 1));
    lemma_rows_hold(a, k, n_vars() - 1);
    lemma_counter_var_range(k, 1, 1);
    lemma_counter_var_range(k, n_vars() - 1, k);
    lemma_clause2(a, -1i32, counter_var(k, 1, 1) as i32);
    lemma_clause2(a, (-n_vars()) as i32, (-counter_var(k, n_vars() - 1, k)) as i32);
    assert(all_hold(a, seq![f]) <==> clause_holds(a, f)) by {
        assert(seq![f][0] == f);
    }
    assert(all_hold(a, seq![l]) <==> clause_holds(a, l)) by {
        assert(seq![l][0] == l);
    }
}

proof fn lemma_carry_literals(k: int, i: int, jj: int)
    requires
        1 <= k < n_vars(),
        2 <= i < n_vars(),
        jj <= k,
    ensures
        literals_in_range(carry_clauses(k, i, jj)),
    decreases jj,
{
    if jj >= 2 {
        lemma_carry_literals(k, i, jj - 1);
        lemma_counter_var_range(k, i - 1, jj - 1);
        lemma_counter_var_range(k, i - 1, jj);
        lemma_counter_var_range(k, i, jj);
        let x = seq![(-i) as i32, (-counter_var(k, i - 1, jj - 1)) as i32, counter_var(k, i, jj) as i32];
        let y = seq![(-counter_var(k, i - 1, jj)) as i32, counter_var(k, i, jj) as i32];
        lemma_literals_concat(carry_clauses(k, i, jj - 1), seq![x, y]);
        let pair = seq![x, y];
        assert(pair[0] == x && pair[1] == y);
    } else {
        assert(carry_clauses(k, i, jj).len() == 0);
    }
}

proof fn lemma_rows_literals(k: int, i: int)
    requires
        1 <= k < n_vars(),
        1 <= i < n_vars(),
    ensures
        literals_in_range(rows_upto(k, i)),
    decreases i,
{
    if i >= 2 {
        lemma_rows_literals(k, i - 1);
        lemma_carry_literals(k, i, k);
        lemma_counter_var_range(k, i, 1);
        lemma_counter_var_range(k, i - 1, 1);
        lemma_counter_var_range(k, i - 1, k);
        let h0 = seq![(-i) as i32, counter_var(k, i, 1) as i32];
        let h1 = seq![(-counter_var(k, i - 1, 1)) as i32, counter_var(k, i, 1) as i32];
        let t = seq![(-i) as i32, (-counter_var(k, i - 1, k)) as i32];
        let head = seq![h0, h1];
        assert(head[0] == h0 && head[1] == h1);
        assert(seq![t][0] == t);
        lemma_literals_concat(head, carry_clauses(k, i, k));
        lemma_literals_concat(head + carry_clauses(k, i, k), seq![t]);
        lemma_literals_concat(rows_upto(k, i - 1), row_clauses(k, i));
    } else {
        assert(rows_upto(k, i).len() == 0);
    }
}

/// No literal of `at_most_clauses(k)` is `i32::MIN`.
pub proof fn lemma_at_most_literals(k: int)
    requires
        0 <= k,
    ensures
        literals_in_range(at_most_clauses(k)),
{
    if k >= 1 && k < n_vars() {
        lemma_rows_literals(k, n_vars() - 1);
        lemma_counter_var_range(k, 1, 1);
        lemma_counter_var_range(k, n_vars() - 1, k);
        let f = seq![-1i32, counter_var(k, 1, 1) as i32];
        let l = seq![(-n_vars()) as i32, (-counter_var(k, n_vars() - 1, k)) as i32];
        assert(seq![f][0] == f);
        assert(seq![l][0] == l);
        lemma_literals_concat(seq![f], rows_upto(k, n_vars() - 1));
        lemma_literals_concat(seq![f] + rows_upto(k, n_vars() - 1), seq![l]);
    }
}

proof fn lemma_count_bounds(a: Assignment, i: int)
    requires
        0 <= i,
    ensures
        0 <= count_true(a, i) <= i,
    decreases i,
{
    if i > 0 {
        lemma_count_bounds(a, i - 1);
    }
}

/// Under the counter clauses, the counter variables of row `i` are at least the true
/// counts, and the count never passes `k`.
proof fn lemma_counter_tracks(a: Assignment, k: int, i: int)
    requires
        1 <= k < n_vars(),
        1 <= i < n_vars(),
        counter_ok(a, k),
    ensures
        count_true(a, i) <= k,
        forall|j: int| 1 <= j <= k && count_true(a, i) >= j ==> #[trigger] a(counter_var(k, i, j)),
    decreases i,
{
    if i == 1 {
        assert(count_true(a, 1) == b2i(a(1))) by {
            assert(count_true(a, 0) == 0);
        }
    } else {
        lemma_counter_tracks(a, k, i - 1);
        assert(row_ok(a, k, i));
        assert forall|j: int| 1 <= j <= k && count_true(a, i) >= j implies #[trigger] a(
            counter_var(k, i, j),
        ) by {
            if j >= 2 {
                assert(carry_ok(a, k, i, j));
                if a(i) {
                    assert(count_true(a, i - 1) >= j - 1);
                    assert(a(counter_var(k, i - 1, j - 1)));
                } else {
                    assert(a(counter_var(k, i - 1, j)));
                }
            } else {
                if !a(i) {
                    assert(a(counter_var(k, i - 1, 1)));
                }
            }
        }
        if a(i) && count_true(a, i - 1) >= k {
            assert(a(counter_var(k, i - 1, k)));
        }
    }
}

/// The counter clauses hold only where at most `k` of the variables `1..=n_vars()` are true.
pub proof fn lemma_at_most_sound(a: Assignment, k: int)
    requires
        0 <= k,
        all_hold(a, at_most_clauses(k)),
    ensures
        count_true(a, n_vars()) <= k,
{
    if k == 0 {
        assert forall|i: int| 0 <= i <= n_vars() implies count_true(a, i) == 0 by {
            lemma_all_false_count(a, i);
        }
    } else if k >= n_vars() {
        lemma_count_bounds(a, n_vars());
    } else {
        lemma_counter_hold(a, k);
        lemma_counter_tracks(a, k, n_vars() - 1);
        if a(n_vars()) && count_true(a, n_vars() - 1) >= k {
            assert(a(counter_var(k, n_vars() - 1, k)));
        }
    }
}

proof fn lemma_all_false_count(a: Assignment, i: int)
    requires
        0 <= i <= n_vars(),
        all_hold(a, at_most_clauses(0)),
    ensures
        count_true(a, i) == 0,
    decreases i,
{
    if i > 0 {
        lemma_all_false_count(a, i - 1);
        let cs = at_most_clauses(0);
        assert(clause_holds(a, cs[i - 1]));
        lemma_clause1(a, (-i) as i32);
        assert(cs[i - 1] == seq![(-i) as i32]);
    }
}

/// The assignment that agrees with `a` on `1..=n_vars()` and sets each counter variable
/// `r(i, j)` to "at least `j` of `1..=i` are true under `a`".
pub open spec fn with_counter(a: Assignment, k: int) -> Assignment {
    |v: int|
        if v <= n_vars() || k <= 0 {
            a(v)
        } else {
            count_true(a, (v - n_vars() - 1) / k + 1) >= (v - n_vars() - 1) % k + 1
        }
}

proof fn lemma_with_counter_var(a: Assignment, k: int, i: int, j: int)
    requires
        1 <= k < n_vars(),
        1 <= i < n_vars(),
        1 <= j <= k,
    ensures
        with_counter(a, k)(counter_var(k, i, j)) == (count_true(a, i) >= j),
{
    lemma_counter_var_range(k, i, j);
    let t = counter_var(k, i, j) - n_vars() - 1;
    assert(t == (i - 1) * k + (j - 1));
    vstd::arithmetic::div_mod::lemma_fundamental_div_mod_converse_div(t, k, i - 1, j - 1);
    vstd::arithmetic::div_mod::lemma_fundamental_div_mod_converse_mod(t, k, i - 1, j - 1);
}

proof fn lemma_count_same(a: Assignment, b: Assignment, i: int)
    requires
        forall|v: int| 1 <= v <= i ==> #[trigger] a(v) == b(v),
    ensures
        count_true(a, i) == count_true(b, i),
    decreases i,
{
    if i > 0 {
        lemma_count_same(a, b, i - 1);
    }
}

proof fn lemma_count_step(a: Assignment, i: int, m: int)
    requires
        0 <= i <= m,
    ensures
        count_true(a, i) <= count_true(a, m),
    decreases m - i,
{
    if i < m {
        lemma_count_step(a, i, m - 1);
    }
}

/// When at most `k` of the variables `1..=n_vars()` are true under `a`, the counter
/// clauses hold under `with_counter(a, k)`, which agrees with `a` on those variables.
pub proof fn lemma_at_most_complete(a: Assignment, k: int)
    requires
        0 <= k,
        count_true(a, n_vars()) <= k,
    ensures
        all_hold(with_counter(a, k), at_most_clauses(k)),
        forall|v: int| v <= n_vars() ==> #[trigger] with_counter(a, k)(v) == a(v),
{
    let e = with_counter(a, k);
    if k == 0 {
        let cs = at_most_clauses(0);
        assert forall|i: int| 0 <= i < cs.len() implies #[trigger] clause_holds(e, cs[i]) by {
            assert(cs[i] == seq![(-(i + 1)) as i32]);
            lemma_clause1(e, (-(i + 1)) as i32);
            if a(i + 1) {
                lemma_count_step(a, i + 1, n_vars());
                assert(count_true(a, i + 1) >= 1) by {
                    lemma_count_bounds(a, i);
                }
            }
        }
    } else if k >= n_vars() {
        assert(at_most_clauses(k).len() == 0);
    } else {
        lemma_count_same(a, e, n_vars());
        assert forall|i: int, j: int| 1 <= i < n_vars() && 1 <= j <= k implies #[trigger] e(
            counter_var(k, i, j),
        ) == (count_true(a, i) >= j) by {
            lemma_with_counter_var(a, k, i, j);
        }
        assert forall|m: int| 2 <= m < n_vars() implies #[trigger] row_ok(e, k, m) by {
            assert(e(counter_var(k, m, 1)) == (count_true(a, m) >= 1));
            assert(e(counter_var(k, m - 1, 1)) == (count_true(a, m - 1) >= 1));
            assert(e(counter_var(k, m - 1, k)) == (count_true(a, m - 1) >= k));
            assert forall|j: int| 2 <= j <= k implies #[trigger] carry_ok(e, k, m, j) by {
                assert(e(counter_var(k, m, j)) == (count_true(a, m) >= j));
                assert(e(counter_var(k, m - 1, j)) == (count_true(a, m - 1) >= j));
                assert(e(counter_var(k, m - 1, j - 1)) == (count_true(a, m - 1) >= j - 1));
            }
            if a(m) {
                lemma_count_step(a, m, n_vars());
                assert(count_true(a, m) == count_true(a, m - 1) + 1);
                lemma_count_bounds(a, m - 1);
            }
            assert(e(m) == a(m));
            assert(e(m) ==> e(counter_var(k, m, 1)));
            assert(e(counter_var(k, m - 1, 1)) ==> e(counter_var(k, m, 1))) by {
                lemma_count_step(a, m - 1, m);
            }
            assert(e(m) ==> !e(counter_var(k, m - 1, k)));
        }
        assert(e(counter_var(k, 1, 1)) == (count_true(a, 1) >= 1));
        assert(count_true(a, 1) == b2i(a(1))) by {
            assert(count_true(a, 0) == 0);
        }
        assert(e(counter_var(k, n_vars() - 1, k)) == (count_true(a, n_vars() - 1) >= k));
        lemma_counter_hold(e, k);
    }
}

fn counter_lit(k: usize, i: usize, j: usize) -> (v: i32)
    requires
        1 <= i < H * W,
        1 <= j <= k,
        k < H * W,
    ensures
        v == counter_var(k as int, i as int, j as int),
        v > n_vars(),
{
    let m = i - 1;
    assert(m * k <= 255 * 255) by (nonlinear_arith)
        requires
            m < 256,
            k < 256,
    ;
    let p = m * k;
    (H * W + p + j) as i32
}

/// Appends clauses over the cell variables `1..=H*W` and fresh counter variables that
/// can all hold only when at most `k` cell variables are true.
pub fn add_atmost_k(clauses: &mut Vec<Vec<i32>>, k: usize)
    ensures
        final(clauses).deep_view() == old(clauses).deep_view() + at_most_clauses(k as int),
{
    let n = H * W;
    let ghost start = clauses.deep_view();
    if k == 0 {
        let mut i: usize = 1;
        while i <= n
            invariant
                n == H * W,
                1 <= i <= n + 1,
                clauses.deep_view() == start + at_most_clauses(0).take(i - 1),
            decreases n + 1 - i,
        {
            let ghost before = clauses.deep_view();
            let l = -(i as i32);
            let c = vec![l];
            assert(c.deep_view() =~= seq![(-(i as int)) as i32]);
            clauses.push(c);
            assert(clauses.deep_view() =~= before.push(seq![(-(i as int)) as i32]));
            assert(at_most_clauses(0).take(i as int) =~= at_most_clauses(0).take(i - 1).push(
                seq![(-(i as int)) as i32],
            ));
            i = i + 1;
        }
        assert(at_most_clauses(0).take(n as int) =~= at_most_clauses(0));
        return;
    }
    if k >= n {
        assert(clauses.deep_view() =~= start + at_most_clauses(k as int));
        return;
    }
    let ghost ki = k as int;
    let c = vec![-1, counter_lit(k, 1, 1)];
    assert(c.deep_view() =~= seq![-1i32, counter_var(ki, 1, 1) as i32]);
    clauses.push(c);
    let ghost first = seq![seq![-1i32, counter_var(ki, 1, 1) as i32]];
    assert(clauses.deep_view() =~= start + first + rows_upto(ki, 1));
    let mut i: usize = 2;
    while i < n
        invariant
            n == H * W,
            1 <= k < n,
            ki == k,
            2 <= i <= n,
            clauses.deep_view() == start + first + rows_upto(ki, i - 1),
        decreases n - i,
    {
        let ghost row_start = clauses.deep_view();
        let l1 = -(i as i32);
        let c1 = vec![l1, counter_lit(k, i, 1)];
        assert(c1.deep_view() =~= seq![(-(i as int)) as i32, counter_var(ki, i as int, 1) as i32]);
        clauses.push(c1);
        let l2 = -counter_lit(k, i - 1, 1);
        let c2 = vec![l2, counter_lit(k, i, 1)];
        assert(c2.deep_view() =~= seq![(-counter_var(ki, i - 1, 1)) as i32, counter_var(ki, i as int, 1) as i32]);
        clauses.push(c2);
        let ghost head = seq![
            seq![(-(i as int)) as i32, counter_var(ki, i as int, 1) as i32],
            seq![(-counter_var(ki, i - 1, 1)) as i32, counter_var(ki, i as int, 1) as i32],
        ];
        assert(clauses.deep_view() =~= row_start + head + carry_clauses(ki, i as int, 1));
        let mut j: usize = 2;
        while j <= k
            invariant
                n == H * W,
                1 <= k < n,
                ki == k,
                2 <= i < n,
                2 <= j <= k + 1,
                clauses.deep_view() == row_start + head + carry_clauses(ki, i as int, j - 1),
            decreases k + 1 - j,
        {
            let ghost before = clauses.deep_view();
            let l3 = -(i as i32);
            let m3 = -counter_lit(k, i - 1, j - 1);
            let c3 = vec![l3, m3, counter_lit(k, i, j)];
            assert(c3.deep_view() =~= seq![
                (-(i as int)) as i32,
                (-counter_var(ki, i - 1, j - 1)) as i32,
                counter_var(ki, i as int, j as int) as i32,
            ]);
            clauses.push(c3);
            let l4 = -counter_lit(k, i - 1, j);
            let c4 = vec![l4, counter_lit(k, i, j)];
            assert(c4.deep_view() =~= seq![
                (-counter_var(ki, i - 1, j as int)) as i32,
                counter_var(ki, i as int, j as int) as i32,
            ]);
            clauses.push(c4);
            let ghost x = seq![
                (-(i as int)) as i32,
                (-counter_var(ki, i - 1, j - 1)) as i32,
                counter_var(ki, i as int, j as int) as i32,
            ];
            let ghost y = seq![
                (-counter_var(ki, i - 1, j as int)) as i32,
                counter_var(ki, i as int, j as int) as i32,
            ];
            assert(clauses.deep_view() =~= before.push(x).push(y));
            assert(carry_clauses(ki, i as int, j as int) =~= carry_clauses(ki, i as int, j - 1) + seq![x, y]);
            assert(clauses.deep_view() =~= row_start + head + carry_clauses(ki, i as int, j as int));
            j = j + 1;
        }
        let l5 = -(i as i32);
        let m5 = -counter_lit(k, i - 1, k);
        let c5 = vec![l5, m5];
        assert(c5.deep_view() =~= seq![(-(i as int)) as i32, (-counter_var(ki, i - 1, ki)) as i32]);
        let ghost before5 = clauses.deep_view();
        clauses.push(c5);
        let ghost z = seq![(-(i as int)) as i32, (-counter_var(ki, i - 1, ki)) as i32];
        assert(clauses.deep_view() =~= before5.push(z));
        assert(row_clauses(ki, i as int) =~= head + carry_clauses(ki, i as int, ki) + seq![z]);
        assert(rows_upto(ki, i as int) =~= rows_upto(ki, i - 1) + row_clauses(ki, i as int));
        assert(clauses.deep_view() =~= start + first + rows_upto(ki, i as int));
        i = i + 1;
    }
    let l6 = -(n as i32);
    let m6 = -counter_lit(k, n - 1, k);
    let c6 = vec![l6, m6];
    assert(c6.deep_view() =~= seq![(-n_vars()) as i32, (-counter_var(ki, n_vars() - 1, ki)) as i32]);
    let ghost before6 = clauses.deep_view();
    clauses.push(c6);
    let ghost last = seq![(-n_vars()) as i32, (-counter_var(ki, n_vars() - 1, ki)) as i32];
    assert(clauses.deep_view() =~= before6.push(last));
    assert(at_most_clauses(ki) =~= first + rows_upto(ki, n_vars() - 1) + seq![last]);
    assert(clauses.deep_view() =~= start + at_most_clauses(ki));
}

} // verus!
