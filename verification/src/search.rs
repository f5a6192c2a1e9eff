//! The search for a predecessor of a board with as few live cells as possible.
use vstd::prelude::*;
use crate::at_most::{
    add_atmost_k, at_most_clauses, count_true, n_vars, with_counter, lemma_at_most_sound,
    lemma_at_most_complete, lemma_at_most_literals,
};
use crate::board::{Board, H, W};
use crate::cnf::{Assignment, all_hold, unsatisfiable, literals_in_range, lemma_all_hold_concat, lemma_literals_concat};
use crate::life::{build_life_clauses, life_clauses, cell_var, describes, lemma_life_clauses_exact, lemma_life_literals};
use crate::solver::{SolveOutcome, solve_clauses};

verus! {

/// What the predecessor search found.
pub enum SearchOutcome {
    /// A predecessor with the fewest live cells.
    Found(Board),
    /// The target has no predecessor.
    NotFound,
    /// The solver failed.
    Error,
}

/// The assignment that gives each cell variable the state of its cell in `b`, and
/// leaves every other variable false.
pub open spec fn board_assignment(b: Board) -> Assignment {
    |v: int| 1 <= v <= n_vars() && b.at((v - 1) / (W as int), (v - 1) % (W as int))
}

proof fn lemma_board_assignment(b: Board)
    ensures
        describes(board_assignment(b), b),
{
    assert forall|r: int, c: int| 0 <= r < H && 0 <= c < W implies #[trigger] board_assignment(b)(
        cell_var(r, c),
    ) == b.at(r, c) by {
        assert((r * (W as int) + c) / (W as int) == r);
        assert((r * (W as int) + c) % (W as int) == c);
    }
}

proof fn lemma_row_live_bounds(b: Board, r: int, n: int)
    requires
        0 <= n,
    ensures
        0 <= b.row_live(r, n) <= n,
    decreases n,
{
    if n > 0 {
        lemma_row_live_bounds(b, r, n - 1);
    }
}

proof fn lemma_live_nonneg(b: Board, n: int)
    ensures
        0 <= b.live_upto(n),
    decreases n,
{
    if n > 0 {
        lemma_live_nonneg(b, n - 1);
        lemma_row_live_bounds(b, n - 1, W as int);
    }
}

/// Counting the true cell variables of an assignment that describes `b` counts `b`'s
/// live cells.
proof fn lemma_count_live(a: Assignment, b: Board, n: int)
    requires
        describes(a, b),
        0 <= n <= n_vars(),
    ensures
        count_true(a, n) == b.live_upto(n / (W as int)) + b.row_live(n / (W as int), n % (W as int)),
    decreases n,
{
    if n > 0 {
        lemma_count_live(a, b, n - 1);
        let q = (n - 1) / (W as int);
        let r = (n - 1) % (W as int);
        assert(cell_var(q, r) == n);
        assert(a(n) == b.at(q, r));
        if r < W - 1 {
            assert(n / (W as int) == q && n % (W as int) == r + 1);
        } else {
            assert(n / (W as int) == q + 1 && n % (W as int) == 0);
        }
    }
}

proof fn lemma_count_is_live(a: Assignment, b: Board)
    requires
        describes(a, b),
    ensures
        count_true(a, n_vars()) == b.live(),
{
    lemma_count_live(a, b, n_vars());
}

/// A board that some assignment describes while satisfying the clauses of `target` and
/// the bound `k` is a predecessor of `target` with at most `k` live cells.
proof fn lemma_solution_capped(b: Board, target: Board, k: int)
    requires
        0 <= k,
        exists|a: Assignment| describes(a, b) && #[trigger] all_hold(a, life_clauses(target) + at_most_clauses(k)),
    ensures
        b.is_predecessor_of(target),
        b.live() <= k,
{
    let a = choose|a: Assignment| describes(a, b) && #[trigger] all_hold(a, life_clauses(target) + at_most_clauses(k));
    lemma_all_hold_concat(a, life_clauses(target), at_most_clauses(k));
    lemma_life_clauses_exact(a, b, target);
    lemma_at_most_sound(a, k);
    lemma_count_is_live(a, b);
}

/// A board that some assignment describes while satisfying the clauses of `target` is
/// a predecessor of `target`.
proof fn lemma_solution(b: Board, target: Board)
    requires
        exists|a: Assignment| describes(a, b) && #[trigger] all_hold(a, life_clauses(target)),
    ensures
        b.is_predecessor_of(target),
{
    let a = choose|a: Assignment| describes(a, b) && #[trigger] all_hold(a, life_clauses(target));
    lemma_life_clauses_exact(a, b, target);
}

/// When the clauses of `target` with the bound `k` are unsatisfiable, every predecessor
/// of `target` has more than `k` live cells.
proof fn lemma_no_solution_capped(target: Board, k: int)
    requires
        0 <= k,
        unsatisfiable(life_clauses(target) + at_most_clauses(k)),
    ensures
        forall|p: Board| #[trigger] p.is_predecessor_of(target) ==> p.live() > k,
{
    assert forall|p: Board| #[trigger] p.is_predecessor_of(target) implies p.live() > k by {
        if p.live() <= k {
            let pa = board_assignment(p);
            lemma_board_assignment(p);
            lemma_count_is_live(pa, p);
            lemma_at_most_complete(pa, k);
            let e = with_counter(pa, k);
            assert forall|r: int, c: int| 0 <= r < H && 0 <= c < W implies #[trigger] e(cell_var(r, c))
                == p.at(r, c) by {
                assert(e(cell_var(r, c)) == pa(cell_var(r, c)));
            }
            lemma_life_clauses_exact(e, p, target);
            lemma_all_hold_concat(e, life_clauses(target), at_most_clauses(k));
            assert(!all_hold(e, life_clauses(target) + at_most_clauses(k)));
        }
    }
}

/// When the clauses of `target` are unsatisfiable, `target` has no predecessor.
proof fn lemma_no_solution(target: Board)
    requires
        unsatisfiable(life_clauses(target)),
    ensures
        forall|p: Board| !#[trigger] p.is_predecessor_of(target),
{
    assert forall|p: Board| !#[trigger] p.is_predecessor_of(target) by {
        let pa = board_assignment(p);
        lemma_board_assignment(p);
        lemma_life_clauses_exact(pa, p, target);
        assert(!all_hold(pa, life_clauses(target)));
    }
}

/// A board that the search returns steps to the target: stepping a predecessor of
/// `target` (as `Board::step` does) gives a board with the cells of `target`.
pub proof fn lemma_predecessor_steps_to(pred: Board, stepped: Board, target: Board)
    requires
        pred.is_predecessor_of(target),
        forall|r: int, c: int|
            0 <= r < H && 0 <= c < W ==> #[trigger] stepped.at(r, c) == pred.next_at(r, c),
    ensures
        stepped.same_cells(target),
{
}

/// A copy of a clause list.
fn copy_clauses(clauses: &Vec<Vec<i32>>) -> (copy: Vec<Vec<i32>>)
    ensures
        copy.deep_view() == clauses.deep_view(),
{
    let mut copy: Vec<Vec<i32>> = Vec::new();
    let mut i: usize = 0;
    while i < clauses.len()
        invariant
            i <= clauses.len(),
            copy.deep_view() == clauses.deep_view().take(i as int),
        decreases clauses.len() - i,
    {
        let mut clause: Vec<i32> = Vec::new();
        let mut j: usize = 0;
        while j < clauses[i].len()
            invariant
                i < clauses.len(),
                j <= clauses[i as int].len(),
                clause@ == clauses[i as int]@.take(j as int),
            decreases clauses@[i as int].len() - j,
        {
            clause.push(clauses[i][j]);
            assert(clause@ =~= clauses[i as int]@.take(j + 1));
            j = j + 1;
        }
        assert(clause@ =~= clauses[i as int]@);
        let ghost before = copy.deep_view();
        assert(clause.deep_view() =~= clause@);
        copy.push(clause);
        assert(copy.deep_view() =~= before.push(clauses[i as int]@));
        assert(clauses.deep_view()[i as int] == clauses[i as int]@);
        assert(copy.deep_view() =~= clauses.deep_view().take(i + 1));
        i = i + 1;
    }
    assert(copy.deep_view() =~= clauses.deep_view());
    copy
}

/// A copy of the clauses `base` followed by the clauses that allow at most `k` live cells.
pub fn capped_clauses(base: &Vec<Vec<i32>>, k: usize) -> (clauses: Vec<Vec<i32>>)
    ensures
        clauses.deep_view() == base.deep_view() + at_most_clauses(k as int),
{
    let mut clauses = copy_clauses(base);
    add_atmost_k(&mut clauses, k);
    clauses
}

/// The cap probed after `cap`: 1 after 0, otherwise twice the cap (saturating).
pub open spec fn next_cap_spec(cap: usize) -> usize {
    if cap == 0 {
        1
    } else if 2 * cap <= usize::MAX {
        (2 * cap) as usize
    } else {
        usize::MAX
    }
}

/// The next cap to probe: 1 after 0, otherwise twice the cap (saturating).
pub fn next_cap(cap: usize) -> (next: usize)
    ensures
        next == next_cap_spec(cap),
{
    if cap == 0 {
        1
    } else if cap <= usize::MAX / 2 {
        cap * 2
    } else {
        usize::MAX
    }
}

/// What the probing of caps does after one solver answer.
pub enum Probe {
    /// A predecessor within the cap: it is reported, and the bisection starts from it.
    Take(Board),
    /// No predecessor within the cap: probe this larger cap.
    Next(usize),
    /// Stop probing and solve without a cap.
    Fallback,
}

/// One step of the probing of caps: `outcome` is the solver's answer for the cap
/// `cap`. A model is taken; an unsatisfiable cap moves on to `next_cap(cap)` while
/// that is below the number of cells, and falls back to the search without a cap
/// after that; a solver failure falls back at once.
pub fn probe_step(cap: usize, outcome: SolveOutcome) -> (step: Probe)
    ensures
        match outcome {
            SolveOutcome::Sat(board) => step == Probe::Take(board),
            SolveOutcome::NotFound => if next_cap_spec(cap) < H * W {
                step == Probe::Next(next_cap_spec(cap))
            } else {
                step is Fallback
            },
            SolveOutcome::Error => step is Fallback,
        },
{
    match outcome {
        SolveOutcome::Sat(board) => Probe::Take(board),
        SolveOutcome::NotFound => {
            let next = next_cap(cap);
            if next < H * W {
                Probe::Next(next)
            } else {
                Probe::Fallback
            }
        },
        SolveOutcome::Error => Probe::Fallback,
    }
}

/// What the search without a cap leads to.
pub enum Fallback {
    /// A predecessor: it is reported, and the bisection starts from it.
    Start(Board),
    /// The search ends with this answer.
    Answer(SearchOutcome),
}

/// The search's step after the solver's answer without a cap: a model starts the
/// bisection, unsatisfiable clauses answer `NotFound`, a solver failure `Error`.
pub fn fallback_step(outcome: SolveOutcome) -> (step: Fallback)
    ensures
        match outcome {
            SolveOutcome::Sat(board) => step == Fallback::Start(board),
            SolveOutcome::NotFound => step == Fallback::Answer(SearchOutcome::NotFound),
            SolveOutcome::Error => step == Fallback::Answer(SearchOutcome::Error),
        },
{
    match outcome {
        SolveOutcome::Sat(board) => Fallback::Start(board),
        SolveOutcome::NotFound => Fallback::Answer(SearchOutcome::NotFound),
        SolveOutcome::Error => Fallback::Answer(SearchOutcome::Error),
    }
}

/// The bisection's state after one solver answer.
pub enum Bisection {
    /// Go on with these bounds and this best predecessor; `report` is the predecessor to
    /// report to the caller, when the step found a sparser one.
    Narrowed { lo: usize, hi: usize, best: Board, report: Option<Board> },
    /// The solver failed.
    Failed,
}

/// One step of the bisection over the live-cell cap: every predecessor has at least
/// `lo` live cells, `best` has `hi`, and `outcome` is the solver's answer for the cap
/// `mid`. A model with fewer than `hi` live cells becomes the new best; otherwise the
/// cap becomes the upper bound. An unsatisfiable cap raises the lower bound past it.
pub fn bisect_step(lo: usize, hi: usize, best: Board, mid: usize, outcome: SolveOutcome) -> (step: Bisection)
    requires
        mid < usize::MAX,
    ensures
        match outcome {
            SolveOutcome::Sat(board) => if board.live() < hi {
                step == Bisection::Narrowed { lo, hi: board.live() as usize, best: board, report: Some(board) }
            } else {
                step == Bisection::Narrowed { lo, hi: mid, best, report: None }
            },
            SolveOutcome::NotFound => step == Bisection::Narrowed {
                lo: (mid + 1) as usize,
                hi,
                best,
                report: None,
            },
            SolveOutcome::Error => step is Failed,
        },
{
    match outcome {
        SolveOutcome::Sat(board) => {
            let count = board.count_live_cells() as usize;
            if count < hi {
                Bisection::Narrowed { lo, hi: count, best: board, report: Some(board) }
            } else {
                Bisection::Narrowed { lo, hi: mid, best, report: None }
            }
        },
        SolveOutcome::NotFound => Bisection::Narrowed { lo: mid + 1, hi, best, report: None },
        SolveOutcome::Error => Bisection::Failed,
    }
}

/// The clauses of `target` with the bound `k`; none of their literals is `i32::MIN`.
fn target_clauses(base: &Vec<Vec<i32>>, k: usize, Ghost(target): Ghost<Board>) -> (clauses: Vec<Vec<i32>>)
    requires
        base.deep_view() == life_clauses(target),
    ensures
        clauses.deep_view() == life_clauses(target) + at_most_clauses(k as int),
        literals_in_range(clauses.deep_view()),
{
    let clauses = capped_clauses(base, k);
    proof {
        lemma_life_literals(target);
        lemma_at_most_literals(k as int);
        lemma_literals_concat(life_clauses(target), at_most_clauses(k as int));
    }
    clauses
}

/// The reports that a search appended to `old`: predecessors of `target`, each with
/// fewer live cells than the one before; a found predecessor is the last report, and
/// a search that finds that there is none reports nothing.
pub open spec fn reports_law(target: Board, old: Seq<Board>, new: Seq<Board>, outcome: SearchOutcome) -> bool {
    let rs = new.skip(old.len() as int);
    &&& new.len() >= old.len()
    &&& new.take(old.len() as int) == old
    &&& reports_ordered(target, rs)
    &&& (outcome matches SearchOutcome::Found(p) ==> rs.len() >= 1 && rs.last() == p)
    &&& (outcome is NotFound ==> rs.len() == 0)
}

/// The boards `rs` are predecessors of `target`, each with fewer live cells than the one before.
pub open spec fn reports_ordered(target: Board, rs: Seq<Board>) -> bool {
    &&& forall|i: int| 0 <= i < rs.len() ==> #[trigger] rs[i].is_predecessor_of(target)
    &&& forall|i: int, j: int| 0 <= i < j < rs.len() ==> #[trigger] rs[j].live() < #[trigger] rs[i].live()
}

proof fn lemma_reports_push(target: Board, rs: Seq<Board>, found: Board)
    requires
        reports_ordered(target, rs),
        rs.len() >= 1,
        found.is_predecessor_of(target),
        found.live() < rs.last().live(),
    ensures
        reports_ordered(target, rs.push(found)),
{
    let ns = rs.push(found);
    assert forall|i: int, j: int| 0 <= i < j < ns.len() implies #[trigger] ns[j].live() < #[trigger] ns[i].live() by {
        if j == ns.len() - 1 {
            if i < rs.len() - 1 {
                assert(rs[rs.len() - 1].live() < rs[i].live());
            }
        } else {
            assert(ns[i] == rs[i] && ns[j] == rs[j]);
        }
    }
    assert forall|i: int| 0 <= i < ns.len() implies #[trigger] ns[i].is_predecessor_of(target) by {
        if i < rs.len() {
            assert(ns[i] == rs[i]);
        }
    }
}

/// Reports `found`: passes it to `on_progress` and records it in `reports`.
fn report<F: Fn(&Board)>(on_progress: &F, reports: &mut Vec<Board>, found: Board)
    requires
        on_progress.requires((&found,)),
    ensures
        final(reports)@ == old(reports)@.push(found),
{
    on_progress(&found);
    reports.push(found);
}

/// `clauses` is one of the questions that the search puts to the solver about `target`:
/// its clauses alone, or with a bound on the number of live cells.
pub open spec fn query_of(target: Board, clauses: Seq<Seq<i32>>) -> bool {
    ||| clauses == life_clauses(target)
    ||| exists|k: nat| clauses == life_clauses(target) + #[trigger] at_most_clauses(k as int)
}

/// What a solver's answer says of the clauses it was given: a board comes with an
/// assignment that describes it and satisfies every clause, and `NotFound` means that no
/// assignment satisfies them all. A failure says nothing.
pub open spec fn sound_answer(clauses: Seq<Seq<i32>>, outcome: SolveOutcome) -> bool {
    &&& (outcome matches SolveOutcome::Sat(b) ==> exists|a: Assignment|
        describes(a, b) && #[trigger] all_hold(a, clauses))
    &&& (outcome is NotFound ==> unsatisfiable(clauses))
}

/// The search of `sat_predecessor_with_progress` with the solver `solve`, which also
/// appends each board that it passes to `on_progress` to `reports`, in the order of
/// the calls. The solver is handed only clause lists without the literal `i32::MIN`,
/// and its answers are taken as `sound_answer` says. Whatever the solver answers, a
/// found board is a sparsest predecessor and `NotFound` means there is none; the search
/// fails only where the solver failed on one of its questions about `target`, so
/// with a solver that never fails, a target that has a predecessor is answered `Found`.
pub fn search_with<S: Fn(Vec<Vec<i32>>) -> SolveOutcome, F: Fn(&Board)>(
    target: &Board,
    solve: S,
    on_progress: F,
    reports: &mut Vec<Board>,
) -> (outcome: SearchOutcome)
    requires
        forall|cs: Vec<Vec<i32>>| literals_in_range(cs.deep_view()) ==> #[trigger] solve.requires((cs,)),
        forall|cs: Vec<Vec<i32>>, o: SolveOutcome| #[trigger] solve.ensures((cs,), o) ==> sound_answer(cs.deep_view(), o),
        forall|b: &Board| b.is_predecessor_of(*target) ==> #[trigger] on_progress.requires((b,)),
    ensures
        outcome matches SearchOutcome::Found(b) ==> {
            &&& b.is_predecessor_of(*target)
            &&& forall|p: Board| #[trigger] p.is_predecessor_of(*target) ==> b.live() <= p.live()
        },
        outcome is NotFound ==> forall|p: Board| !#[trigger] p.is_predecessor_of(*target),
        outcome is Error ==> exists|cs: Vec<Vec<i32>>|
            #[trigger] solve.ensures((cs,), SolveOutcome::Error) && query_of(*target, cs.deep_view()),
        (forall|cs: Vec<Vec<i32>>, o: SolveOutcome| #[trigger] solve.ensures((cs,), o) ==> !(o is Error))
            && (exists|p: Board| #[trigger] p.is_predecessor_of(*target)) ==> outcome is Found,
        reports_law(*target, old(reports)@, final(reports)@, outcome),
{
    let ghost start = reports@;
    let base = build_life_clauses(target);
    let n = target.count_live_cells() as usize;
    let mut best: Option<Board> = None;
    if n < H * W {
        let mut cap = n;
        loop
            invariant_except_break
                best is None,
            invariant
                cap < H * W,
                base.deep_view() == life_clauses(*target),
                forall|cs: Vec<Vec<i32>>| literals_in_range(cs.deep_view()) ==> #[trigger] solve.requires((cs,)),
                forall|cs: Vec<Vec<i32>>, o: SolveOutcome| #[trigger] solve.ensures((cs,), o) ==> sound_answer(cs.deep_view(), o),
            ensures
                best matches Some(b) ==> b.is_predecessor_of(*target),
            decreases 2 * H * W - cap,
        {
            let constrained = target_clauses(&base, cap, Ghost(*target));
            let outcome = solve(constrained);
            proof {
                if outcome is Sat {
                    lemma_solution_capped(outcome->0, *target, cap as int);
                }
            }
            match probe_step(cap, outcome) {
                Probe::Take(board) => {
                    best = Some(board);
                    break;
                },
                Probe::Next(next) => {
                    cap = next;
                },
                Probe::Fallback => break,
            }
        }
    }
    assert(reports@.skip(start.len() as int) =~= Seq::<Board>::empty());
    assert(reports@.take(start.len() as int) =~= start);
    let mut best = match best {
        Some(board) => board,
        None => {
            proof {
                lemma_life_literals(*target);
            }
            let outcome = solve(copy_clauses(&base));
            proof {
                if outcome is Sat {
                    lemma_solution(outcome->0, *target);
                }
                if outcome is NotFound {
                    lemma_no_solution(*target);
                }
            }
            match fallback_step(outcome) {
                Fallback::Start(board) => board,
                Fallback::Answer(answer) => return answer,
            }
        },
    };
    report(&on_progress, reports, best);
    assert(reports@.skip(start.len() as int) =~= seq![best]);
    assert(reports@.take(start.len() as int) =~= start);
    let mut hi = best.count_live_cells() as usize;
    let mut lo: usize = 0;
    assert forall|p: Board| #[trigger] p.is_predecessor_of(*target) implies lo <= p.live() by {
        lemma_live_nonneg(p, H as int);
    }
    while lo < hi
        invariant
            base.deep_view() == life_clauses(*target),
            forall|cs: Vec<Vec<i32>>| literals_in_range(cs.deep_view()) ==> #[trigger] solve.requires((cs,)),
            forall|cs: Vec<Vec<i32>>, o: SolveOutcome| #[trigger] solve.ensures((cs,), o) ==> sound_answer(cs.deep_view(), o),
            forall|b: &Board| b.is_predecessor_of(*target) ==> #[trigger] on_progress.requires((b,)),
            best.is_predecessor_of(*target),
            hi == best.live(),
            forall|p: Board| #[trigger] p.is_predecessor_of(*target) ==> lo <= p.live(),
            start == old(reports)@,
            reports@.len() > start.len(),
            reports@.take(start.len() as int) == start,
            reports@.last() == best,
            reports_ordered(*target, reports@.skip(start.len() as int)),
        decreases hi - lo,
    {
        let mid = lo + (hi - lo) / 2;
        let clauses = target_clauses(&base, mid, Ghost(*target));
        let outcome = solve(clauses);
        proof {
            if outcome is Sat {
                lemma_solution_capped(outcome->0, *target, mid as int);
            }
            if outcome is NotFound {
                lemma_no_solution_capped(*target, mid as int);
            }
        }
        match bisect_step(lo, hi, best, mid, outcome) {
            Bisection::Narrowed { lo: new_lo, hi: new_hi, best: new_best, report: report_now } => {
                lo = new_lo;
                hi = new_hi;
                best = new_best;
                if let Some(found) = report_now {
                    let ghost before = reports@;
                    report(&on_progress, reports, found);
                    assert(reports@.skip(start.len() as int) =~= before.skip(start.len() as int).push(found));
                    proof {
                        assert(before.skip(start.len() as int).last() == before.last());
                        lemma_reports_push(*target, before.skip(start.len() as int), found);
                    }
                    assert(reports@.take(start.len() as int) =~= before.take(start.len() as int));
                }
            },
            Bisection::Failed => return SearchOutcome::Error,
        }
    }
    assert(reports@.skip(start.len() as int).last() == best);
    SearchOutcome::Found(best)
}

/// The search of `sat_predecessor_with_progress`, which also appends each board that it
/// passes to `on_progress` to `reports`, in the order of the calls. It solves with
/// `solve_clauses`, as `search_with` says: it fails only where `solve_clauses` can answer
/// `Error` on one of its questions about `target`, and where `solve_clauses` never
/// fails, a target that has a predecessor is answered `Found`.
pub fn sat_predecessor_with_reports<F: Fn(&Board)>(target: &Board, on_progress: F, reports: &mut Vec<Board>) -> (outcome: SearchOutcome)
    requires
        forall|b: &Board| b.is_predecessor_of(*target) ==> #[trigger] on_progress.requires((b,)),
    ensures
        outcome matches SearchOutcome::Found(b) ==> {
            &&& b.is_predecessor_of(*target)
            &&& forall|p: Board| #[trigger] p.is_predecessor_of(*target) ==> b.live() <= p.live()
        },
        outcome is NotFound ==> forall|p: Board| !#[trigger] p.is_predecessor_of(*target),
        outcome is Error ==> exists|cs: Vec<Vec<i32>>|
            #[trigger] call_ensures(solve_clauses, (cs,), SolveOutcome::Error) && query_of(*target, cs.deep_view()),
        (forall|cs: Vec<Vec<i32>>, o: SolveOutcome| #[trigger] call_ensures(solve_clauses, (cs,), o) ==> !(o is Error))
            && (exists|p: Board| #[trigger] p.is_predecessor_of(*target)) ==> outcome is Found,
        reports_law(*target, old(reports)@, final(reports)@, outcome),
{
    assert forall|cs: Vec<Vec<i32>>, o: SolveOutcome| #[trigger] call_ensures(solve_clauses, (cs,), o) implies sound_answer(cs.deep_view(), o) by {}
    search_with(target, solve_clauses, on_progress, reports)
}

/// Searches with the SAT solver for a predecessor of `target` with as few live cells as
/// possible, calling `on_progress` with each predecessor found on the way: the first
/// one, then each with fewer live cells, the last being the result. It first tries caps
/// of `n, 2n, 4n, ...` live cells (`n` the live cells of `target`), then, if none admits
/// a predecessor, the search without a cap; from the first predecessor found it narrows
/// the cap by bisection. The calls are those that `sat_predecessor_with_reports`
/// records, whose contract states them.
pub fn sat_predecessor_with_progress<F: Fn(&Board)>(target: &Board, on_progress: F) -> (outcome: SearchOutcome)
    requires
        forall|b: &Board| b.is_predecessor_of(*target) ==> #[trigger] on_progress.requires((b,)),
    ensures
        outcome matches SearchOutcome::Found(b) ==> {
            &&& b.is_predecessor_of(*target)
            &&& forall|p: Board| #[trigger] p.is_predecessor_of(*target) ==> b.live() <= p.live()
        },
        outcome is NotFound ==> forall|p: Board| !#[trigger] p.is_predecessor_of(*target),
        outcome is Error ==> exists|cs: Vec<Vec<i32>>|
            #[trigger] call_ensures(solve_clauses, (cs,), SolveOutcome::Error) && query_of(*target, cs.deep_view()),
        (forall|cs: Vec<Vec<i32>>, o: SolveOutcome| #[trigger] call_ensures(solve_clauses, (cs,), o) ==> !(o is Error))
            && (exists|p: Board| #[trigger] p.is_predecessor_of(*target)) ==> outcome is Found,
{
    let mut reports: Vec<Board> = Vec::new();
    sat_predecessor_with_reports(target, on_progress, &mut reports)
}

} // verus!
