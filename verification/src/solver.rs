//! Solving clause lists with the `splr` SAT solver, and reading its model back
//! as a board.
use vstd::prelude::*;
use crate::board::{Board, H, W};
use crate::cnf::{Assignment, lit_holds, clause_holds, all_hold, unsatisfiable, literals_in_range};
use crate::life::{cell_var, describes};

verus! {

/// What the solver made of a clause list.
pub enum SolveOutcome {
    /// Satisfiable; the board is read off the cell variables of the model.
    Sat(Board),
    /// Unsatisfiable.
    NotFound,
    /// The solver gave up or failed.
    Error,
}

/// What `splr` answers, with the model's literals as it gives them.
pub enum SolverReply {
    Sat(Vec<i32>),
    Unsat,
    Failed,
}

/// A model as `splr` lays one out: entry `i` is `i + 1` (true) or `-(i + 1)` (false).
pub open spec fn model_shape(model: Seq<i32>) -> bool {
    forall|i: int| 0 <= i < model.len() ==> #[trigger] model[i] == i + 1 || model[i] == -(i + 1)
}

/// Every clause has a literal that the model lists.
pub open spec fn model_satisfies(model: Seq<i32>, clauses: Seq<Seq<i32>>) -> bool {
    forall|c: int|
        #![trigger clauses[c]]
        0 <= c < clauses.len() ==> exists|i: int|
            0 <= i < clauses[c].len() && #[trigger] model.contains(clauses[c][i])
}

/// Calls `splr::Certificate::try_from` on the clauses. Believed of it, from its
/// documentation and source: a `SAT` answer lists one literal per variable in variable
/// order, and every clause contains one of them (the model is checked before it is
/// returned); an `UNSAT` answer means that no assignment satisfies the clauses. Errors
/// (time-out, invalid literal such as 0, solver faults) come back as `Failed`; nothing
/// is said of when they happen, nor of which model is returned. A panic inside `splr`
/// is not caught here (the library cannot use `std::panic`) and leaves the call: no
/// input on which `splr` panics is known from its source, so `requires` cannot leave
/// such inputs out; the front ends run the search under a panic guard that turns a
/// panic into a failed search.
#[verifier::external_body]
fn splr_solve(clauses: Vec<Vec<i32>>) -> (reply: SolverReply)
    requires
        literals_in_range(clauses.deep_view()),
    ensures
        reply matches SolverReply::Sat(m) ==> model_shape(m@) && model_satisfies(m@, clauses.deep_view()),
        reply is Unsat ==> unsatisfiable(clauses.deep_view()),
{
    match splr::Certificate::try_from(clauses) {
        Ok(splr::Certificate::SAT(ans)) => SolverReply::Sat(ans),
        Ok(splr::Certificate::UNSAT) => SolverReply::Unsat,
        Err(_) => SolverReply::Failed,
    }
}

/// The board whose live cells are those whose variables appear positively in `model`.
pub fn board_from_model(model: &Vec<i32>) -> (board: Board)
    ensures
        read_from_model(board, model@),
{
    let mut board = Board::new();
    let mut k: usize = 0;
    while k < model.len()
        invariant
            k <= model.len(),
            forall|r: int, c: int|
                0 <= r < H && 0 <= c < W ==> #[trigger] board.at(r, c) == exists|i: int|
                    0 <= i < k && model@[i] == cell_var(r, c),
        decreases model.len() - k,
    {
        let lit = model[k];
        if lit > 0 {
            let idx = (lit - 1) as usize;
            if idx < H * W {
                let row = idx / W;
                let col = idx % W;
                assert(cell_var(row as int, col as int) == lit);
                board.set_alive(row, col);
            }
        }
        proof {
            assert forall|r: int, c: int| 0 <= r < H && 0 <= c < W implies #[trigger] board.at(r, c)
                == exists|i: int| 0 <= i < k + 1 && model@[i] == cell_var(r, c) by {
                if model@[k as int] == cell_var(r, c) {
                    assert(cell_var(r, c) - 1 == r * W + c);
                    assert((r * W + c) / (W as int) == r);
                    assert((r * W + c) % (W as int) == c);
                }
            }
        }
        k = k + 1;
    }
    assert forall|r: int, c: int| 0 <= r < H && 0 <= c < W implies #[trigger] board.at(r, c)
        == model@.contains(cell_var(r, c) as i32) by {
        if model@.contains(cell_var(r, c) as i32) {
            let i = choose|i: int| 0 <= i < model@.len() && model@[i] == cell_var(r, c) as i32;
            assert(model@[i] == cell_var(r, c));
        }
    }
    board
}

/// The assignment that makes true the variables that a model lists positively.
pub open spec fn model_assignment(model: Seq<i32>) -> Assignment {
    |v: int| exists|i: int| 0 <= i < model.len() && model[i] == v
}

/// A model of `splr`'s shape that satisfies its clauses gives an assignment that does.
proof fn lemma_model_assignment(model: Seq<i32>, clauses: Seq<Seq<i32>>)
    requires
        model_shape(model),
        model_satisfies(model, clauses),
    ensures
        all_hold(model_assignment(model), clauses),
{
    let a = model_assignment(model);
    assert forall|c: int| 0 <= c < clauses.len() implies #[trigger] clause_holds(a, clauses[c]) by {
        let i = choose|i: int| 0 <= i < clauses[c].len() && #[trigger] model.contains(clauses[c][i]);
        let l = clauses[c][i];
        let p = choose|p: int| 0 <= p < model.len() && model[p] == l;
        assert(model[p] == p + 1 || model[p] == -(p + 1));
        if l < 0 {
            if a(-(l as int)) {
                let q = choose|q: int| 0 <= q < model.len() && model[q] == -(l as int);
                assert(model[q] == q + 1 || model[q] == -(q + 1));
            }
        }
        assert(lit_holds(a, clauses[c][i] as int));
    }
}

/// `b` is the board read off `model`: a cell is alive when its variable appears positively.
pub open spec fn read_from_model(b: Board, model: Seq<i32>) -> bool {
    forall|r: int, c: int|
        0 <= r < H && 0 <= c < W ==> #[trigger] b.at(r, c) == model.contains(cell_var(r, c) as i32)
}

/// `b` is read off some model of `splr`'s shape that satisfies `clauses`.
pub open spec fn read_from_a_model(b: Board, clauses: Seq<Seq<i32>>) -> bool {
    exists|m: Seq<i32>| model_shape(m) && model_satisfies(m, clauses) && #[trigger] read_from_model(b, m)
}

/// What a reply of the solver comes to: a model gives the board read off it, an
/// unsatisfiable answer `NotFound`, a failure `Error`.
pub fn outcome_of(reply: SolverReply) -> (outcome: SolveOutcome)
    ensures
        match reply {
            SolverReply::Sat(m) => outcome matches SolveOutcome::Sat(b) && read_from_model(b, m@),
            SolverReply::Unsat => outcome is NotFound,
            SolverReply::Failed => outcome is Error,
        },
{
    match reply {
        SolverReply::Sat(ans) => SolveOutcome::Sat(board_from_model(&ans)),
        SolverReply::Unsat => SolveOutcome::NotFound,
        SolverReply::Failed => SolveOutcome::Error,
    }
}

/// Whether no literal of `clauses` is `i32::MIN`.
fn literals_checked(clauses: &Vec<Vec<i32>>) -> (ok: bool)
    ensures
        ok == literals_in_range(clauses.deep_view()),
{
    let mut i: usize = 0;
    while i < clauses.len()
        invariant
            i <= clauses.len(),
            forall|c: int, j: int|
                0 <= c < i && 0 <= j < clauses.deep_view()[c].len() ==> #[trigger] clauses.deep_view()[c][j]
                    > i32::MIN,
        decreases clauses.len() - i,
    {
        let mut j: usize = 0;
        while j < clauses[i].len()
            invariant
                i < clauses.len(),
                j <= clauses[i as int].len(),
                forall|c: int, k: int|
                    0 <= c < i && 0 <= k < clauses.deep_view()[c].len() ==> #[trigger] clauses.deep_view()[c][k]
                        > i32::MIN,
                forall|k: int| 0 <= k < j ==> #[trigger] clauses.deep_view()[i as int][k] > i32::MIN,
            decreases clauses@[i as int].len() - j,
        {
            assert(clauses.deep_view()[i as int][j as int] == clauses[i as int][j as int]);
            if clauses[i][j] == i32::MIN {
                return false;
            }
            j = j + 1;
        }
        i = i + 1;
    }
    true
}

/// Solves the clauses with `splr`. A clause list with the literal `i32::MIN` gives
/// `Error` without a call. Otherwise the solver's reply decides, as `outcome_of` says:
/// `Sat(b)` carries the board read off a model of `splr`'s shape that satisfies the
/// clauses, so some assignment that describes `b` satisfies every clause; `NotFound`
/// means that no assignment does. Which model comes back, and whether the solver
/// fails, is up to the solver.
pub fn solve_clauses(clauses: Vec<Vec<i32>>) -> (outcome: SolveOutcome)
    ensures
        !literals_in_range(clauses.deep_view()) ==> outcome is Error,
        outcome matches SolveOutcome::Sat(b) ==> read_from_a_model(b, clauses.deep_view()),
        outcome matches SolveOutcome::Sat(b) ==> exists|a: Assignment|
            describes(a, b) && #[trigger] all_hold(a, clauses.deep_view()),
        outcome is NotFound ==> unsatisfiable(clauses.deep_view()),
{
    let ghost cs = clauses.deep_view();
    if !literals_checked(&clauses) {
        return SolveOutcome::Error;
    }
    let reply = splr_solve(clauses);
    let ghost model = if reply is Sat { reply->0@ } else { Seq::empty() };
    let outcome = outcome_of(reply);
    proof {
        if outcome is Sat {
            let board = outcome->0;
            lemma_model_assignment(model, cs);
            let a = model_assignment(model);
            assert forall|r: int, c: int| 0 <= r < H && 0 <= c < W implies #[trigger] a(cell_var(r, c))
                == board.at(r, c) by {
                if a(cell_var(r, c)) {
                    let i = choose|i: int| 0 <= i < model.len() && model[i] == cell_var(r, c);
                    assert(model[i] == cell_var(r, c) as i32);
                }
                if board.at(r, c) {
                    let i = choose|i: int| 0 <= i < model.len() && model[i] == cell_var(r, c) as i32;
                    assert(model[i] == cell_var(r, c));
                }
            }
            assert(describes(a, board));
            assert(model_shape(model) && model_satisfies(model, cs) && read_from_model(board, model));
            assert(read_from_a_model(board, cs));
        }
    }
    outcome
}

} // verus!
