use std::cell::RefCell;
use yawnoc::{sat_predecessor_with_progress, solve_clauses, Board, Pattern, SearchOutcome, SolveOutcome};

#[test]
fn solver_reads_the_board_off_the_model() {
    match solve_clauses(vec![vec![1], vec![-2], vec![256, 3]]) {
        SolveOutcome::Sat(board) => {
            assert!(board.cells[0][0]);
            assert!(!board.cells[0][1]);
            assert!(board.cells[0][2] || board.cells[15][15]);
        }
        _ => panic!("expected a model"),
    }
}

#[test]
fn solver_reports_unsatisfiable_clauses() {
    assert!(matches!(solve_clauses(vec![vec![1], vec![-1]]), SolveOutcome::NotFound));
}

#[test]
fn solver_reports_invalid_literals_as_errors() {
    assert!(matches!(solve_clauses(vec![vec![0]]), SolveOutcome::Error));
}

#[test]
fn variables_beyond_the_board_are_ignored() {
    let mut clauses: Vec<Vec<i32>> = (1..=256).map(|v| vec![-v]).collect();
    clauses.push(vec![300]);
    match solve_clauses(clauses) {
        SolveOutcome::Sat(board) => assert_eq!(board.count_live_cells(), 0),
        _ => panic!("expected a model"),
    }
}

#[test]
fn empty_board_has_the_empty_predecessor() {
    let calls = RefCell::new(Vec::new());
    let outcome = sat_predecessor_with_progress(&Board::new(), |b: &Board| calls.borrow_mut().push(*b));
    match outcome {
        SearchOutcome::Found(b) => {
            assert_eq!(b.count_live_cells(), 0);
            let mut next = b;
            next.step();
            assert_eq!(next, Board::new());
        }
        _ => panic!("expected a predecessor"),
    }
    assert_eq!(calls.borrow().len(), 1);
}

#[test]
fn blinker_predecessor_is_minimal() {
    let mut target = Board::new();
    target.add_pattern(Pattern::Blinker, 0);
    target.step();
    let calls = RefCell::new(Vec::new());
    let outcome = sat_predecessor_with_progress(&target, |b: &Board| calls.borrow_mut().push(*b));
    match outcome {
        SearchOutcome::Found(b) => {
            assert_eq!(b.count_live_cells(), 3);
            let mut next = b;
            next.step();
            assert_eq!(next, target);
        }
        _ => panic!("expected a predecessor"),
    }
    for b in calls.borrow().iter() {
        let mut next = *b;
        next.step();
        assert_eq!(next, target);
    }
}

use yawnoc::search::{bisect_step, capped_clauses, next_cap, Bisection};
use yawnoc::{add_atmost_k, build_life_clauses};

#[test]
fn caps_double_from_one() {
    assert_eq!(next_cap(0), 1);
    assert_eq!(next_cap(1), 2);
    assert_eq!(next_cap(96), 192);
    assert_eq!(next_cap(usize::MAX / 2 + 1), usize::MAX);
}

#[test]
fn capped_clauses_append_the_bound() {
    let base = build_life_clauses(&Board::new());
    let capped = capped_clauses(&base, 3);
    let mut expected = base.clone();
    add_atmost_k(&mut expected, 3);
    assert_eq!(capped, expected);
}

#[test]
fn bisection_steps() {
    let mut best = Board::new();
    best.add_pattern(Pattern::Beacon, 0);
    let mut better = Board::new();
    better.add_pattern(Pattern::Block, 0);
    match bisect_step(0, 8, best, 4, SolveOutcome::Sat(better)) {
        Bisection::Narrowed { lo, hi, best: b, report } => {
            assert_eq!((lo, hi), (0, 4));
            assert_eq!(b, better);
            assert_eq!(report, Some(better));
        }
        Bisection::Failed => panic!("a model narrows the bounds"),
    }
    match bisect_step(0, 4, better, 4, SolveOutcome::Sat(best)) {
        Bisection::Narrowed { lo, hi, best: b, report } => {
            assert_eq!((lo, hi), (0, 4));
            assert_eq!(b, better);
            assert_eq!(report, None);
        }
        Bisection::Failed => panic!("a model narrows the bounds"),
    }
    match bisect_step(0, 8, best, 4, SolveOutcome::NotFound) {
        Bisection::Narrowed { lo, hi, best: b, report } => {
            assert_eq!((lo, hi), (5, 8));
            assert_eq!(b, best);
            assert_eq!(report, None);
        }
        Bisection::Failed => panic!("no model raises the lower bound"),
    }
    assert!(matches!(bisect_step(0, 8, best, 4, SolveOutcome::Error), Bisection::Failed));
}

use yawnoc::search::{fallback_step, probe_step, Fallback, Probe};

#[test]
fn probe_steps() {
    let mut block = Board::new();
    block.add_pattern(Pattern::Block, 0);
    assert!(matches!(probe_step(4, SolveOutcome::Sat(block)), Probe::Take(b) if b == block));
    assert!(matches!(probe_step(0, SolveOutcome::NotFound), Probe::Next(1)));
    assert!(matches!(probe_step(64, SolveOutcome::NotFound), Probe::Next(128)));
    assert!(matches!(probe_step(128, SolveOutcome::NotFound), Probe::Fallback));
    assert!(matches!(probe_step(3, SolveOutcome::Error), Probe::Fallback));
}

#[test]
fn fallback_steps() {
    let mut block = Board::new();
    block.add_pattern(Pattern::Block, 0);
    assert!(matches!(fallback_step(SolveOutcome::Sat(block)), Fallback::Start(b) if b == block));
    assert!(matches!(fallback_step(SolveOutcome::NotFound), Fallback::Answer(SearchOutcome::NotFound)));
    assert!(matches!(fallback_step(SolveOutcome::Error), Fallback::Answer(SearchOutcome::Error)));
}

use yawnoc::search::sat_predecessor_with_reports;
use yawnoc::solver::{outcome_of, SolverReply};

#[test]
fn replies_become_outcomes() {
    let mut model: Vec<i32> = (1..=300).map(|v| -v).collect();
    model[0] = 1;
    model[17] = 18;
    model[299] = 300;
    match outcome_of(SolverReply::Sat(model)) {
        SolveOutcome::Sat(b) => {
            assert_eq!(b.count_live_cells(), 2);
            assert!(b.cells[0][0] && b.cells[1][1]);
        }
        _ => panic!("a model gives a board"),
    }
    assert!(matches!(outcome_of(SolverReply::Unsat), SolveOutcome::NotFound));
    assert!(matches!(outcome_of(SolverReply::Failed), SolveOutcome::Error));
}

#[test]
fn minimal_literal_is_an_error() {
    assert!(matches!(solve_clauses(vec![vec![1], vec![i32::MIN]]), SolveOutcome::Error));
}

#[test]
fn reports_of_the_empty_board() {
    let mut reports = vec![Board::new()];
    let outcome = sat_predecessor_with_reports(&Board::new(), |_b: &Board| {}, &mut reports);
    assert!(matches!(outcome, SearchOutcome::Found(b) if b == Board::new()));
    assert_eq!(reports, vec![Board::new(), Board::new()]);
}

#[test]
fn reports_of_the_blinker() {
    let mut target = Board::new();
    target.add_pattern(Pattern::Blinker, 0);
    target.step();
    let mut horizontal = Board::new();
    horizontal.add_pattern(Pattern::Blinker, 0);
    let calls = RefCell::new(Vec::new());
    let mut reports = Vec::new();
    let outcome = sat_predecessor_with_reports(&target, |b: &Board| calls.borrow_mut().push(*b), &mut reports);
    assert!(matches!(outcome, SearchOutcome::Found(b) if b == horizontal));
    assert_eq!(reports, vec![horizontal]);
    assert_eq!(*calls.borrow(), reports);
}
