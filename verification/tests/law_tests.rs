use yawnoc::{add_atmost_k, build_life_clauses, solve_clauses, Board, Pattern, SolveOutcome, H, W};

fn fix_board(clauses: &mut Vec<Vec<i32>>, board: &Board) {
    for r in 0..H {
        for c in 0..W {
            let var = (r * W + c + 1) as i32;
            clauses.push(vec![if board.cells[r][c] { var } else { -var }]);
        }
    }
}

fn vertical_blinker() -> Board {
    let mut b = Board::new();
    b.add_pattern(Pattern::Blinker, 0);
    b.step();
    b
}

#[test]
fn life_clauses_accept_a_predecessor() {
    let target = vertical_blinker();
    let mut clauses = build_life_clauses(&target);
    let mut pred = Board::new();
    pred.add_pattern(Pattern::Blinker, 0);
    fix_board(&mut clauses, &pred);
    match solve_clauses(clauses) {
        SolveOutcome::Sat(b) => assert_eq!(b, pred),
        _ => panic!("a predecessor satisfies the clauses"),
    }
}

#[test]
fn life_clauses_reject_a_non_predecessor() {
    let target = vertical_blinker();
    let mut clauses = build_life_clauses(&target);
    fix_board(&mut clauses, &target);
    assert!(matches!(solve_clauses(clauses), SolveOutcome::NotFound));
}

#[test]
fn at_most_clauses_count_true_cells() {
    let mut two = Vec::new();
    add_atmost_k(&mut two, 2);
    let mut allowed = two.clone();
    allowed.push(vec![1]);
    allowed.push(vec![200]);
    match solve_clauses(allowed) {
        SolveOutcome::Sat(b) => {
            assert_eq!(b.count_live_cells(), 2);
            assert!(b.cells[0][0] && b.cells[12][7]);
        }
        _ => panic!("two true cells are allowed"),
    }
    let mut too_many = two;
    too_many.push(vec![1]);
    too_many.push(vec![2]);
    too_many.push(vec![256]);
    assert!(matches!(solve_clauses(too_many), SolveOutcome::NotFound));
}

fn shifted(b: &Board, a: usize, d: usize) -> Board {
    let mut out = Board::new();
    for r in 0..H {
        for c in 0..W {
            if b.cells[(r + H - a) % H][(c + W - d) % W] {
                out.set_alive(r, c);
            }
        }
    }
    out
}

#[test]
fn stepping_commutes_with_shifting() {
    let mut b0 = Board::new();
    b0.add_pattern(Pattern::Random, 42);
    for (a, d) in [(0, 0), (1, 0), (0, 15), (7, 11), (15, 15)] {
        let mut s0 = b0;
        s0.step();
        let mut s1 = shifted(&b0, a, d);
        s1.step();
        assert_eq!(s1, shifted(&s0, a, d));
    }
}

#[test]
fn neighbor_counts_add_up_to_eight_per_live_cell() {
    for seed in [0u32, 1, 0x9e37_79b9] {
        let mut b = Board::new();
        b.add_pattern(Pattern::Random, seed);
        let mut total: u32 = 0;
        for r in 0..H {
            for c in 0..W {
                total += b.count_live_neighbors(r, c) as u32;
            }
        }
        assert_eq!(total, 8 * b.count_live_cells() as u32);
    }
}
