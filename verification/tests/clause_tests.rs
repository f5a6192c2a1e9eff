use yawnoc::{add_atmost_k, build_life_clauses, Board, Pattern, H, W};

#[test]
fn life_clauses_of_an_empty_target() {
    let clauses = build_life_clauses(&Board::new());
    // 140 of the 512 states of a block give a live centre.
    assert_eq!(clauses.len(), H * W * 140);
    assert!(clauses.iter().all(|c| c.len() == 9));
    // The first state that gives a live centre has the top row alive.
    assert_eq!(clauses[0], vec![-256, -241, -242, 16, 1, 2, 32, 17, 18]);
}

#[test]
fn life_clauses_of_a_full_target() {
    let mut target = Board::new();
    for r in 0..H {
        for c in 0..W {
            target.set_alive(r, c);
        }
    }
    let clauses = build_life_clauses(&target);
    assert_eq!(clauses.len(), H * W * (512 - 140));
    // State 0 (all dead) gives a dead centre, so it is ruled out first.
    assert_eq!(clauses[0], vec![256, 241, 242, 16, 1, 2, 32, 17, 18]);
}

#[test]
fn life_clauses_depend_on_each_cell() {
    let mut target = Board::new();
    target.add_pattern(Pattern::Blinker, 0);
    let clauses = build_life_clauses(&target);
    assert_eq!(clauses.len(), (H * W - 3) * 140 + 3 * 372);
    assert!(clauses.iter().flatten().all(|&l| l != 0 && l.abs() <= 256));
}

#[test]
fn at_most_one_counter() {
    let mut clauses = vec![vec![5, 6]];
    add_atmost_k(&mut clauses, 1);
    assert_eq!(clauses.len(), 1 + 1 + 254 * 3 + 1);
    assert_eq!(clauses[0], vec![5, 6]);
    assert_eq!(clauses[1], vec![-1, 257]);
    assert_eq!(clauses[2], vec![-2, 258]);
    assert_eq!(clauses[3], vec![-257, 258]);
    assert_eq!(clauses[4], vec![-2, -257]);
    assert_eq!(clauses[clauses.len() - 1], vec![-256, -511]);
}

#[test]
fn at_most_two_counter() {
    let mut clauses = Vec::new();
    add_atmost_k(&mut clauses, 2);
    assert_eq!(clauses.len(), 1 + 254 * 5 + 1);
    // r(i, j) = 256 + (i - 1) * 2 + j
    assert_eq!(clauses[0], vec![-1, 257]);
    assert_eq!(clauses[1], vec![-2, 259]);
    assert_eq!(clauses[2], vec![-257, 259]);
    assert_eq!(clauses[3], vec![-2, -257, 260]);
    assert_eq!(clauses[4], vec![-258, 260]);
    assert_eq!(clauses[5], vec![-2, -258]);
    assert_eq!(clauses[clauses.len() - 1], vec![-256, -(256 + 254 * 2 + 2)]);
}

#[test]
fn at_most_all_cells_adds_nothing() {
    let mut clauses = vec![vec![1]];
    add_atmost_k(&mut clauses, H * W);
    assert_eq!(clauses, vec![vec![1]]);
    add_atmost_k(&mut clauses, usize::MAX);
    assert_eq!(clauses, vec![vec![1]]);
}

#[test]
fn at_most_zero_keeps_earlier_clauses() {
    let mut clauses = vec![vec![7]];
    add_atmost_k(&mut clauses, 0);
    assert_eq!(clauses.len(), 1 + H * W);
    assert_eq!(clauses[0], vec![7]);
    assert_eq!(clauses[1], vec![-1]);
    assert_eq!(clauses[H * W], vec![-256]);
}
