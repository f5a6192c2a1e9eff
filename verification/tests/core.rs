use yawnoc::{add_atmost_k, Board, Pattern, H, W};

fn board_from_live_cells(cells: &[(usize, usize)]) -> Board {
    let mut board = Board::new();
    for &(row, col) in cells {
        board.set_alive(row, col);
    }
    board
}

#[test]
fn blinker_steps_to_vertical_phase() {
    let mut board = Board::new();
    board.add_pattern(Pattern::Blinker, 0);

    board.step();

    let expected = board_from_live_cells(&[(4, 5), (5, 5), (6, 5)]);
    assert_eq!(board, expected);
}

#[test]
fn edge_neighbors_wrap_around() {
    let board = board_from_live_cells(&[(15, 15), (15, 0), (0, 15)]);

    assert_eq!(board.count_live_neighbors(0, 0), 3);
}

#[test]
fn random_pattern_is_seed_deterministic() {
    let mut first = Board::new();
    let mut second = Board::new();

    first.add_pattern(Pattern::Random, 0x9e37_79b9);
    second.add_pattern(Pattern::Random, 0x9e37_79b9);

    assert_eq!(first, second);
}

#[test]
fn at_most_zero_forbids_all_board_vars() {
    let mut clauses = Vec::new();

    add_atmost_k(&mut clauses, 0);

    assert_eq!(clauses.len(), H * W);
    assert_eq!(clauses[0], vec![-1]);
    assert_eq!(clauses[H * W - 1], vec![-((H * W) as i32)]);
}
