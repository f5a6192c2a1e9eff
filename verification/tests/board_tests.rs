use yawnoc::patterns::{PATTERNS};
use yawnoc::{Board, Pattern, H, W};

fn live_cells(board: &Board) -> Vec<(usize, usize)> {
    let mut out = Vec::new();
    for r in 0..H {
        for c in 0..W {
            if board.cells[r][c] {
                out.push((r, c));
            }
        }
    }
    out
}

fn pattern_board(pattern: Pattern, seed: u32) -> Board {
    let mut board = Board::new();
    board.add_pattern(pattern, seed);
    board
}

#[test]
fn new_board_is_empty() {
    let board = Board::new();
    assert_eq!(board.count_live_cells(), 0);
    assert!(live_cells(&board).is_empty());
}

#[test]
fn set_alive_wraps_coordinates() {
    let mut board = Board::new();
    board.set_alive(16, 17);
    board.set_alive(usize::MAX, 0);
    assert_eq!(live_cells(&board), vec![(0, 1), (15, 0)]);
}

#[test]
fn neighbors_of_a_full_ring_and_of_corners() {
    let mut board = Board::new();
    for (r, c) in [(4, 4), (4, 5), (4, 6), (5, 4), (5, 6), (6, 4), (6, 5), (6, 6)] {
        board.set_alive(r, c);
    }
    assert_eq!(board.count_live_neighbors(5, 5), 8);
    assert_eq!(board.count_live_neighbors(4, 4), 2);
    assert_eq!(board.count_live_neighbors(21, 21), 8);
    let mut corner = Board::new();
    corner.set_alive(0, 0);
    assert_eq!(corner.count_live_neighbors(15, 15), 1);
    assert_eq!(corner.count_live_neighbors(0, 0), 0);
}

#[test]
fn block_is_a_still_life() {
    let mut board = pattern_board(Pattern::Block, 0);
    let before = board;
    board.step();
    assert_eq!(board, before);
    assert_eq!(live_cells(&board), vec![(5, 4), (5, 5), (6, 4), (6, 5)]);
}

#[test]
fn blinker_has_period_two() {
    let mut board = pattern_board(Pattern::Blinker, 0);
    let start = board;
    board.step();
    assert_ne!(board, start);
    board.step();
    assert_eq!(board, start);
}

#[test]
fn glider_moves_one_cell_diagonally_every_four_steps() {
    let mut board = pattern_board(Pattern::Glider, 0);
    assert_eq!(live_cells(&board), vec![(4, 3), (5, 4), (6, 2), (6, 3), (6, 4)]);
    for _ in 0..4 {
        board.step();
    }
    assert_eq!(live_cells(&board), vec![(5, 4), (6, 5), (7, 3), (7, 4), (7, 5)]);
}

#[test]
fn glider_wraps_around_the_torus() {
    let mut board = pattern_board(Pattern::Glider, 0);
    let start = board;
    for _ in 0..64 {
        board.step();
    }
    assert_eq!(board, start);
}

#[test]
fn lonely_cell_dies_and_three_cells_give_birth() {
    let mut board = Board::new();
    board.set_alive(3, 3);
    board.step();
    assert_eq!(board.count_live_cells(), 0);
    let mut birth = Board::new();
    birth.set_alive(0, 0);
    birth.set_alive(0, 2);
    birth.set_alive(2, 0);
    birth.step();
    assert_eq!(live_cells(&birth), vec![(1, 1)]);
}

#[test]
fn pattern_cells() {
    assert_eq!(live_cells(&pattern_board(Pattern::Blinker, 0)), vec![(5, 4), (5, 5), (5, 6)]);
    assert_eq!(
        live_cells(&pattern_board(Pattern::Toad, 0)),
        vec![(5, 5), (5, 6), (5, 7), (6, 4), (6, 5), (6, 6)]
    );
    assert_eq!(
        live_cells(&pattern_board(Pattern::Beacon, 0)),
        vec![(4, 4), (4, 5), (5, 4), (5, 5), (6, 6), (6, 7), (7, 6), (7, 7)]
    );
    assert_eq!(
        live_cells(&pattern_board(Pattern::Lwss, 0)),
        vec![(5, 7), (6, 6), (6, 9), (7, 6), (7, 7), (7, 8), (7, 9)]
    );
}

#[test]
fn pattern_live_counts() {
    let counts: Vec<u16> = PATTERNS
        .iter()
        .filter(|p| !matches!(p, Pattern::Random))
        .map(|&p| pattern_board(p, 0).count_live_cells())
        .collect();
    assert_eq!(counts, vec![5, 3, 6, 8, 7, 4, 14, 31, 72]);
}

#[test]
fn cross_fills_row_and_column_seven() {
    let board = pattern_board(Pattern::Cross, 0);
    for i in 0..16 {
        assert!(board.cells[7][i]);
        assert!(board.cells[i][7]);
    }
    assert!(!board.cells[0][0]);
}

#[test]
fn pentadecathlon_cells() {
    let board = pattern_board(Pattern::Pentadecathlon, 0);
    assert_eq!(
        live_cells(&board),
        vec![
            (3, 6), (3, 7), (3, 8), (4, 5), (4, 9), (6, 4), (6, 10), (7, 4), (7, 10), (9, 5), (9, 9),
            (10, 6), (10, 7), (10, 8)
        ]
    );
}

#[test]
fn patterns_add_to_what_is_there() {
    let mut board = Board::new();
    board.set_alive(0, 0);
    board.add_pattern(Pattern::Block, 0);
    assert_eq!(live_cells(&board), vec![(0, 0), (5, 4), (5, 5), (6, 4), (6, 5)]);
}

#[test]
fn random_pattern_follows_the_generator() {
    let board = pattern_board(Pattern::Random, 0x9e37_79b9);
    assert_eq!(board.count_live_cells(), 135);
    let first_row: Vec<usize> = (0..W).filter(|&c| board.cells[0][c]).collect();
    assert_eq!(first_row, vec![0, 2, 3, 4, 5, 6, 8, 10, 11, 12, 13]);
    assert_eq!(pattern_board(Pattern::Random, 0).count_live_cells(), 140);
}

#[test]
fn random_pattern_overwrites_the_board() {
    let mut full = Board::new();
    full.add_pattern(Pattern::Cross, 0);
    full.add_pattern(Pattern::Random, 7);
    assert_eq!(full, pattern_board(Pattern::Random, 7));
}

#[test]
fn boards_differ_when_a_cell_differs() {
    let mut a = Board::new();
    let b = Board::new();
    assert_eq!(a, b);
    a.set_alive(15, 15);
    assert_ne!(a, b);
}
