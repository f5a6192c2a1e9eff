use yawnoc::conway::{alive_color, Conway, Rgb, SearchEvent, SpeedMode, Status, N_ALIVE_COLORS};
use yawnoc::keys::{key_to_command, parse_command, Command};
use yawnoc::{Board, Pattern, SearchOutcome, H, W};

fn pattern_board(pattern: Pattern, seed: u32) -> Board {
    let mut board = Board::new();
    board.add_pattern(pattern, seed);
    board
}

fn lcg(seed: u32) -> u32 {
    seed.wrapping_mul(1664525).wrapping_add(1013904223)
}

#[test]
fn fresh_state() {
    let c = Conway::new(0x9e37_79b9);
    assert_eq!(c.board, pattern_board(Pattern::Random, 0x9e37_79b9));
    assert_eq!(c.pattern_index, 1);
    assert!(!c.paused);
    assert!(c.display_power_on);
    assert_eq!(c.speed_mode, SpeedMode::Medium);
    assert_eq!(c.color_index, 1);
    assert_eq!(c.status, Status::Okay);
    assert!(!c.is_searching);
    assert_eq!(c.random_seed, 0x9e37_79b9);
}

#[test]
fn keys_are_parsed() {
    assert_eq!(parse_command("play_pause"), Command::PlayPause);
    assert_eq!(parse_command("next"), Command::Next);
    assert_eq!(parse_command("prev"), Command::Prev);
    assert_eq!(parse_command("cancel"), Command::Cancel);
    assert_eq!(parse_command("search_not_found"), Command::SearchNotFound);
    assert_eq!(parse_command("search_solver_error"), Command::SearchSolverError);
    assert_eq!(parse_command("mode"), Command::Mode);
    assert_eq!(parse_command("speed_down"), Command::SpeedDown);
    assert_eq!(parse_command("speed_up"), Command::SpeedUp);
    assert_eq!(parse_command("0"), Command::Digit(0));
    assert_eq!(parse_command("9"), Command::Digit(9));
    assert_eq!(parse_command("10"), Command::Unknown);
    assert_eq!(parse_command("x"), Command::Unknown);
    assert_eq!(parse_command(""), Command::Unknown);
    assert_eq!(parse_command("Next"), Command::Unknown);
}

#[test]
fn browser_keys_are_bound() {
    assert_eq!(key_to_command(" "), Some("play_pause"));
    assert_eq!(key_to_command("n"), Some("next"));
    assert_eq!(key_to_command("N"), Some("next"));
    assert_eq!(key_to_command("P"), Some("prev"));
    assert_eq!(key_to_command("Escape"), Some("cancel"));
    assert_eq!(key_to_command("m"), Some("mode"));
    assert_eq!(key_to_command("]"), Some("speed_up"));
    assert_eq!(key_to_command("["), Some("speed_down"));
    assert_eq!(key_to_command("7"), Some("7"));
    assert_eq!(key_to_command("x"), None);
    assert_eq!(key_to_command("Enter"), None);
}

#[test]
fn play_pause_toggles() {
    let mut c = Conway::new(1);
    assert_eq!(c.command("play_pause"), Status::Paused);
    assert!(c.paused);
    assert_eq!(c.command("play_pause"), Status::Okay);
    assert!(!c.paused);
}

#[test]
fn next_steps_only_when_paused() {
    let mut c = Conway::new(1);
    c.command("2");
    let start = c.board;
    assert_eq!(c.command("next"), Status::Okay);
    assert_eq!(c.board, start);
    c.command("play_pause");
    assert_eq!(c.command("next"), Status::Okay);
    let mut stepped = start;
    stepped.step();
    assert_eq!(c.board, stepped);
}

#[test]
fn digits_select_patterns_with_the_next_seed() {
    let mut c = Conway::new(5);
    c.is_searching = true;
    assert_eq!(c.command("3"), Status::Okay);
    assert_eq!(c.pattern_index, 3);
    assert!(!c.is_searching);
    assert_eq!(c.board, pattern_board(Pattern::Toad, 0));
    assert_eq!(c.random_seed, lcg(5));
    c.command("1");
    assert_eq!(c.board, pattern_board(Pattern::Random, lcg(lcg(5))));
}

#[test]
fn mode_cycles_colors_and_speed_saturates() {
    let mut c = Conway::new(1);
    for i in 0..N_ALIVE_COLORS {
        assert_eq!(c.color_index, (1 + i) % N_ALIVE_COLORS);
        c.command("mode");
    }
    assert_eq!(c.color_index, 1);
    c.command("speed_up");
    assert_eq!(c.speed_mode, SpeedMode::Fast);
    c.command("speed_up");
    assert_eq!(c.speed_mode, SpeedMode::Fast);
    c.command("speed_down");
    c.command("speed_down");
    c.command("speed_down");
    assert_eq!(c.speed_mode, SpeedMode::Slow);
    assert_eq!(c.command("speed_down"), Status::Okay);
}

#[test]
fn search_keys() {
    let mut c = Conway::new(1);
    assert_eq!(c.command("prev"), Status::Searching);
    assert!(c.is_searching);
    assert_eq!(c.tick(), Status::Searching);
    assert_eq!(c.command("search_not_found"), Status::NotFound);
    assert!(!c.is_searching);
    c.command("prev");
    assert_eq!(c.command("search_solver_error"), Status::SolverError);
    c.command("prev");
    assert_eq!(c.command("cancel"), Status::Cancelled);
    assert!(!c.is_searching);
    assert_eq!(c.command("bogus"), Status::Unknown);
}

#[test]
fn display_off_blocks_search_and_ticks() {
    let mut c = Conway::new(1);
    c.display_power_on = false;
    let board = c.board;
    assert_eq!(c.command("prev"), Status::Off);
    assert!(!c.is_searching);
    assert_eq!(c.tick(), Status::Off);
    assert_eq!(c.board, board);
    let frame = c.frame();
    assert_eq!(frame.cells.len(), H * W);
    assert!(frame.cells.iter().all(|x| x.is_none()));
}

#[test]
fn ticks_step_the_board_unless_paused() {
    let mut c = Conway::new(1);
    c.command("0");
    let mut expected = c.board;
    assert_eq!(c.tick(), Status::Okay);
    expected.step();
    assert_eq!(c.board, expected);
    c.command("play_pause");
    assert_eq!(c.tick(), Status::Paused);
    assert_eq!(c.board, expected);
}

#[test]
fn empty_board_resets_after_fifteen_generations() {
    let mut c = Conway::new(1);
    c.command("2");
    c.board = Board::new();
    let seed = c.random_seed;
    for i in 1..15u8 {
        c.tick();
        assert_eq!(c.empty_tracker, i);
        assert_eq!(c.board.count_live_cells(), 0);
    }
    c.tick();
    assert_eq!(c.empty_tracker, 0);
    assert_eq!(c.board, pattern_board(Pattern::Blinker, 0));
    assert_eq!(c.random_seed, lcg(seed));
}

#[test]
fn live_board_clears_the_empty_tracker() {
    let mut c = Conway::new(1);
    c.command("6");
    c.empty_tracker = 9;
    c.tick();
    assert_eq!(c.empty_tracker, 0);
}

#[test]
fn still_random_board_resets_after_fifteen_generations() {
    let mut c = Conway::new(1);
    c.board = pattern_board(Pattern::Block, 0);
    let seed = c.random_seed;
    c.tick();
    assert_eq!(c.stasis_tracker, (1, 4));
    for i in 2..15u8 {
        c.tick();
        assert_eq!(c.stasis_tracker, (i, 4));
    }
    c.tick();
    assert_eq!(c.stasis_tracker, (0, 0));
    assert_eq!(c.random_seed, lcg(seed));
    assert_eq!(c.board, pattern_board(Pattern::Random, lcg(seed)));
}

#[test]
fn toggle_cell_flips_and_ignores_outside() {
    let mut c = Conway::new(1);
    c.board = Board::new();
    c.toggle_cell(3, 4);
    assert!(c.board.cells[3][4]);
    c.toggle_cell(3, 4);
    assert_eq!(c.board, Board::new());
    c.toggle_cell(16, 0);
    c.toggle_cell(0, 16);
    assert_eq!(c.board, Board::new());
}

#[test]
fn search_reports() {
    let mut c = Conway::new(1);
    c.command("prev");
    let progress = pattern_board(Pattern::Block, 0);
    c.show_progress(progress);
    assert_eq!(c.board, progress);
    assert!(c.is_searching);
    c.stasis_tracker = (3, 3);
    c.apply_predecessor(pattern_board(Pattern::Glider, 0));
    assert_eq!(c.status, Status::Found);
    assert!(!c.is_searching);
    assert_eq!(c.stasis_tracker, (0, 0));
    c.is_searching = true;
    c.search_not_found();
    assert_eq!(c.status, Status::NotFound);
    c.is_searching = true;
    c.search_solver_error();
    assert_eq!(c.status, Status::SolverError);
    assert!(!c.is_searching);
}

#[test]
fn search_events() {
    let mut c = Conway::new(1);
    c.command("prev");
    assert!(c.handle_search_event(SearchEvent::Progress(Board::new())));
    assert_eq!(c.status, Status::Searching);
    assert!(!c.handle_search_event(SearchEvent::Waiting));
    assert!(c.is_searching);
    let found = pattern_board(Pattern::Block, 0);
    assert!(!c.handle_search_event(SearchEvent::Finished(SearchOutcome::Found(found))));
    assert_eq!(c.board, found);
    assert_eq!(c.status, Status::Found);
    assert!(!c.is_searching);
    c.command("prev");
    assert!(!c.handle_search_event(SearchEvent::Finished(SearchOutcome::NotFound)));
    assert_eq!(c.status, Status::NotFound);
    c.command("prev");
    assert!(!c.handle_search_event(SearchEvent::Finished(SearchOutcome::Error)));
    assert_eq!(c.status, Status::SolverError);
    c.command("prev");
    assert!(!c.handle_search_event(SearchEvent::Disconnected));
    assert_eq!(c.status, Status::SolverError);
    assert!(!c.is_searching);
}

#[test]
fn desktop_keys_interrupt_a_search() {
    let mut c = Conway::new(1);
    c.command("prev");
    assert_eq!(c.desktop_command("prev"), Status::Cancelled);
    assert!(!c.is_searching);
    assert_eq!(c.desktop_command("prev"), Status::Searching);
    assert_eq!(c.desktop_command("mode"), Status::Okay);
    assert!(!c.is_searching);
    assert_eq!(c.desktop_command("search_not_found"), Status::Unknown);
    assert_eq!(c.desktop_command("cancel"), Status::Cancelled);
}

#[test]
fn frame_colors() {
    let mut c = Conway::new(1);
    c.command("6");
    let frame = c.frame();
    assert_eq!((frame.width, frame.height), (W, H));
    assert_eq!(frame.live_cells, 4);
    assert_eq!(frame.tick_interval_ms, 160);
    assert_eq!(frame.speed, SpeedMode::Medium);
    assert_eq!(frame.cells[5 * W + 4], Some(Rgb { r: 0, g: 255, b: 255 }));
    assert_eq!(frame.cells[0], None);
    c.command("prev");
    let searching = c.frame();
    assert_eq!(searching.status, Status::Searching);
    assert_eq!(searching.cells[5 * W + 4], Some(Rgb { r: 220, g: 30, b: 30 }));
    assert_eq!(c.frame_with(false).cells[5 * W + 5], Some(alive_color(1)));
}

#[test]
fn names_and_intervals() {
    assert_eq!(Status::Okay.as_str(), "ok");
    assert_eq!(Status::NotFound.as_str(), "not_found");
    assert_eq!(Status::SolverError.as_str(), "solver_error");
    assert_eq!(Status::Unknown.as_str(), "unknown");
    assert_eq!(SpeedMode::Slow.as_str(), "slow");
    assert_eq!(SpeedMode::Fast.as_str(), "fast");
    assert_eq!(SpeedMode::Slow.interval_ms(), 500);
    assert_eq!(SpeedMode::Fast.interval_ms(), 50);
    assert_eq!(alive_color(0), Rgb::new(0, 255, 0));
    assert_eq!(alive_color(5), Rgb::new(255, 255, 255));
}

#[test]
fn what_a_state_accepts() {
    let mut c = Conway::new(1);
    assert!(c.accepts(Command::Next));
    assert!(c.accepts_tick());
    assert!(!c.accepts(Command::Digit(10)));
    c.pattern_index = 12;
    assert!(c.accepts(Command::Mode));
    assert!(c.accepts(Command::Next));
    assert!(!c.accepts_tick());
    c.paused = true;
    assert!(!c.accepts(Command::Next));
    assert!(c.accepts_tick());
    assert_eq!(c.command("mode"), Status::Okay);
    c.color_index = usize::MAX;
    assert!(!c.accepts(Command::Mode));
}

#[test]
fn saturated_empty_tracker_is_harmless_under_random() {
    let mut c = Conway::new(1);
    c.empty_tracker = 255;
    assert!(c.accepts_tick());
    c.tick();
    assert_eq!(c.empty_tracker, 255);
    let mut d = Conway::new(1);
    d.command("2");
    d.board = Board::new();
    d.empty_tracker = 255;
    assert!(!d.accepts_tick());
}

#[test]
fn frame_with_display_off_needs_no_color() {
    let mut c = Conway::new(1);
    c.display_power_on = false;
    c.color_index = 99;
    let frame = c.frame_with(false);
    assert!(frame.cells.iter().all(|x| x.is_none()));
    c.display_power_on = true;
    let highlighted = c.frame_with(true);
    assert!(highlighted.cells.iter().flatten().all(|&col| col == Rgb::new(220, 30, 30)));
}

#[test]
fn auto_reset_redraws_an_empty_board_on_the_fifteenth_generation() {
    let mut c = Conway::new(1);
    c.command("4");
    c.board = Board::new();
    c.empty_tracker = 14;
    let seed = c.random_seed;
    c.evaluate_auto_reset();
    assert_eq!(c.board, pattern_board(Pattern::Beacon, 0));
    assert_eq!((c.empty_tracker, c.stasis_tracker), (0, (0, 0)));
    assert_eq!(c.random_seed, lcg(seed));
    c.empty_tracker = 3;
    c.evaluate_auto_reset();
    assert_eq!(c.empty_tracker, 0);
}
