//! The state machine behind the user interfaces: the board, the selected pattern,
//! play/pause, speed, colour, the search status, and the automatic reset of boards
//! that have stopped changing.
use vstd::prelude::*;
use crate::board::{Board, H, W};
use crate::keys::{Command, command_of, parse_command};
use crate::patterns::{Pattern, PATTERNS, pattern_cell, pattern_placed, random_cell, lcg};
use crate::search::SearchOutcome;

verus! {

/// Generations without change (or, for most patterns, with an empty board) after
/// which the board is reset.
pub const STASIS_RESET_GENERATIONS: u8 = 15;

/// Number of colours that live cells can be shown in.
pub const N_ALIVE_COLORS: usize = 6;

/// A colour.
#[derive(Clone, Copy, Debug, PartialEq, Eq, Structural)]
pub struct Rgb {
    pub r: u8,
    pub g: u8,
    pub b: u8,
}

impl Rgb {
    pub fn new(r: u8, g: u8, b: u8) -> (c: Self)
        ensures
            c == (Rgb { r, g, b }),
    {
        Rgb { r, g, b }
    }
}

/// The colours for live cells: green, cyan, magenta, orange, yellow, white.
pub open spec fn alive_color_spec(index: int) -> Rgb {
    if index == 0 {
        Rgb { r: 0, g: 255, b: 0 }
    } else if index == 1 {
        Rgb { r: 0, g: 255, b: 255 }
    } else if index == 2 {
        Rgb { r: 255, g: 0, b: 255 }
    } else if index == 3 {
        Rgb { r: 255, g: 165, b: 0 }
    } else if index == 4 {
        Rgb { r: 255, g: 255, b: 0 }
    } else {
        Rgb { r: 255, g: 255, b: 255 }
    }
}

/// The colour for live cells number `index`.
pub fn alive_color(index: usize) -> (c: Rgb)
    requires
        index < N_ALIVE_COLORS,
    ensures
        c == alive_color_spec(index as int),
{
    if index == 0 {
        Rgb::new(0, 255, 0)
    } else if index == 1 {
        Rgb::new(0, 255, 255)
    } else if index == 2 {
        Rgb::new(255, 0, 255)
    } else if index == 3 {
        Rgb::new(255, 165, 0)
    } else if index == 4 {
        Rgb::new(255, 255, 0)
    } else {
        Rgb::new(255, 255, 255)
    }
}

/// The colour of live cells while a search runs.
pub open spec fn search_color_spec() -> Rgb {
    Rgb { r: 220, g: 30, b: 30 }
}

/// What the last command or tick did.
#[derive(Clone, Copy, Debug, PartialEq, Eq, Structural)]
pub enum Status {
    Okay,
    Paused,
    Searching,
    Found,
    NotFound,
    SolverError,
    Cancelled,
    Off,
    Unknown,
}

/// The name of a status as the front ends show it.
pub open spec fn status_name(status: Status) -> Seq<char> {
    match status {
        Status::Okay => "ok"@,
        Status::Paused => "paused"@,
        Status::Searching => "searching"@,
        Status::Found => "found"@,
        Status::NotFound => "not_found"@,
        Status::SolverError => "solver_error"@,
        Status::Cancelled => "cancelled"@,
        Status::Off => "off"@,
        Status::Unknown => "unknown"@,
    }
}

impl Status {
    /// The name of the status.
    pub fn as_str(self) -> (name: &'static str)
        ensures
            name@ == status_name(self),
    {
        match self {
            Status::Okay => "ok",
            Status::Paused => "paused",
            Status::Searching => "searching",
            Status::Found => "found",
            Status::NotFound => "not_found",
            Status::SolverError => "solver_error",
            Status::Cancelled => "cancelled",
            Status::Off => "off",
            Status::Unknown => "unknown",
        }
    }
}

/// How fast the board plays.
#[derive(Clone, Copy, Debug, PartialEq, Eq, Structural)]
pub enum SpeedMode {
    Slow,
    Medium,
    Fast,
}

/// The name of a speed as the front ends show it.
pub open spec fn speed_name(speed: SpeedMode) -> Seq<char> {
    match speed {
        SpeedMode::Slow => "slow"@,
        SpeedMode::Medium => "medium"@,
        SpeedMode::Fast => "fast"@,
    }
}

/// Milliseconds between generations at a speed.
pub open spec fn speed_interval(speed: SpeedMode) -> u32 {
    match speed {
        SpeedMode::Slow => 500u32,
        SpeedMode::Medium => 160u32,
        SpeedMode::Fast => 50u32,
    }
}

impl SpeedMode {
    /// One step slower, staying at `Slow`.
    pub fn slower(self) -> (s: Self)
        ensures
            s == (match self {
                SpeedMode::Slow => SpeedMode::Slow,
                SpeedMode::Medium => SpeedMode::Slow,
                SpeedMode::Fast => SpeedMode::Medium,
            }),
    {
        match self {
            SpeedMode::Slow => SpeedMode::Slow,
            SpeedMode::Medium => SpeedMode::Slow,
            SpeedMode::Fast => SpeedMode::Medium,
        }
    }

    /// One step faster, staying at `Fast`.
    pub fn faster(self) -> (s: Self)
        ensures
            s == (match self {
                SpeedMode::Slow => SpeedMode::Medium,
                SpeedMode::Medium => SpeedMode::Fast,
                SpeedMode::Fast => SpeedMode::Fast,
            }),
    {
        match self {
            SpeedMode::Slow => SpeedMode::Medium,
            SpeedMode::Medium => SpeedMode::Fast,
            SpeedMode::Fast => SpeedMode::Fast,
        }
    }

    /// Milliseconds between generations.
    pub fn interval_ms(self) -> (ms: u32)
        ensures
            ms == speed_interval(self),
    {
        match self {
            SpeedMode::Slow => 500,
            SpeedMode::Medium => 160,
            SpeedMode::Fast => 50,
        }
    }

    /// The name of the speed.
    pub fn as_str(self) -> (name: &'static str)
        ensures
            name@ == speed_name(self),
    {
        match self {
            SpeedMode::Slow => "slow",
            SpeedMode::Medium => "medium",
            SpeedMode::Fast => "fast",
        }
    }
}

/// The pattern that number key `index` selects.
pub open spec fn pattern_for(index: int) -> Pattern {
    if index == 0 {
        Pattern::Glider
    } else if index == 1 {
        Pattern::Random
    } else if index == 2 {
        Pattern::Blinker
    } else if index == 3 {
        Pattern::Toad
    } else if index == 4 {
        Pattern::Beacon
    } else if index == 5 {
        Pattern::Lwss
    } else if index == 6 {
        Pattern::Block
    } else if index == 7 {
        Pattern::Pentadecathlon
    } else if index == 8 {
        Pattern::Cross
    } else {
        Pattern::Custom9
    }
}

/// `b` is the board that `pattern` draws on an empty board (seeding `Random` with `seed`).
pub open spec fn is_pattern_board(b: Board, pattern: Pattern, seed: u32) -> bool {
    forall|r: int, c: int|
        0 <= r < H && 0 <= c < W ==> #[trigger] b.at(r, c) == if pattern is Random {
            random_cell(seed, r, c)
        } else {
            pattern_cell(pattern, r, c)
        }
}

/// `new` is `old` one generation later.
pub open spec fn is_next_generation(old: Board, new: Board) -> bool {
    forall|r: int, c: int| 0 <= r < H && 0 <= c < W ==> #[trigger] new.at(r, c) == old.next_at(r, c)
}

/// The state of the application.
#[derive(Clone, Copy, Debug)]
pub struct Conway {
    pub board: Board,
    /// The number key (0 to 9) of the selected pattern.
    pub pattern_index: usize,
    pub paused: bool,
    pub display_power_on: bool,
    pub speed_mode: SpeedMode,
    /// Which colour (below `N_ALIVE_COLORS`) live cells are shown in.
    pub color_index: usize,
    pub status: Status,
    pub is_searching: bool,
    /// Generations in a row with the same live-cell count, and that count.
    pub stasis_tracker: (u8, u16),
    /// Generations in a row with an empty board.
    pub empty_tracker: u8,
    /// The generator value that the last reset used.
    pub random_seed: u32,
}

/// What the front ends draw.
pub struct Frame {
    pub width: usize,
    pub height: usize,
    /// Row-major; the colour of each live cell, `None` for dead cells (and for every
    /// cell while the display is off).
    pub cells: Vec<Option<Rgb>>,
    pub status: Status,
    pub live_cells: u16,
    pub tick_interval_ms: u32,
    pub speed: SpeedMode,
}

/// What cell `i` (row-major) of the frame of `c` shows: the colour of a live cell
/// (the search colour when `highlight`), nothing for a dead cell or a dark display.
pub open spec fn frame_cell(c: Conway, highlight: bool, i: int) -> Option<Rgb> {
    if c.display_power_on && c.board.at(i / (W as int), i % (W as int)) {
        Some(if highlight { search_color_spec() } else { alive_color_spec(c.color_index as int) })
    } else {
        None
    }
}

/// A report of a running predecessor search.
pub enum SearchEvent {
    /// A better predecessor has been found.
    Progress(Board),
    /// The search has ended.
    Finished(SearchOutcome),
    /// Nothing new yet.
    Waiting,
    /// The search went away without an answer.
    Disconnected,
}

/// `new` has the settings of `old`: pattern, play state, power, speed, colour and
/// search flag.
pub open spec fn same_settings(old: Conway, new: Conway) -> bool {
    &&& new.pattern_index == old.pattern_index
    &&& new.paused == old.paused
    &&& new.display_power_on == old.display_power_on
    &&& new.speed_mode == old.speed_mode
    &&& new.color_index == old.color_index
    &&& new.is_searching == old.is_searching
}

/// `new` is `old` with the board of its pattern drawn anew from the next generator value.
pub open spec fn is_reset_of(old: Conway, new: Conway) -> bool {
    &&& same_settings(old, new)
    &&& new.random_seed == lcg(old.random_seed)
    &&& is_pattern_board(new.board, pattern_for(old.pattern_index as int), new.random_seed)
    &&& new.stasis_tracker == (0u8, 0u16)
    &&& new.empty_tracker == 0
}

/// Only the given trackers differ between `old` and `new` (status aside).
pub open spec fn only_trackers(old: Conway, new: Conway, stasis: (u8, u16), empty: u8) -> bool {
    &&& same_settings(old, new)
    &&& new.board == old.board
    &&& new.random_seed == old.random_seed
    &&& new.stasis_tracker == stasis
    &&& new.empty_tracker == empty
}

/// The automatic reset after a generation: `Random` and `Cross` boards are reset when
/// their live-cell count has stayed the same for `STASIS_RESET_GENERATIONS` generations,
/// other patterns when the board has been empty that long.
pub open spec fn auto_reset_effect(old: Conway, new: Conway) -> bool {
    let n = old.board.live();
    let p = pattern_for(old.pattern_index as int);
    if p is Random || p is Cross {
        if n == old.stasis_tracker.1 {
            if old.stasis_tracker.0 + 1 >= STASIS_RESET_GENERATIONS {
                is_reset_of(old, new)
            } else {
                only_trackers(old, new, ((old.stasis_tracker.0 + 1) as u8, n as u16), old.empty_tracker)
            }
        } else {
            only_trackers(old, new, (1u8, n as u16), old.empty_tracker)
        }
    } else if n == 0 {
        if old.empty_tracker + 1 >= STASIS_RESET_GENERATIONS {
            is_reset_of(old, new)
        } else {
            only_trackers(old, new, old.stasis_tracker, (old.empty_tracker + 1) as u8)
        }
    } else {
        only_trackers(old, new, old.stasis_tracker, 0)
    }
}

/// One generation: the board steps, then the automatic reset applies.
pub open spec fn generation_effect(old: Conway, new: Conway) -> bool {
    exists|b: Board| is_next_generation(old.board, b) && #[trigger] auto_reset_effect(Conway { board: b, ..old }, new)
}

/// `new` is `old` with only the status changed.
pub open spec fn only_status(old: Conway, new: Conway, status: Status) -> bool {
    new == Conway { status, ..old }
}

/// What a command does to the state.
pub open spec fn command_effect(old: Conway, command: Command, new: Conway) -> bool {
    match command {
        Command::PlayPause => new == Conway {
            paused: !old.paused,
            status: if !old.paused { Status::Paused } else { Status::Okay },
            ..old
        },
        Command::Next => if old.display_power_on && old.paused {
            generation_effect(old, Conway { status: old.status, ..new }) && new.status == Status::Okay
        } else {
            only_status(old, new, Status::Okay)
        },
        Command::Prev => if old.display_power_on {
            new == Conway { is_searching: true, status: Status::Searching, ..old }
        } else {
            only_status(old, new, Status::Off)
        },
        Command::Cancel => new == Conway { is_searching: false, status: Status::Cancelled, ..old },
        Command::SearchNotFound => new == Conway { is_searching: false, status: Status::NotFound, ..old },
        Command::SearchSolverError => new == Conway {
            is_searching: false,
            status: Status::SolverError,
            ..old
        },
        Command::Mode => new == Conway {
            color_index: ((old.color_index + 1) % (N_ALIVE_COLORS as int)) as usize,
            status: Status::Okay,
            ..old
        },
        Command::SpeedDown => new == Conway {
            speed_mode: match old.speed_mode {
                SpeedMode::Slow => SpeedMode::Slow,
                SpeedMode::Medium => SpeedMode::Slow,
                SpeedMode::Fast => SpeedMode::Medium,
            },
            status: Status::Okay,
            ..old
        },
        Command::SpeedUp => new == Conway {
            speed_mode: match old.speed_mode {
                SpeedMode::Slow => SpeedMode::Medium,
                SpeedMode::Medium => SpeedMode::Fast,
                SpeedMode::Fast => SpeedMode::Fast,
            },
            status: Status::Okay,
            ..old
        },
        Command::Digit(d) => d < 10 && is_reset_of(
            Conway { pattern_index: d as usize, is_searching: false, ..old },
            Conway { status: old.status, ..new },
        ) && new.status == Status::Okay,
        Command::Unknown => only_status(old, new, Status::Unknown),
    }
}

/// The automatic reset can run on `c`: the pattern index names a pattern, and the
/// tracker that would count one more generation is below 255.
pub open spec fn auto_reset_ok(c: Conway) -> bool {
    let n = c.board.live();
    let p = pattern_for(c.pattern_index as int);
    &&& c.pattern_index < 10
    &&& ((p is Random || p is Cross) && n == c.stasis_tracker.1 ==> c.stasis_tracker.0 < 255)
    &&& (!(p is Random || p is Cross) && n == 0 ==> c.empty_tracker < 255)
}

/// A generation (a step, then the automatic reset) can run on `c`.
pub open spec fn generation_ok(c: Conway) -> bool {
    forall|b: Board| #[trigger] is_next_generation(c.board, b) ==> auto_reset_ok(Conway { board: b, ..c })
}

/// `command` can run on `c`: a generation where `next` steps, a colour index that can
/// be counted up for `mode`, a pattern number for a digit.
pub open spec fn command_ok(c: Conway, command: Command) -> bool {
    match command {
        Command::Next => c.display_power_on && c.paused ==> generation_ok(c),
        Command::Mode => c.color_index < usize::MAX,
        Command::Digit(d) => d < 10,
        _ => true,
    }
}

/// A tick can run on `c`: a generation where the tick steps.
pub open spec fn tick_ok(c: Conway) -> bool {
    c.display_power_on && !c.is_searching && !c.paused ==> generation_ok(c)
}

/// The automatic reset keeps both trackers below `STASIS_RESET_GENERATIONS`, so they
/// never overflow; and a board of a pattern other than `Random` or `Cross` that has been
/// empty for the last `STASIS_RESET_GENERATIONS - 1` generations and is empty again is
/// redrawn: its cells are those that `add_pattern` with the pattern and the next
/// generator value gives an empty board, and both trackers are zero.
pub proof fn lemma_auto_reset_trackers(old: Conway, new: Conway, empty: Board, fresh: Board)
    requires
        old.pattern_index < 10,
        old.empty_tracker < STASIS_RESET_GENERATIONS,
        old.stasis_tracker.0 < STASIS_RESET_GENERATIONS,
        auto_reset_effect(old, new),
        forall|r: int, c: int| 0 <= r < H && 0 <= c < W ==> !#[trigger] empty.at(r, c),
        pattern_placed(empty, fresh, pattern_for(old.pattern_index as int), lcg(old.random_seed)),
    ensures
        new.empty_tracker < STASIS_RESET_GENERATIONS,
        new.stasis_tracker.0 < STASIS_RESET_GENERATIONS,
        ({
            let p = pattern_for(old.pattern_index as int);
            !(p is Random || p is Cross) && old.board.live() == 0 && old.empty_tracker
                == STASIS_RESET_GENERATIONS - 1 ==> {
                &&& new.random_seed == lcg(old.random_seed)
                &&& new.board.same_cells(fresh)
                &&& new.empty_tracker == 0
                &&& new.stasis_tracker == (0u8, 0u16)
            }
        }),
{
    let p = pattern_for(old.pattern_index as int);
    if !(p is Random || p is Cross) && old.board.live() == 0 && old.empty_tracker == STASIS_RESET_GENERATIONS - 1 {
        assert forall|r: int, c: int| 0 <= r < H && 0 <= c < W implies #[trigger] new.board.at(r, c) == fresh.at(r, c) by {
            assert(new.board.at(r, c) == pattern_cell(p, r, c));
        }
    }
}

/// What the automatic reset does to a `Random` or `Cross` board. When its live-cell count
/// has been the same for the last `STASIS_RESET_GENERATIONS - 1` generations and is the
/// same again, the board is redrawn: its cells are those that `add_pattern` with the
/// pattern and the next generator value gives an empty board (for `Cross`, the cells of
/// row 7 and column 7), and both trackers are zero. While the count has been the same
/// for fewer generations, the board and the generator are kept and the count of
/// unchanged generations goes up by one; a changed count starts that count again at one.
pub proof fn lemma_stasis_reset(old: Conway, new: Conway, empty: Board, fresh: Board)
    requires
        pattern_for(old.pattern_index as int) is Random || pattern_for(old.pattern_index as int) is Cross,
        old.stasis_tracker.0 < STASIS_RESET_GENERATIONS,
        auto_reset_effect(old, new),
        forall|r: int, c: int| 0 <= r < H && 0 <= c < W ==> !#[trigger] empty.at(r, c),
        pattern_placed(empty, fresh, pattern_for(old.pattern_index as int), lcg(old.random_seed)),
    ensures
        old.board.live() == old.stasis_tracker.1 && old.stasis_tracker.0 == STASIS_RESET_GENERATIONS - 1 ==> {
            &&& new.random_seed == lcg(old.random_seed)
            &&& new.board.same_cells(fresh)
            &&& new.stasis_tracker == (0u8, 0u16)
            &&& new.empty_tracker == 0
            &&& pattern_for(old.pattern_index as int) is Cross ==> forall|r: int, c: int|
                0 <= r < H && 0 <= c < W ==> #[trigger] new.board.at(r, c) == (r == 7 || c == 7)
        },
        old.board.live() == old.stasis_tracker.1 && old.stasis_tracker.0 < STASIS_RESET_GENERATIONS - 1 ==> {
            &&& new.board == old.board
            &&& new.random_seed == old.random_seed
            &&& new.stasis_tracker == ((old.stasis_tracker.0 + 1) as u8, old.stasis_tracker.1)
            &&& new.empty_tracker == old.empty_tracker
        },
        old.board.live() != old.stasis_tracker.1 ==> {
            &&& new.board == old.board
            &&& new.random_seed == old.random_seed
            &&& new.stasis_tracker == (1u8, old.board.live() as u16)
            &&& new.empty_tracker == old.empty_tracker
        },
{
    let p = pattern_for(old.pattern_index as int);
    if old.board.live() == old.stasis_tracker.1 && old.stasis_tracker.0 == STASIS_RESET_GENERATIONS - 1 {
        assert forall|r: int, c: int| 0 <= r < H && 0 <= c < W implies #[trigger] new.board.at(r, c) == fresh.at(r, c) by {
            if p is Random {
                assert(new.board.at(r, c) == random_cell(new.random_seed, r, c));
            } else {
                assert(new.board.at(r, c) == pattern_cell(p, r, c));
            }
        }
    }
}

/// Every command with a pattern number, and every tick, can run on a well-formed state.
pub proof fn lemma_wf_runs(c: Conway, command: Command)
    requires
        c.wf(),
        command matches Command::Digit(d) ==> d < 10,
    ensures
        command_ok(c, command),
        tick_ok(c),
{
}

impl Conway {
    /// The state keeps its indices in range and its trackers below 255.
    pub open spec fn wf(self) -> bool {
        &&& self.pattern_index < 10
        &&& self.color_index < N_ALIVE_COLORS
        &&& self.stasis_tracker.0 < 255
        &&& self.empty_tracker < 255
    }

    /// A fresh state: a random board from `random_seed`, playing at medium speed.
    pub fn new(random_seed: u32) -> (c: Self)
        ensures
            c.wf(),
            is_pattern_board(c.board, Pattern::Random, random_seed),
            c.pattern_index == 1,
            !c.paused,
            c.display_power_on,
            c.speed_mode == SpeedMode::Medium,
            c.color_index == 1,
            c.status == Status::Okay,
            !c.is_searching,
            c.stasis_tracker == (0u8, 0u16),
            c.empty_tracker == 0,
            c.random_seed == random_seed,
    {
        let mut board = Board::new();
        board.add_pattern(PATTERNS[1], random_seed);
        Conway {
            board,
            pattern_index: 1,
            paused: false,
            display_power_on: true,
            speed_mode: SpeedMode::Medium,
            color_index: 1,
            status: Status::Okay,
            is_searching: false,
            stasis_tracker: (0, 0),
            empty_tracker: 0,
            random_seed,
        }
    }

    /// Checks the conditions of `auto_reset_ok`.
    fn auto_reset_allowed(&self) -> (ok: bool)
        ensures
            ok == auto_reset_ok(*self),
    {
        if self.pattern_index >= 10 {
            return false;
        }
        let n = self.board.count_live_cells();
        if matches!(PATTERNS[self.pattern_index], Pattern::Random | Pattern::Cross) {
            !(n == self.stasis_tracker.1) || self.stasis_tracker.0 < 255
        } else {
            !(n == 0) || self.empty_tracker < 255
        }
    }

    /// Checks the conditions of `generation_ok`.
    fn generation_allowed(&self) -> (ok: bool)
        ensures
            ok == generation_ok(*self),
    {
        let mut next = *self;
        next.board.step();
        let ok = next.auto_reset_allowed();
        proof {
            assert(is_next_generation(self.board, next.board));
            assert(next == Conway { board: next.board, ..*self });
            assert forall|b: Board| #[trigger] is_next_generation(self.board, b) implies auto_reset_ok(
                Conway { board: b, ..*self },
            ) == ok by {
                crate::board::lemma_live_same_cells(b, next.board);
            }
        }
        ok
    }

    /// Whether `command` can run on this state (see `command_ok`).
    pub fn accepts(&self, command: Command) -> (ok: bool)
        ensures
            ok == command_ok(*self, command),
    {
        match command {
            Command::Next => !(self.display_power_on && self.paused) || self.generation_allowed(),
            Command::Mode => self.color_index < usize::MAX,
            Command::Digit(d) => d < 10,
            _ => true,
        }
    }

    /// Whether a tick can run on this state (see `tick_ok`).
    pub fn accepts_tick(&self) -> (ok: bool)
        ensures
            ok == tick_ok(*self),
    {
        !(self.display_power_on && !self.is_searching && !self.paused) || self.generation_allowed()
    }

    /// Advances the generator and returns its new value.
    fn next_random_seed(&mut self) -> (seed: u32)
        ensures
            seed == lcg(old(self).random_seed),
            *final(self) == (Conway { random_seed: seed, ..*old(self) }),
    {
        self.random_seed = self.random_seed.wrapping_mul(1664525).wrapping_add(1013904223);
        self.random_seed
    }

    /// Draws the selected pattern anew on an empty board, with the next generator value.
    fn reset_board_for_pattern(&mut self)
        requires
            old(self).pattern_index < 10,
        ensures
            is_reset_of(*old(self), *final(self)),
            final(self).status == old(self).status,
    {
        let mut board = Board::new();
        let random_seed = self.next_random_seed();
        board.add_pattern(PATTERNS[self.pattern_index], random_seed);
        self.board = board;
        self.stasis_tracker = (0, 0);
        self.empty_tracker = 0;
    }

    /// Resets a board that has stopped changing (see `auto_reset_effect`); trackers below
    /// `STASIS_RESET_GENERATIONS` stay below it.
    pub fn evaluate_auto_reset(&mut self)
        requires
            auto_reset_ok(*old(self)),
        ensures
            old(self).wf() ==> final(self).wf(),
            old(self).empty_tracker < STASIS_RESET_GENERATIONS && old(self).stasis_tracker.0
                < STASIS_RESET_GENERATIONS ==> final(self).empty_tracker < STASIS_RESET_GENERATIONS
                && final(self).stasis_tracker.0 < STASIS_RESET_GENERATIONS,
            auto_reset_effect(*old(self), *final(self)),
            final(self).status == old(self).status,
    {
        let live_cell_count = self.board.count_live_cells();
        let current_pattern = PATTERNS[self.pattern_index];
        if matches!(current_pattern, Pattern::Random | Pattern::Cross) {
            let (unchanged_count, last_live_count) = self.stasis_tracker;
            if live_cell_count == last_live_count {
                let new_unchanged_count = unchanged_count + 1;
                self.stasis_tracker = (new_unchanged_count, live_cell_count);
                if new_unchanged_count >= STASIS_RESET_GENERATIONS {
                    self.reset_board_for_pattern();
                }
            } else {
                self.stasis_tracker = (1, live_cell_count);
            }
        } else if live_cell_count == 0 {
            self.empty_tracker = self.empty_tracker + 1;
            if self.empty_tracker >= STASIS_RESET_GENERATIONS {
                self.reset_board_for_pattern();
            }
        } else {
            self.empty_tracker = 0;
        }
    }

    /// One generation followed by the automatic reset.
    fn advance(&mut self)
        requires
            generation_ok(*old(self)),
        ensures
            old(self).wf() ==> final(self).wf(),
            generation_effect(*old(self), *final(self)),
            final(self).status == old(self).status,
    {
        let ghost start = *self;
        self.board.step();
        let ghost mid = *self;
        assert(mid == Conway { board: mid.board, ..start });
        assert(is_next_generation(start.board, mid.board));
        self.evaluate_auto_reset();
        assert(is_next_generation(start.board, mid.board));
        assert(auto_reset_effect(Conway { board: mid.board, ..start }, *self));
    }

    /// Carries out `command` (see `command_effect`) and returns the new status.
    pub fn apply_command(&mut self, command: Command) -> (status: Status)
        requires
            command_ok(*old(self), command),
        ensures
            old(self).wf() ==> final(self).wf(),
            status == final(self).status,
            command_effect(*old(self), command, *final(self)),
    {
        let ghost start = *self;
        let status = match command {
            Command::PlayPause => {
                self.paused = !self.paused;
                if self.paused {
                    Status::Paused
                } else {
                    Status::Okay
                }
            },
            Command::Next => {
                if self.display_power_on && self.paused {
                    self.advance();
                }
                Status::Okay
            },
            Command::Prev => {
                if self.display_power_on {
                    self.is_searching = true;
                    Status::Searching
                } else {
                    Status::Off
                }
            },
            Command::Cancel => {
                self.is_searching = false;
                Status::Cancelled
            },
            Command::SearchNotFound => {
                self.is_searching = false;
                Status::NotFound
            },
            Command::SearchSolverError => {
                self.is_searching = false;
                Status::SolverError
            },
            Command::Mode => {
                self.color_index = (self.color_index + 1) % N_ALIVE_COLORS;
                Status::Okay
            },
            Command::SpeedDown => {
                self.speed_mode = self.speed_mode.slower();
                Status::Okay
            },
            Command::SpeedUp => {
                self.speed_mode = self.speed_mode.faster();
                Status::Okay
            },
            Command::Digit(d) => {
                self.pattern_index = d as usize;
                self.is_searching = false;
                self.reset_board_for_pattern();
                Status::Okay
            },
            Command::Unknown => Status::Unknown,
        };
        let ghost before_status = *self;
        self.status = status;
        proof {
            if command is Next && start.display_power_on && start.paused {
                assert(Conway { status: start.status, ..*self } == before_status);
            }
            if command is Digit {
                assert(Conway { status: start.status, ..*self } == before_status);
            }
        }
        status
    }

    /// Carries out the command that `key` names (see `command_of`).
    pub fn command(&mut self, key: &str) -> (status: Status)
        requires
            command_ok(*old(self), command_of(key@)),
        ensures
            old(self).wf() ==> final(self).wf(),
            status == final(self).status,
            command_effect(*old(self), command_of(key@), *final(self)),
    {
        let command = parse_command(key);
        self.apply_command(command)
    }

    /// A key as the desktop front end handles it: a key that arrives during a search
    /// first stops the search, and `prev` or `cancel` then only report the
    /// cancellation; the search reports that the web front end accepts as keys are
    /// unknown commands there.
    pub fn desktop_command(&mut self, key: &str) -> (status: Status)
        requires
            command_ok(*old(self), command_of(key@)),
        ensures
            old(self).wf() ==> final(self).wf(),
            status == final(self).status,
            ({
                let command = command_of(key@);
                if old(self).is_searching && (command is Prev || command is Cancel) {
                    *final(self) == Conway { is_searching: false, status: Status::Cancelled, ..*old(self) }
                } else {
                    let mid = Conway { is_searching: false, ..*old(self) };
                    if command is SearchNotFound || command is SearchSolverError {
                        only_status(mid, *final(self), Status::Unknown)
                    } else {
                        command_effect(mid, command, *final(self))
                    }
                }
            }),
    {
        let command = parse_command(key);
        if self.is_searching {
            self.is_searching = false;
            if matches!(command, Command::Prev | Command::Cancel) {
                self.status = Status::Cancelled;
                return self.status;
            }
        }
        let command = match command {
            Command::SearchNotFound | Command::SearchSolverError => Command::Unknown,
            other => other,
        };
        self.apply_command(command)
    }

    /// One tick of the clock: nothing while the display is off, a search runs or the
    /// board is paused; otherwise one generation.
    pub fn tick(&mut self) -> (status: Status)
        requires
            tick_ok(*old(self)),
        ensures
            old(self).wf() ==> final(self).wf(),
            status == final(self).status,
            if !old(self).display_power_on {
                only_status(*old(self), *final(self), Status::Off)
            } else if old(self).is_searching {
                only_status(*old(self), *final(self), Status::Searching)
            } else if old(self).paused {
                only_status(*old(self), *final(self), Status::Paused)
            } else {
                generation_effect(*old(self), Conway { status: old(self).status, ..*final(self) })
                    && final(self).status == Status::Okay
            },
    {
        if !self.display_power_on {
            self.status = Status::Off;
            return self.status;
        }
        if self.is_searching {
            self.status = Status::Searching;
            return self.status;
        }
        if self.paused {
            self.status = Status::Paused;
            return self.status;
        }
        self.advance();
        let ghost before_status = *self;
        self.status = Status::Okay;
        assert(Conway { status: old(self).status, ..*self } == before_status);
        self.status
    }

    /// Flips the cell (`row`, `col`) when it is on the board.
    pub fn toggle_cell(&mut self, row: usize, col: usize)
        ensures
            *final(self) == (Conway { board: final(self).board, ..*old(self) }),
            forall|r: int, c: int|
                0 <= r < H && 0 <= c < W ==> #[trigger] final(self).board.at(r, c) == (old(self).board.at(r, c)
                    != (r == row && c == col)),
    {
        if row < H && col < W {
            let mut line = self.board.cells[row];
            line[col] = !line[col];
            self.board.cells[row] = line;
        }
    }

    /// Shows a board that a running search has found on its way.
    pub fn show_progress(&mut self, board: Board)
        ensures
            *final(self) == (Conway { board, ..*old(self) }),
    {
        self.board = board;
    }

    /// Takes the predecessor that a search found.
    pub fn apply_predecessor(&mut self, board: Board)
        ensures
            *final(self) == (Conway {
                board,
                is_searching: false,
                stasis_tracker: (0u8, 0u16),
                empty_tracker: 0u8,
                status: Status::Found,
                ..*old(self)
            }),
    {
        self.board = board;
        self.is_searching = false;
        self.stasis_tracker = (0, 0);
        self.empty_tracker = 0;
        self.status = Status::Found;
    }

    /// Records that the search found no predecessor.
    pub fn search_not_found(&mut self)
        ensures
            *final(self) == (Conway { is_searching: false, status: Status::NotFound, ..*old(self) }),
    {
        self.is_searching = false;
        self.status = Status::NotFound;
    }

    /// Records that the solver failed.
    pub fn search_solver_error(&mut self)
        ensures
            *final(self) == (Conway { is_searching: false, status: Status::SolverError, ..*old(self) }),
    {
        self.is_searching = false;
        self.status = Status::SolverError;
    }

    /// Takes one report of a running search; returns whether to ask for the next one.
    pub fn handle_search_event(&mut self, event: SearchEvent) -> (more: bool)
        ensures
            match event {
                SearchEvent::Progress(b) => more && *final(self) == Conway {
                    board: b,
                    status: Status::Searching,
                    ..*old(self)
                },
                SearchEvent::Finished(SearchOutcome::Found(b)) => !more && *final(self) == Conway {
                    board: b,
                    is_searching: false,
                    stasis_tracker: (0u8, 0u16),
                    empty_tracker: 0u8,
                    status: Status::Found,
                    ..*old(self)
                },
                SearchEvent::Finished(SearchOutcome::NotFound) => !more && *final(self) == Conway {
                    is_searching: false,
                    status: Status::NotFound,
                    ..*old(self)
                },
                SearchEvent::Finished(SearchOutcome::Error) | SearchEvent::Disconnected => !more
                    && *final(self) == Conway { is_searching: false, status: Status::SolverError, ..*old(self) },
                SearchEvent::Waiting => !more && only_status(*old(self), *final(self), Status::Searching),
            },
    {
        match event {
            SearchEvent::Progress(board) => {
                self.board = board;
                self.status = Status::Searching;
                true
            },
            SearchEvent::Finished(SearchOutcome::Found(board)) => {
                self.apply_predecessor(board);
                false
            },
            SearchEvent::Finished(SearchOutcome::NotFound) => {
                self.search_not_found();
                false
            },
            SearchEvent::Finished(SearchOutcome::Error) | SearchEvent::Disconnected => {
                self.search_solver_error();
                false
            },
            SearchEvent::Waiting => {
                self.status = Status::Searching;
                false
            },
        }
    }
    /// What the front end draws, with live cells in the search colour when `highlight`.
    pub fn frame_with(&self, highlight: bool) -> (frame: Frame)
        requires
            self.display_power_on && !highlight ==> self.color_index < N_ALIVE_COLORS,
        ensures
            frame.width == W,
            frame.height == H,
            frame.cells@.len() == H * W,
            forall|i: int| 0 <= i < H * W ==> #[trigger] frame.cells@[i] == frame_cell(*self, highlight, i),
            frame.status == self.status,
            frame.live_cells == self.board.live(),
            frame.tick_interval_ms == speed_interval(self.speed_mode),
            frame.speed == self.speed_mode,
    {
        let mut cells: Vec<Option<Rgb>> = Vec::new();
        if !self.display_power_on {
            let mut i: usize = 0;
            while i < H * W
                invariant
                    !self.display_power_on,
                    i <= H * W,
                    cells@.len() == i,
                    forall|j: int| 0 <= j < i ==> #[trigger] cells@[j] == frame_cell(*self, highlight, j),
                decreases H * W - i,
            {
                cells.push(None);
                i = i + 1;
            }
        } else {
            let alive_color = if highlight {
                Rgb::new(220, 30, 30)
            } else {
                alive_color(self.color_index)
            };
            for row in 0..H
                invariant
                    self.display_power_on,
                    alive_color == (if highlight { search_color_spec() } else { alive_color_spec(
                        self.color_index as int,
                    ) }),
                    cells@.len() == row * W,
                    forall|j: int| 0 <= j < row * W ==> #[trigger] cells@[j] == frame_cell(*self, highlight, j),
            {
                for col in 0..W
                    invariant
                        row < H,
                        self.display_power_on,
                        alive_color == (if highlight { search_color_spec() } else { alive_color_spec(
                            self.color_index as int,
                        ) }),
                        cells@.len() == row * W + col,
                        forall|j: int|
                            0 <= j < row * W + col ==> #[trigger] cells@[j] == frame_cell(*self, highlight, j),
                {
                    let ghost k = row * W + col;
                    assert(k / (W as int) == row && k % (W as int) == col);
                    if self.board.cells[row][col] {
                        cells.push(Some(alive_color));
                    } else {
                        cells.push(None);
                    }
                }
                assert(row * W + W == (row + 1) * W);
            }
        }
        Frame {
            width: W,
            height: H,
            cells,
            status: self.status,
            live_cells: self.board.count_live_cells(),
            tick_interval_ms: self.speed_mode.interval_ms(),
            speed: self.speed_mode,
        }
    }

    /// What the front end draws; live cells take the search colour while a search runs.
    pub fn frame(&self) -> (frame: Frame)
        requires
            self.display_power_on && !self.is_searching ==> self.color_index < N_ALIVE_COLORS,
        ensures
            frame.width == W,
            frame.height == H,
            frame.cells@.len() == H * W,
            forall|i: int| 0 <= i < H * W ==> #[trigger] frame.cells@[i] == frame_cell(*self, self.is_searching, i),
            frame.status == self.status,
            frame.live_cells == self.board.live(),
            frame.tick_interval_ms == speed_interval(self.speed_mode),
            frame.speed == self.speed_mode,
    {
        self.frame_with(self.is_searching)
    }
}

} // verus!
