//! A 16x16 toroidal Game of Life board, its seed patterns, a SAT encoding of
//! "is a predecessor of", a search for the sparsest predecessor, and the state
//! machine that the user interfaces drive.
pub mod at_most;
pub mod board;
pub mod cnf;
pub mod conway;
pub mod counting;
pub mod keys;
pub mod life;
pub mod patterns;
pub mod search;
pub mod solver;

pub use at_most::add_atmost_k;
pub use board::{Board, H, W};
pub use life::build_life_clauses;
pub use patterns::{Pattern, PATTERNS};
pub use search::{sat_predecessor_with_progress, SearchOutcome};
pub use solver::{solve_clauses, SolveOutcome};
