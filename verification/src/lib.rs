//! A falling-block puzzle engine: the board, the pieces, the rules by which
//! they move, lock and clear rows, and the clockwork that drives them.
//!
//! The rules are written down twice. `rules` states them over a plain view
//! of a game, as a reader would; `game` carries them out, and each of its
//! functions promises to come to what the rule gives. `laws` and `rows`
//! hold what follows from the rules, proved once and for all.

pub mod board;
pub mod game;
pub mod geometry;
pub mod laws;
pub mod piece;
pub mod progress;
pub mod rows;
pub mod rules;
pub mod scene;
pub mod time;
