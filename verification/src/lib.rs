//! Core engine for a team-based trivia game played over chat.
//!
//! The crate is organised leaves-first: `team` holds the per-game team
//! registry, `quizz` the quiz-round phase machine, `game` the per-community
//! state machine that owns both, and `pool` the registry of one game per
//! community. `output` models the stream of notification requests that a
//! host process delivers to chat; `errors` holds the typed failures.

pub mod errors;
pub mod output;
pub mod team;
pub mod quizz;
pub mod game;
pub mod pool;
