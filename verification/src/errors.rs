use vstd::prelude::*;

verus! {

/// Typed failures surfaced by game commands. Every failing command reports
/// one of these to its caller and leaves the game state unchanged.
#[derive(Clone, Copy, Debug, PartialEq, Eq, Structural)]
pub enum GameError {
    /// Team-name sanitization failed (empty or all whitespace).
    InvalidName,
    /// The referenced team does not exist.
    NotFound,
    /// The player has no team, but the operation requires one.
    NotOnTeam,
    /// The operation is illegal in the current game or quiz phase.
    WrongPhase,
    /// A team switch was attempted mid-quiz by a player already on a team.
    TeamLocked,
    /// The quiz definition source was missing or malformed.
    LoadError,
}

} // verus!
