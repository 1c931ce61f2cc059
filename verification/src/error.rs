//! Error taxonomy of the core: rule violations raised by the game engine and
//! service-level failures raised by the session coordinator.
use vstd::prelude::*;

verus! {

/// Why a play was rejected by the rules engine. Rule violations are local:
/// the game state is left unchanged and only the offending player learns of
/// the failure.
#[derive(Clone, Copy, Debug, PartialEq, Eq, Structural)]
pub enum GameError {
    /// The target pile already holds ten cards.
    PileFull,
    /// The played card's color differs from the target pile's color.
    ColorMismatch,
    /// The played card's number is not the successor (arena) or predecessor
    /// (post) demanded by the target pile.
    NumberMismatch,
    /// The played card shows the same gender as the target post pile's top.
    GenderMismatch,
    /// The player's available pile is empty.
    NoAvailableCards,
    /// The player's blitz pile is empty.
    BlitzPileEmpty,
    /// The addressed post pile is empty.
    PileEmpty,
    /// The addressed pile index does not exist.
    PileIndexOutOfBounds,
    /// The card index is outside the global deck.
    CardIndexOutOfBounds,
    /// The game configuration is unusable (too many post piles, or no
    /// players).
    InvalidConfig,
    /// The play names a player slot that does not exist.
    InvalidPlayer,
}

/// Service-level failures of the session coordinator, mirroring the status
/// codes the transport reports to clients.
#[derive(Clone, Debug, PartialEq, Eq)]
pub enum ServiceError {
    /// Malformed or unacceptable request data (blank or duplicate username,
    /// undecodable play).
    InvalidArgument,
    /// No session or player slot with the given identifier.
    NotFound,
    /// The operation is not allowed in the session's current phase (not
    /// joinable, game not started, not the admin, stream already open).
    FailedPrecondition,
    /// A play was rejected by the rules engine.
    Rule(GameError),
    /// An internal fault, such as an identifier collision.
    Internal,
}

} // verus!
