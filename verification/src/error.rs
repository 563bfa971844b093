//! Failures the engine can report. Every one is recoverable: the caller's
//! state is left unchanged.

use vstd::prelude::*;

verus! {

/// Why an operation was refused.
#[derive(Debug, Clone, Copy, PartialEq, Eq, Structural)]
pub enum GameError {
    /// No active piece stands on the origin cell of a move.
    NoPieceAtOrigin,
    /// A move was submitted that the rules refuse.
    InvalidMove,
    /// The side to move has no legal move at all.
    NoLegalMove,
    /// A saved game could not be read back: wrong version or malformed data.
    InvalidSaveData,
}

impl GameError {
    /// A short description of the failure.
    pub fn message(&self) -> (r: &'static str)
        ensures
            r@ == self.spec_message(),
    {
        match self {
            GameError::NoPieceAtOrigin => "no piece at origin",
            GameError::InvalidMove => "invalid move",
            GameError::NoLegalMove => "no legal move",
            GameError::InvalidSaveData => "invalid save data",
        }
    }

    /// The description `message` returns.
    pub open spec fn spec_message(self) -> Seq<char> {
        match self {
            GameError::NoPieceAtOrigin => "no piece at origin"@,
            GameError::InvalidMove => "invalid move"@,
            GameError::NoLegalMove => "no legal move"@,
            GameError::InvalidSaveData => "invalid save data"@,
        }
    }
}

} // verus!
