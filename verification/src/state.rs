//! Game state machine vocabulary: phases, events, dialog actions, results.

use vstd::prelude::*;

verus! {

/// Terminal outcome of a game, seen from the human player.
#[derive(Debug, Clone, Copy, PartialEq, Eq, Structural)]
pub enum GameResult {
    PlayerWin,
    AiWin,
    Draw,
}

impl GameResult {
    /// A short, human-readable label for the outcome.
    pub fn display_text(&self) -> (r: &'static str)
        ensures
            r@ == self.spec_display_text(),
    {
        match self {
            GameResult::PlayerWin => "You win",
            GameResult::AiWin => "Computer wins",
            GameResult::Draw => "Draw",
        }
    }

    /// The label `display_text` returns.
    pub open spec fn spec_display_text(self) -> Seq<char> {
        match self {
            GameResult::PlayerWin => "You win"@,
            GameResult::AiWin => "Computer wins"@,
            GameResult::Draw => "Draw"@,
        }
    }
}

/// The phase the game is in; drives which events are accepted.
#[derive(Debug, Clone, Copy, PartialEq, Eq, Structural)]
pub enum GameState {
    /// Initial phase; a new game is configured from here.
    NewGame,
    /// The computer is choosing its move; no interaction.
    AiThinking,
    /// The human may select a piece or ask for an undo.
    WaitingForPlayer,
    /// A piece is selected; the human may click a target or cancel.
    PieceSelected,
    /// A move animation runs; the move is applied when it completes.
    PieceMoving,
    /// The engine checks whether the move captured anything.
    CheckingCapture,
    /// Captured pieces are animated away.
    CaptureAnimating,
    /// The engine checks for a terminal condition.
    CheckingGameEnd,
    /// The game ended with the carried result; a dialog is shown.
    GameOverDialog(GameResult),
    /// An undo animation runs; the undo is applied when it completes.
    UndoAnimating,
}

impl GameState {
    /// Whether the user interface may be operated in this phase.
    pub fn can_interact_with_ui(&self) -> (r: bool)
        ensures
            r == (self is WaitingForPlayer || self is GameOverDialog),
    {
        match self {
            GameState::WaitingForPlayer => true,
            GameState::GameOverDialog(_) => true,
            _ => false,
        }
    }

    /// Whether an undo may be requested in this phase.
    pub fn can_undo(&self) -> (r: bool)
        ensures
            r == (self is WaitingForPlayer || self is GameOverDialog),
    {
        match self {
            GameState::WaitingForPlayer => true,
            GameState::GameOverDialog(_) => true,
            _ => false,
        }
    }

    /// Whether a piece may be selected in this phase.
    pub fn can_select_piece(&self) -> (r: bool)
        ensures
            r == (self is WaitingForPlayer),
    {
        match self {
            GameState::WaitingForPlayer => true,
            _ => false,
        }
    }

    /// Whether an animation is running in this phase.
    pub fn is_animating(&self) -> (r: bool)
        ensures
            r == (self is PieceMoving || self is CaptureAnimating || self is UndoAnimating),
    {
        match self {
            GameState::PieceMoving => true,
            GameState::CaptureAnimating => true,
            GameState::UndoAnimating => true,
            _ => false,
        }
    }

    /// Whether the computer has to produce a move in this phase.
    pub fn needs_ai_move(&self) -> (r: bool)
        ensures
            r == (self is AiThinking),
    {
        match self {
            GameState::AiThinking => true,
            _ => false,
        }
    }
}

/// A button pressed in the game-over dialog.
#[derive(Debug, Clone, Copy, PartialEq, Eq, Structural)]
pub enum DialogAction {
    /// Undo the last move pair and keep playing.
    Undo,
    /// Go back to the new-game phase.
    NewGame,
    /// Close the dialog and restart with the same leading side and level.
    Confirm,
}

/// Which animation the presentation layer is asked to run.
#[derive(Debug, Clone, Copy, PartialEq, Eq, Structural)]
pub enum AnimationType {
    PieceMove,
    Capture,
    Undo,
}

/// An event fed into the state machine; unmatched combinations of phase and
/// event are ignored.
#[derive(Debug)]
pub enum GameEvent {
    /// Start a new game: who leads, and the computer's difficulty (1..=5).
    StartNewGame { player_first: bool, ai_level: u8 },
    /// The computer chose its move.
    AiMoveSelected { from: (u8, u8), to: (u8, u8) },
    /// The human clicked one of their pieces.
    PlayerSelectPiece { piece_id: u8, start_pos: (u8, u8) },
    /// The human clicked a target cell for the selected piece.
    PlayerClickTarget { target_pos: (u8, u8) },
    /// The human clicked somewhere that is not a target.
    PlayerClickInvalid,
    /// The human cancelled the selection.
    PlayerCancel,
    /// The move animation finished; `moved` says whether the piece was
    /// actually brought to its target.
    PieceMoveAnimationComplete { moved: bool },
    /// The capture check finished.
    CaptureCheckComplete { has_capture: bool, captured_piece_ids: Vec<u8> },
    /// The capture animation finished.
    CaptureAnimationComplete,
    /// The terminal-condition check finished.
    GameEndCheckComplete { result: Option<GameResult> },
    /// A game-over dialog button was pressed.
    DialogAction(DialogAction),
    /// The human asked for an undo.
    StartUndo,
    /// The undo animation finished.
    UndoAnimationComplete,
}

/// Outcome of trying to move a piece, handed to the presentation layer.
#[derive(Debug)]
pub struct MoveResult {
    /// The move was executed.
    pub moved: bool,
    /// Ids captured by the move.
    pub captured: Vec<u8>,
    /// The piece was put back where it came from.
    pub returned: bool,
}

/// The piece currently selected by the human, with its origin cell.
#[derive(Debug, Clone, Copy, PartialEq, Eq)]
pub struct SelectedPiece {
    pub piece_id: u8,
    pub start_pos: (u8, u8),
}

/// A move waiting for its animation, not yet applied to the board.
#[derive(Debug, Clone, Copy, PartialEq, Eq)]
pub struct PendingMove {
    pub from: (u8, u8),
    pub to: (u8, u8),
    pub is_ai: bool,
}

} // verus!
