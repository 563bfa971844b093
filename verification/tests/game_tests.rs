//! State-machine behaviour: the event-driven lifecycle, undo of paired
//! half-moves, and the failure paths.

use six_rush::ai::AiPlayer;
use six_rush::board::Board;
use six_rush::error::GameError;
use six_rush::game::Game;
use six_rush::piece::{Piece, Side};
use six_rush::rules::{check_game_end, is_valid_move};
use six_rush::state::{DialogAction, GameEvent, GameResult, GameState};

fn new_game_player_first() -> Game {
    let mut game = Game::new();
    game.handle_event(GameEvent::StartNewGame { player_first: true, ai_level: 3 })
        .unwrap();
    game
}

/// Drives one half-move through the machine: select, target, animate, check
/// capture, check end.
fn drive_player_move(game: &mut Game, piece_id: u8, from: (u8, u8), to: (u8, u8)) {
    game.handle_event(GameEvent::PlayerSelectPiece { piece_id, start_pos: from })
        .unwrap();
    assert_eq!(game.state, GameState::PieceSelected);
    game.handle_event(GameEvent::PlayerClickTarget { target_pos: to })
        .unwrap();
    assert_eq!(game.state, GameState::PieceMoving);
    game.handle_event(GameEvent::PieceMoveAnimationComplete { moved: true })
        .unwrap();
    assert_eq!(game.state, GameState::CheckingCapture);
    let has_capture = !game.last_captured.is_empty();
    game.handle_event(GameEvent::CaptureCheckComplete {
        has_capture,
        captured_piece_ids: game.last_captured.clone(),
    })
    .unwrap();
    if has_capture {
        game.handle_event(GameEvent::CaptureAnimationComplete).unwrap();
    }
    let result = game.check_game_end();
    game.handle_event(GameEvent::GameEndCheckComplete { result }).unwrap();
}

#[test]
fn full_event_sequence_reaches_ai_turn() {
    // Scenario: start, select, target, move, no capture, no result - the
    // turn passes to White, the computer's side.
    let mut game = new_game_player_first();
    assert_eq!(game.state, GameState::WaitingForPlayer);
    assert_eq!(game.player_side, Side::Black);
    assert_eq!(game.current_turn, Side::Black);

    game.handle_event(GameEvent::PlayerSelectPiece { piece_id: 5, start_pos: (0, 1) })
        .unwrap();
    assert_eq!(game.state, GameState::PieceSelected);
    game.handle_event(GameEvent::PlayerClickTarget { target_pos: (1, 1) })
        .unwrap();
    assert_eq!(game.state, GameState::PieceMoving);
    game.handle_event(GameEvent::PieceMoveAnimationComplete { moved: true })
        .unwrap();
    assert_eq!(game.state, GameState::CheckingCapture);
    assert!(game.last_captured.is_empty());
    game.handle_event(GameEvent::CaptureCheckComplete {
        has_capture: false,
        captured_piece_ids: vec![],
    })
    .unwrap();
    assert_eq!(game.state, GameState::CheckingGameEnd);
    game.handle_event(GameEvent::GameEndCheckComplete { result: None }).unwrap();
    assert_eq!(game.state, GameState::AiThinking);
    assert_eq!(game.current_turn, Side::White);
    assert_eq!(game.move_history.len(), 1);
    // the board reflects the move
    assert!(game.board.piece_at(1, 1).is_some());
    assert!(game.board.piece_at(0, 1).is_none());
}

#[test]
fn computer_leads_when_player_does_not() {
    let mut game = Game::new();
    game.handle_event(GameEvent::StartNewGame { player_first: false, ai_level: 2 })
        .unwrap();
    assert_eq!(game.state, GameState::AiThinking);
    assert_eq!(game.player_side, Side::White);
    assert_eq!(game.current_turn, Side::Black);
    assert_eq!(game.ai_level, 2);
}

#[test]
fn ai_level_is_clamped() {
    let mut game = Game::new();
    game.handle_event(GameEvent::StartNewGame { player_first: true, ai_level: 9 })
        .unwrap();
    assert_eq!(game.ai_level, 5);
    game.handle_event(GameEvent::DialogAction(DialogAction::NewGame)).ok();
    let mut game2 = Game::new();
    game2
        .handle_event(GameEvent::StartNewGame { player_first: true, ai_level: 0 })
        .unwrap();
    assert_eq!(game2.ai_level, 1);
}

#[test]
fn selecting_foreign_or_stuck_piece_is_ignored() {
    let mut game = new_game_player_first();
    // a White piece: not the player's
    game.handle_event(GameEvent::PlayerSelectPiece { piece_id: 7, start_pos: (0, 3) })
        .unwrap();
    assert_eq!(game.state, GameState::WaitingForPlayer);
    // Black (0,0) is boxed in at game start
    game.handle_event(GameEvent::PlayerSelectPiece { piece_id: 1, start_pos: (0, 0) })
        .unwrap();
    assert_eq!(game.state, GameState::WaitingForPlayer);
    assert!(game.selected_piece.is_none());
}

#[test]
fn cancel_returns_to_waiting() {
    let mut game = new_game_player_first();
    game.handle_event(GameEvent::PlayerSelectPiece { piece_id: 2, start_pos: (1, 0) })
        .unwrap();
    assert_eq!(game.state, GameState::PieceSelected);
    game.handle_event(GameEvent::PlayerCancel).unwrap();
    assert_eq!(game.state, GameState::WaitingForPlayer);
    assert!(game.selected_piece.is_none());
}

#[test]
fn illegal_pending_move_is_rejected_and_recovered() {
    let mut game = new_game_player_first();
    game.handle_event(GameEvent::PlayerSelectPiece { piece_id: 2, start_pos: (1, 0) })
        .unwrap();
    // a diagonal target: the rules refuse it when the animation lands
    game.handle_event(GameEvent::PlayerClickTarget { target_pos: (2, 1) })
        .unwrap();
    let r = game.handle_event(GameEvent::PieceMoveAnimationComplete { moved: true });
    assert_eq!(r, Err(GameError::InvalidMove));
    assert_eq!(game.state, GameState::WaitingForPlayer);
    assert!(game.pending_move.is_none());
    // the board is untouched
    assert!(game.board.piece_at(1, 0).is_some());
    assert_eq!(game.move_history.len(), 0);
}

#[test]
fn abandoned_move_returns_to_waiting() {
    let mut game = new_game_player_first();
    game.handle_event(GameEvent::PlayerSelectPiece { piece_id: 2, start_pos: (1, 0) })
        .unwrap();
    game.handle_event(GameEvent::PlayerClickTarget { target_pos: (1, 1) })
        .unwrap();
    game.handle_event(GameEvent::PieceMoveAnimationComplete { moved: false })
        .unwrap();
    assert_eq!(game.state, GameState::WaitingForPlayer);
    assert!(game.board.piece_at(1, 0).is_some());
}

#[test]
fn unmatched_events_are_ignored() {
    let mut game = new_game_player_first();
    game.handle_event(GameEvent::CaptureAnimationComplete).unwrap();
    assert_eq!(game.state, GameState::WaitingForPlayer);
    game.handle_event(GameEvent::UndoAnimationComplete).unwrap();
    assert_eq!(game.state, GameState::WaitingForPlayer);
    game.handle_event(GameEvent::AiMoveSelected { from: (0, 3), to: (1, 2) })
        .unwrap();
    assert_eq!(game.state, GameState::WaitingForPlayer);
}

#[test]
fn undo_with_two_records_pops_both_and_returns_to_player() {
    let mut game = new_game_player_first();
    // the human's half-move, then the computer's
    drive_player_move(&mut game, 2, (1, 0), (1, 1));
    assert_eq!(game.state, GameState::AiThinking);
    game.handle_event(GameEvent::AiMoveSelected { from: (1, 3), to: (1, 2) })
        .unwrap();
    game.handle_event(GameEvent::PieceMoveAnimationComplete { moved: true })
        .unwrap();
    game.handle_event(GameEvent::CaptureCheckComplete {
        has_capture: false,
        captured_piece_ids: vec![],
    })
    .unwrap();
    game.handle_event(GameEvent::GameEndCheckComplete { result: None }).unwrap();
    assert_eq!(game.state, GameState::WaitingForPlayer);
    assert_eq!(game.move_history.len(), 2);

    game.handle_event(GameEvent::StartUndo).unwrap();
    assert_eq!(game.state, GameState::UndoAnimating);
    game.handle_event(GameEvent::UndoAnimationComplete).unwrap();
    assert_eq!(game.state, GameState::WaitingForPlayer);
    assert_eq!(game.move_history.len(), 0);
    assert_eq!(game.current_turn, Side::Black);
    // the board is back in the starting position, piece by piece
    let fresh = six_rush::piece::initial_pieces();
    assert_eq!(game.board.pieces.len(), fresh.len());
    for (p, q) in game.board.pieces.iter().zip(fresh.iter()) {
        assert_eq!(p.id, q.id);
        assert_eq!(p.side, q.side);
        assert_eq!(p.position, q.position);
        assert_eq!(p.active, q.active);
    }
}

#[test]
fn undo_with_one_record_still_reaches_waiting() {
    let mut game = new_game_player_first();
    drive_player_move(&mut game, 2, (1, 0), (1, 1));
    assert_eq!(game.move_history.len(), 1);
    // force the machine back to the waiting phase to request the undo
    game.state = GameState::WaitingForPlayer;
    game.handle_event(GameEvent::StartUndo).unwrap();
    game.handle_event(GameEvent::UndoAnimationComplete).unwrap();
    assert_eq!(game.state, GameState::WaitingForPlayer);
    assert_eq!(game.move_history.len(), 0);
    assert_eq!(game.current_turn, Side::Black);
    assert!(game.board.piece_at(1, 0).is_some());
    assert!(game.board.piece_at(1, 1).is_none());
}

#[test]
fn undo_with_empty_history_is_refused_quietly() {
    let mut game = new_game_player_first();
    assert!(!game.can_undo());
    game.handle_event(GameEvent::StartUndo).unwrap();
    assert_eq!(game.state, GameState::WaitingForPlayer);
}

#[test]
fn dialog_actions() {
    let mut game = new_game_player_first();
    drive_player_move(&mut game, 2, (1, 0), (1, 1));
    // pretend the game ended
    game.state = GameState::GameOverDialog(GameResult::AiWin);
    game.last_result = Some(GameResult::AiWin);
    assert!(game.can_undo());
    game.handle_event(GameEvent::DialogAction(DialogAction::Undo)).unwrap();
    assert_eq!(game.state, GameState::UndoAnimating);
    game.handle_event(GameEvent::UndoAnimationComplete).unwrap();
    assert_eq!(game.state, GameState::WaitingForPlayer);
    assert_eq!(game.last_result, None);

    game.state = GameState::GameOverDialog(GameResult::Draw);
    game.handle_event(GameEvent::DialogAction(DialogAction::NewGame)).unwrap();
    assert_eq!(game.state, GameState::NewGame);

    game.state = GameState::GameOverDialog(GameResult::Draw);
    game.handle_event(GameEvent::DialogAction(DialogAction::Confirm)).unwrap();
    assert_eq!(game.state, GameState::WaitingForPlayer);
    assert_eq!(game.move_history.len(), 0);
    assert_eq!(game.player_side, Side::Black);
}

#[test]
fn reported_result_opens_dialog() {
    let mut game = new_game_player_first();
    game.state = GameState::CheckingGameEnd;
    game.handle_event(GameEvent::GameEndCheckComplete {
        result: Some(GameResult::PlayerWin),
    })
    .unwrap();
    assert_eq!(game.state, GameState::GameOverDialog(GameResult::PlayerWin));
    assert_eq!(game.last_result, Some(GameResult::PlayerWin));
}

#[test]
fn execute_ai_move_records_and_reports_captures() {
    let mut game = new_game_player_first();
    // make it White's turn mechanics aside: execute a White move directly
    let captured = game.execute_ai_move((1, 3), (1, 2)).unwrap();
    assert!(captured.is_empty());
    assert_eq!(game.move_history.len(), 1);
    assert_eq!(game.move_history[0].side, Side::White);
    let r = game.execute_ai_move((0, 0), (1, 1));
    assert_eq!(r, Err(GameError::InvalidMove));
}

#[test]
fn state_queries() {
    assert!(GameState::WaitingForPlayer.can_interact_with_ui());
    assert!(GameState::GameOverDialog(GameResult::Draw).can_interact_with_ui());
    assert!(!GameState::AiThinking.can_interact_with_ui());
    assert!(GameState::WaitingForPlayer.can_select_piece());
    assert!(!GameState::PieceSelected.can_select_piece());
    assert!(GameState::PieceMoving.is_animating());
    assert!(GameState::UndoAnimating.is_animating());
    assert!(!GameState::NewGame.is_animating());
    assert!(GameState::AiThinking.needs_ai_move());
    assert!(!GameState::NewGame.needs_ai_move());
    assert!(GameState::GameOverDialog(GameResult::AiWin).can_undo());
    assert!(!GameState::PieceMoving.can_undo());
}

#[test]
fn result_labels() {
    assert_eq!(GameResult::PlayerWin.display_text(), "You win");
    assert_eq!(GameResult::AiWin.display_text(), "Computer wins");
    assert_eq!(GameResult::Draw.display_text(), "Draw");
}

#[test]
fn turn_flip_detects_fresh_stalemate() {
    // After the turn passes to Black, Black's lone cornered piece cannot
    // move: the machine must declare the game over on the spot.
    let mut game = new_game_player_first();
    game.board = Board {
        pieces: vec![
            Piece::new(1, Side::Black, 0, 0),
            Piece::new(2, Side::White, 1, 0),
            Piece::new(3, Side::White, 0, 1),
            Piece::new(4, Side::White, 1, 1),
        ],
    };
    game.move_history = Vec::new();
    game.current_turn = Side::White;
    game.state = GameState::CheckingGameEnd;
    game.handle_event(GameEvent::GameEndCheckComplete { result: None }).unwrap();
    assert_eq!(game.current_turn, Side::Black);
    assert_eq!(game.state, GameState::GameOverDialog(GameResult::AiWin));
    assert_eq!(game.last_result, Some(GameResult::AiWin));
}

#[test]
fn random_tiers_play_a_whole_game_within_the_rules() {
    let mut game = new_game_player_first();
    let ai = AiPlayer::new(1);
    let mut side = Side::Black;
    for _ in 0..200 {
        if check_game_end(&game.board, side, Side::Black).is_some() {
            return;
        }
        let (from, to) = ai.select_move(&game.board, side).unwrap();
        assert!(is_valid_move(&game.board, from, to, side));
        game.board.execute_move(from, to, side).unwrap();
        side = side.opposite();
    }
}
