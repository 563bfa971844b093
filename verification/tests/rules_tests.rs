//! Rule-engine behaviour on concrete boards: legality, captures, stalemate,
//! terminal detection, move enumeration.

use six_rush::board::Board;
use six_rush::piece::{Piece, Side};
use six_rush::rules::{
    calculate_captures, check_game_end, get_valid_moves, is_stalemated, is_valid_move,
};
use six_rush::state::GameResult;

fn piece(id: u8, side: Side, x: u8, y: u8) -> Piece {
    Piece::new(id, side, x, y)
}

fn inactive(id: u8, side: Side, x: u8, y: u8) -> Piece {
    let mut p = Piece::new(id, side, x, y);
    p.active = false;
    p
}

#[test]
fn initial_move_onto_occupied_cell_is_illegal() {
    // Scenario: from the starting layout, Black (0,1) -> (0,2) lands on a
    // White piece and must be refused.
    let board = Board::initial();
    assert!(!is_valid_move(&board, (0, 1), (0, 2), Side::Black));
}

#[test]
fn initial_simple_step_is_legal() {
    let board = Board::initial();
    assert!(is_valid_move(&board, (1, 0), (1, 1), Side::Black));
    // wrong side
    assert!(!is_valid_move(&board, (1, 0), (1, 1), Side::White));
    // diagonal
    assert!(!is_valid_move(&board, (0, 1), (1, 2), Side::Black));
    // two steps
    assert!(!is_valid_move(&board, (1, 0), (1, 2), Side::Black));
    // no piece at origin
    assert!(!is_valid_move(&board, (1, 1), (1, 2), Side::Black));
}

#[test]
fn out_of_bounds_target_is_illegal() {
    let board = Board::initial();
    assert!(!is_valid_move(&board, (0, 0), (0, 255), Side::Black));
    assert!(!is_valid_move(&board, (3, 0), (4, 0), Side::Black));
}

#[test]
fn two_vs_one_captures_lone_opponent_at_run_end() {
    // Row y=1 after the move: Black (0,1), Black (1,1), White (2,1), the
    // fourth cell empty; two extra pieces far away keep both sides above one.
    let board = Board {
        pieces: vec![
            piece(1, Side::Black, 0, 1),
            piece(2, Side::Black, 1, 0),
            piece(3, Side::White, 2, 1),
            piece(4, Side::Black, 0, 3),
            piece(5, Side::White, 3, 3),
        ],
    };
    let mut board = board;
    let record = board.execute_move((1, 0), (1, 1), Side::Black).unwrap();
    assert_eq!(record.captured.len(), 1);
    assert_eq!(record.captured[0].piece_id, 3);
    assert_eq!(record.captured[0].position, (2, 1));
    assert!(!board.piece_by_id(3).unwrap().active);
    // the mover and its partner stay
    assert!(board.piece_by_id(1).unwrap().active);
    assert!(board.piece_by_id(2).unwrap().active);
}

#[test]
fn friend_enemy_friend_never_captures() {
    // Row y=1 after the move: Black (0,1), White (1,1), Black (2,1) - the
    // opponent sits between the pair, so nothing is captured.
    let mut board = Board {
        pieces: vec![
            piece(1, Side::Black, 0, 1),
            piece(2, Side::White, 1, 1),
            piece(3, Side::Black, 2, 2),
            piece(4, Side::Black, 0, 3),
            piece(5, Side::White, 3, 3),
        ],
    };
    let record = board.execute_move((2, 2), (2, 1), Side::Black).unwrap();
    assert!(record.captured.is_empty());
    assert!(board.piece_by_id(2).unwrap().active);
}

#[test]
fn two_vs_one_needs_open_flanks_and_exactly_three() {
    // Row y=1 holds four pieces: Black, Black, White and one more White at
    // the end - more than three on the line, no capture.
    let mut board = Board {
        pieces: vec![
            piece(1, Side::Black, 0, 1),
            piece(2, Side::Black, 1, 0),
            piece(3, Side::White, 2, 1),
            piece(4, Side::White, 3, 1),
            piece(5, Side::Black, 0, 3),
        ],
    };
    let record = board.execute_move((1, 0), (1, 1), Side::Black).unwrap();
    assert!(record.captured.is_empty());
}

#[test]
fn carry_capture_takes_both_neighbours() {
    // Scenario: Black is down to one piece; moving it between two White
    // pieces captures both.
    let mut board = Board {
        pieces: vec![
            piece(1, Side::Black, 1, 0),
            piece(2, Side::White, 0, 1),
            piece(3, Side::White, 2, 1),
            piece(4, Side::White, 3, 3),
        ],
    };
    let record = board.execute_move((1, 0), (1, 1), Side::Black).unwrap();
    assert_eq!(record.captured.len(), 2);
    let mut ids: Vec<u8> = record.captured.iter().map(|c| c.piece_id).collect();
    ids.sort();
    assert_eq!(ids, vec![2, 3]);
    assert!(!board.piece_by_id(2).unwrap().active);
    assert!(!board.piece_by_id(3).unwrap().active);
}

#[test]
fn carry_fires_on_both_axes_independently() {
    // A lone Black piece surrounded by four White pieces: the carry check on
    // each axis fires on its own, right and left first, then up and down.
    let board = Board {
        pieces: vec![
            piece(1, Side::Black, 1, 1),
            piece(2, Side::White, 2, 1),
            piece(3, Side::White, 0, 1),
            piece(4, Side::White, 1, 2),
            piece(5, Side::White, 1, 0),
        ],
    };
    let captured = calculate_captures(&board, 1);
    assert_eq!(captured, vec![2, 3, 4, 5]);
}

#[test]
fn carry_needs_single_piece_mode() {
    // Same geometry, but Black has a second piece: the two-vs-one rule
    // applies instead, and this position fires on no run.
    let board = Board {
        pieces: vec![
            piece(1, Side::Black, 1, 1),
            piece(2, Side::White, 2, 1),
            piece(3, Side::White, 0, 1),
            piece(4, Side::White, 1, 2),
            piece(5, Side::White, 1, 0),
            piece(6, Side::Black, 3, 3),
        ],
    };
    let captured = calculate_captures(&board, 1);
    assert!(captured.is_empty());
}

#[test]
fn captures_for_missing_or_inactive_piece_are_empty() {
    let board = Board::initial();
    assert!(calculate_captures(&board, 99).is_empty());
    let board2 = Board {
        pieces: vec![inactive(1, Side::Black, 1, 1), piece(2, Side::White, 3, 3)],
    };
    assert!(calculate_captures(&board2, 1).is_empty());
}

#[test]
fn stalemate_detected_when_no_piece_can_step() {
    // Scenario: Black's lone piece in the corner is boxed in by three White
    // pieces; Black to move loses to the opponent.
    let board = Board {
        pieces: vec![
            piece(1, Side::Black, 0, 0),
            piece(2, Side::White, 1, 0),
            piece(3, Side::White, 0, 1),
            piece(4, Side::White, 1, 1),
        ],
    };
    assert!(is_stalemated(&board, Side::Black));
    assert!(!is_stalemated(&board, Side::White));
    // the human plays White here, so the human wins
    assert_eq!(
        check_game_end(&board, Side::Black, Side::White),
        Some(GameResult::PlayerWin)
    );
    // and if the human had played Black, the computer wins
    assert_eq!(
        check_game_end(&board, Side::Black, Side::Black),
        Some(GameResult::AiWin)
    );
}

#[test]
fn game_end_orders_its_checks() {
    // No Black piece at all: White wins regardless of stalemates.
    let board = Board {
        pieces: vec![
            inactive(1, Side::Black, 0, 0),
            piece(2, Side::White, 1, 0),
            piece(3, Side::White, 0, 1),
            piece(4, Side::White, 1, 1),
        ],
    };
    assert_eq!(
        check_game_end(&board, Side::Black, Side::White),
        Some(GameResult::PlayerWin)
    );
    // Both sides at two or fewer pieces: a draw, whoever moves.
    let board2 = Board {
        pieces: vec![
            piece(1, Side::Black, 0, 0),
            piece(2, Side::Black, 3, 3),
            piece(3, Side::White, 0, 3),
            piece(4, Side::White, 3, 0),
        ],
    };
    assert_eq!(
        check_game_end(&board2, Side::Black, Side::White),
        Some(GameResult::Draw)
    );
    // A live game: nothing to report.
    assert_eq!(check_game_end(&Board::initial(), Side::Black, Side::Black), None);
}

#[test]
fn valid_moves_of_initial_board_are_exactly_four() {
    let board = Board::initial();
    let moves = get_valid_moves(&board, Side::Black);
    assert_eq!(
        moves,
        vec![
            ((1, 0), (1, 1)),
            ((2, 0), (2, 1)),
            ((0, 1), (1, 1)),
            ((3, 1), (2, 1)),
        ]
    );
    let white_moves = get_valid_moves(&board, Side::White);
    assert_eq!(white_moves.len(), 4);
}

#[test]
fn valid_moves_agree_with_is_valid_move() {
    let board = Board::initial();
    let moves = get_valid_moves(&board, Side::Black);
    for &(from, to) in &moves {
        assert!(is_valid_move(&board, from, to, Side::Black));
    }
    // and a pair the enumeration omits is indeed illegal
    assert!(!moves.contains(&((0, 0), (0, 1))));
    assert!(!is_valid_move(&board, (0, 0), (0, 1), Side::Black));
}
