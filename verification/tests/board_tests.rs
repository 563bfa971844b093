//! Board mechanics: queries, move execution and undo, save data, the
//! computer player's move selection, and error reporting.

use six_rush::ai::AiPlayer;
use six_rush::board::{Board, BOARD_SIZE};
use six_rush::error::GameError;
use six_rush::piece::{initial_pieces, Piece, Side};
use six_rush::rules::get_valid_moves;
use six_rush::save::{is_initial_position, load_game, save_game, SaveData, SAVE_VERSION};

fn piece(id: u8, side: Side, x: u8, y: u8) -> Piece {
    Piece::new(id, side, x, y)
}

fn boards_equal(a: &Board, b: &Board) -> bool {
    a.pieces.len() == b.pieces.len()
        && a.pieces.iter().zip(b.pieces.iter()).all(|(p, q)| {
            p.id == q.id && p.side == q.side && p.position == q.position && p.active == q.active
        })
}

#[test]
fn board_size_and_bounds() {
    assert_eq!(BOARD_SIZE, 4);
    assert!(Board::is_valid_pos(0, 0));
    assert!(Board::is_valid_pos(3, 3));
    assert!(!Board::is_valid_pos(-1, 0));
    assert!(!Board::is_valid_pos(0, 4));
}

#[test]
fn initial_layout() {
    let board = Board::initial();
    assert_eq!(board.pieces.len(), 12);
    assert_eq!(board.count_active(Side::Black), 6);
    assert_eq!(board.count_active(Side::White), 6);
    assert!(!board.is_single_piece_mode());
    assert!(is_initial_position(&board));
    let black_cells = [(0, 0), (1, 0), (2, 0), (3, 0), (0, 1), (3, 1)];
    for &(x, y) in &black_cells {
        assert_eq!(board.piece_at(x, y).unwrap().side, Side::Black);
    }
    let white_cells = [(0, 3), (1, 3), (2, 3), (3, 3), (0, 2), (3, 2)];
    for &(x, y) in &white_cells {
        assert_eq!(board.piece_at(x, y).unwrap().side, Side::White);
    }
    assert!(board.is_empty(1, 1));
    assert!(!is_initial_position(&Board::empty()));
}

#[test]
fn queries_find_pieces_by_cell_and_id() {
    let board = Board::initial();
    let p = board.piece_at(0, 1).unwrap();
    assert_eq!(p.id, 5);
    assert!(p.active);
    assert!(board.piece_at(2, 2).is_none());
    assert_eq!(board.piece_by_id(8).unwrap().position, (1, 3));
    assert!(board.piece_by_id(13).is_none());
    let black = board.active_pieces_of(Side::Black);
    assert_eq!(black.len(), 6);
    assert!(black.iter().all(|p| p.side == Side::Black && p.active));
}

#[test]
fn mutable_lookups_edit_in_place() {
    let mut board = Board::initial();
    if let Some(p) = board.piece_at_mut(1, 0) {
        p.position = (1, 1);
    }
    assert!(board.piece_at(1, 0).is_none());
    assert_eq!(board.piece_at(1, 1).unwrap().id, 2);
    if let Some(p) = board.piece_by_id_mut(2) {
        p.active = false;
    }
    assert!(board.piece_at(1, 1).is_none());
}

#[test]
fn execute_move_without_piece_fails_cleanly() {
    let mut board = Board::initial();
    let before = board.clone();
    let r = board.execute_move((1, 1), (1, 2), Side::Black);
    assert_eq!(r.err(), Some(GameError::NoPieceAtOrigin));
    assert!(boards_equal(&board, &before));
    assert_eq!(GameError::NoPieceAtOrigin.message(), "no piece at origin");
}

#[test]
fn execute_then_undo_restores_the_board_exactly() {
    // The round-trip law on a real capture: every id, position and active
    // flag comes back, the captured piece on its capture-time cell.
    let start = Board {
        pieces: vec![
            piece(1, Side::Black, 0, 1),
            piece(2, Side::Black, 1, 0),
            piece(3, Side::White, 2, 1),
            piece(4, Side::Black, 0, 3),
            piece(5, Side::White, 3, 3),
        ],
    };
    let mut board = start.clone();
    let record = board.execute_move((1, 0), (1, 1), Side::Black).unwrap();
    assert_eq!(record.piece_id, 2);
    assert_eq!(record.from, (1, 0));
    assert_eq!(record.to, (1, 1));
    assert_eq!(record.side, Side::Black);
    assert!(!record.was_single_piece_mode);
    assert!(!boards_equal(&board, &start));
    board.undo_move(&record).unwrap();
    assert!(boards_equal(&board, &start));
}

#[test]
fn undo_restores_capture_time_position() {
    let mut board = Board {
        pieces: vec![
            piece(1, Side::Black, 1, 0),
            piece(2, Side::White, 0, 1),
            piece(3, Side::White, 2, 1),
            piece(4, Side::White, 3, 3),
        ],
    };
    let record = board.execute_move((1, 0), (1, 1), Side::Black).unwrap();
    assert!(record.was_single_piece_mode);
    assert!(!board.piece_by_id(2).unwrap().active);
    board.undo_move(&record).unwrap();
    let p2 = board.piece_by_id(2).unwrap();
    assert!(p2.active);
    assert_eq!(p2.position, (0, 1));
    let p1 = board.piece_by_id(1).unwrap();
    assert_eq!(p1.position, (1, 0));
}

#[test]
fn save_data_captures_the_occupancy() {
    let board = Board::initial();
    let data = save_game(&board, Side::Black);
    assert_eq!(data.version, SAVE_VERSION);
    assert_eq!(data.player_side, Side::Black);
    assert_eq!(data.current_turn, Side::Black);
    assert_eq!(
        data.board,
        vec![1, 1, 1, 1, 1, 0, 0, 1, 2, 0, 0, 2, 2, 2, 2, 2]
    );
}

#[test]
fn load_rebuilds_the_board_with_fresh_ids() {
    let board = Board::initial();
    let data = save_game(&board, Side::White);
    let (loaded, player_side) = load_game(&data).unwrap();
    assert_eq!(player_side, Side::White);
    assert_eq!(loaded.pieces.len(), 12);
    // same occupancy, cell by cell
    for y in 0..4u8 {
        for x in 0..4u8 {
            match (board.piece_at(x, y), loaded.piece_at(x, y)) {
                (Some(a), Some(b)) => assert_eq!(a.side, b.side),
                (None, None) => {},
                _ => panic!("occupancy differs at ({}, {})", x, y),
            }
        }
    }
    // ids run sequentially in cell order
    let ids: Vec<u8> = loaded.pieces.iter().map(|p| p.id).collect();
    assert_eq!(ids, (1..=12).collect::<Vec<u8>>());
    assert!(is_initial_position(&loaded));
}

#[test]
fn load_rejects_bad_data() {
    let mut data = save_game(&Board::initial(), Side::Black);
    data.version = 2;
    assert_eq!(load_game(&data).err(), Some(GameError::InvalidSaveData));
    let mut data2 = save_game(&Board::initial(), Side::Black);
    data2.board.pop();
    assert_eq!(load_game(&data2).err(), Some(GameError::InvalidSaveData));
    assert_eq!(GameError::InvalidSaveData.message(), "invalid save data");
    let short = SaveData {
        version: SAVE_VERSION,
        board: vec![],
        current_turn: Side::Black,
        player_side: Side::Black,
    };
    assert!(load_game(&short).is_err());
}

#[test]
fn sides_and_names() {
    assert_eq!(Side::first(), Side::Black);
    assert_eq!(Side::Black.opposite(), Side::White);
    assert_eq!(Side::White.opposite(), Side::Black);
    assert_eq!(piece(3, Side::Black, 0, 0).name(), "Black3");
    assert_eq!(piece(12, Side::White, 3, 2).name(), "White12");
    assert_eq!(piece(205, Side::White, 0, 0).name(), "White205");
    let fresh = initial_pieces();
    assert_eq!(fresh.len(), 12);
    assert_eq!(fresh[0].name(), "Black1");
}

#[test]
fn select_move_with_single_option_returns_it() {
    // Exactly one legal move exists; any tier, and in particular the random
    // one, must hand back precisely that move.
    let board = Board {
        pieces: vec![piece(1, Side::Black, 0, 0), piece(2, Side::White, 1, 0)],
    };
    let moves = get_valid_moves(&board, Side::Black);
    assert_eq!(moves, vec![((0, 0), (0, 1))]);
    for level in 1..=5u8 {
        let ai = AiPlayer::new(level);
        assert_eq!(ai.select_move(&board, Side::Black).unwrap(), ((0, 0), (0, 1)));
    }
}

#[test]
fn select_move_stays_within_the_legal_moves() {
    let board = Board::initial();
    let moves = get_valid_moves(&board, Side::Black);
    for level in 1..=5u8 {
        let ai = AiPlayer::new(level);
        let m = ai.select_move(&board, Side::Black).unwrap();
        assert!(moves.contains(&m), "level {} chose {:?}", level, m);
    }
}

#[test]
fn capture_greedy_tier_prefers_the_capture() {
    // One of Black's moves captures, the others do not: tier 2 must take it.
    let board = Board {
        pieces: vec![
            piece(1, Side::Black, 0, 1),
            piece(2, Side::Black, 1, 0),
            piece(3, Side::White, 2, 1),
            piece(4, Side::Black, 0, 3),
            piece(5, Side::White, 3, 3),
        ],
    };
    let ai = AiPlayer::new(2);
    for _ in 0..8 {
        assert_eq!(ai.select_move(&board, Side::Black).unwrap(), ((1, 0), (1, 1)));
    }
}

#[test]
fn select_move_fails_only_without_legal_moves() {
    let board = Board {
        pieces: vec![
            piece(1, Side::Black, 0, 0),
            piece(2, Side::White, 1, 0),
            piece(3, Side::White, 0, 1),
            piece(4, Side::White, 1, 1),
        ],
    };
    let ai = AiPlayer::new(3);
    assert_eq!(ai.select_move(&board, Side::Black).err(), Some(GameError::NoLegalMove));
    assert_eq!(GameError::NoLegalMove.message(), "no legal move");
    assert!(ai.select_move(&board, Side::White).is_ok());
}

#[test]
fn minimax_tier_takes_a_winning_capture() {
    // Black to move in single-piece mode: stepping between the two White
    // pieces captures both and wins. The searching tiers must find it.
    let board = Board {
        pieces: vec![
            piece(1, Side::Black, 1, 0),
            piece(2, Side::White, 0, 1),
            piece(3, Side::White, 2, 1),
        ],
    };
    let ai = AiPlayer::new(3);
    assert_eq!(ai.select_move(&board, Side::Black).unwrap(), ((1, 0), (1, 1)));
}

#[test]
fn load_accepts_a_full_board() {
    let data = SaveData {
        version: SAVE_VERSION,
        board: vec![1; 16],
        current_turn: Side::Black,
        player_side: Side::Black,
    };
    let (board, _) = load_game(&data).unwrap();
    assert_eq!(board.pieces.len(), 16);
    assert_eq!(board.count_active(Side::Black), 16);
    for y in 0..4u8 {
        for x in 0..4u8 {
            assert!(board.piece_at(x, y).is_some());
        }
    }
    assert!(!is_initial_position(&board));
}

#[test]
fn searching_tiers_are_deterministic() {
    // Levels 3-5 pick the first best-scoring move, so repeated calls on the
    // same position return the same move.
    let board = Board::initial();
    for level in 3..=5u8 {
        let ai = AiPlayer::new(level);
        let first = ai.select_move(&board, Side::Black).unwrap();
        let second = ai.select_move(&board, Side::Black).unwrap();
        assert_eq!(first, second, "level {} differed between calls", level);
    }
}
