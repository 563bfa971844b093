//! The game aggregate and its event-driven state machine: turn sequencing,
//! move application, capture and terminal checks, undo of paired half-moves.
//! The machine is the sole mutator of game progress; unmatched combinations
//! of phase and event are ignored.

use vstd::prelude::*;
use crate::board::{
    at_cell, by_id, has_id, lemma_execute_undo, move_captured_ids, move_captured_records,
    single_mode, spec_execute, spec_undo, wf, Board, MoveRecord,
};
use crate::error::GameError;
use crate::piece::{spec_initial_pieces, Side};
use crate::rules::{
    check_game_end, has_empty_neighbor, is_stalemated, is_valid_move, spec_game_end, stalemated,
    valid_move, winner_result,
};
use crate::state::{DialogAction, GameEvent, GameResult, GameState, PendingMove, SelectedPiece};

verus! {

/// Undoing this record on this board.
pub open spec fn undo_rec(b: Seq<crate::piece::Piece>, r: MoveRecord) -> Seq<crate::piece::Piece> {
    spec_undo(b, r.piece_id, r.from, r.captured@)
}

/// The history can be unwound: undoing its records from the newest down
/// yields a well-formed board at every step. Executed moves push records that
/// keep this, by the round-trip law.
pub open spec fn history_undoable(b: Seq<crate::piece::Piece>, h: Seq<MoveRecord>) -> bool
    decreases h.len(),
{
    h.len() == 0 || (wf(undo_rec(b, h.last())) && history_undoable(
        undo_rec(b, h.last()),
        h.drop_last(),
    ))
}

/// Difficulty levels are clamped into 1..=5.
pub open spec fn clamp_level(level: u8) -> u8 {
    if level < 1 {
        1u8
    } else if level > 5 {
        5u8
    } else {
        level
    }
}

/// The game aggregate: board, phase, sides, history, and the transient
/// hand-off values for the presentation layer.
#[derive(Debug)]
pub struct Game {
    /// The board as the rules see it.
    pub board: Board,
    /// The phase the state machine is in.
    pub state: GameState,
    /// Which side the human controls.
    pub player_side: Side,
    /// Whose turn it is.
    pub current_turn: Side,
    /// Every executed half-move, oldest first; undo pops from the back.
    pub move_history: Vec<MoveRecord>,
    /// The computer's difficulty (1..=5).
    pub ai_level: u8,
    /// The piece the human has selected, while in the selected phase.
    pub selected_piece: Option<SelectedPiece>,
    /// A move waiting for its animation, not yet applied.
    pub pending_move: Option<PendingMove>,
    /// The ids the last executed move captured, for the animation layer.
    pub last_captured: Vec<u8>,
    /// The terminal result, once the game has ended.
    pub last_result: Option<GameResult>,
}

/// Which side a pending move belongs to.
pub open spec fn pending_side(o: Game, pm: PendingMove) -> Side {
    if pm.is_ai {
        o.player_side.spec_opposite()
    } else {
        o.player_side
    }
}

/// The guard on selecting a piece: it exists, belongs to the human, is still
/// on the board, and has somewhere to go.
pub open spec fn can_select(o: Game, piece_id: u8) -> bool {
    &&& has_id(o.board@, piece_id)
    &&& by_id(o.board@, piece_id).side == o.player_side
    &&& by_id(o.board@, piece_id).active
    &&& has_empty_neighbor(
        o.board@,
        by_id(o.board@, piece_id).position.0,
        by_id(o.board@, piece_id).position.1,
    )
}

/// The state after a new game is configured: the fixed starting layout,
/// Black to move, everything transient cleared; the human's side and the
/// first phase follow from who leads.
pub open spec fn new_game_post(o: Game, n: Game, player_first: bool, ai_level: u8) -> bool {
    &&& n.board@ == spec_initial_pieces()
    &&& n.state == (if player_first {
        GameState::WaitingForPlayer
    } else {
        GameState::AiThinking
    })
    &&& n.player_side == (if player_first {
        Side::Black
    } else {
        Side::White
    })
    &&& n.current_turn == Side::Black
    &&& n.move_history@.len() == 0
    &&& n.ai_level == clamp_level(ai_level)
    &&& n.selected_piece is None
    &&& n.pending_move is None
    &&& n.last_captured@.len() == 0
    &&& n.last_result is None
}

/// The state after the human clicks a piece: stored and selected when the
/// guard holds, ignored otherwise.
pub open spec fn post_select_piece(o: Game, n: Game, piece_id: u8, start_pos: (u8, u8)) -> bool {
    if can_select(o, piece_id) {
        n == (Game {
            selected_piece: Some(SelectedPiece { piece_id, start_pos }),
            state: GameState::PieceSelected,
            ..o
        })
    } else {
        n == o
    }
}

/// The state after an undo request: the undo animation starts when any
/// history exists, otherwise the event is ignored.
pub open spec fn post_start_undo(o: Game, n: Game) -> bool {
    if o.move_history@.len() > 0 {
        n == (Game { state: GameState::UndoAnimating, ..o })
    } else {
        n == o
    }
}

/// The state after the human clicks a target cell: the move is stashed for
/// its animation and the selection cleared.
pub open spec fn post_click_target(o: Game, n: Game, target_pos: (u8, u8)) -> bool {
    match o.selected_piece {
        Some(sel) => n == (Game {
            pending_move: Some(PendingMove { from: sel.start_pos, to: target_pos, is_ai: false }),
            selected_piece: None,
            state: GameState::PieceMoving,
            ..o
        }),
        None => n == o,
    }
}

/// The state after the human cancels or clicks elsewhere: selection cleared.
pub open spec fn post_cancel_selection(o: Game, n: Game) -> bool {
    n == (Game { selected_piece: None, state: GameState::WaitingForPlayer, ..o })
}

/// The record an executed pending move pushes.
pub open spec fn record_matches(o: Game, pm: PendingMove, rec: MoveRecord) -> bool {
    &&& rec.piece_id == at_cell(o.board@, pm.from.0, pm.from.1).id
    &&& rec.from == pm.from
    &&& rec.to == pm.to
    &&& rec.captured@ == move_captured_records(o.board@, pm.from, pm.to)
    &&& rec.was_single_piece_mode == single_mode(o.board@)
    &&& rec.side == pending_side(o, pm)
}

/// The state after the move animation finishes. A legal pending move is
/// executed on the board, recorded in the history, and its captures handed to
/// the animation layer; an abandoned or illegal one leaves the board alone
/// and control with the human.
pub open spec fn post_move_animation(o: Game, n: Game, moved: bool) -> bool {
    match o.pending_move {
        None => n == o,
        Some(pm) => {
            if !moved {
                n == (Game { pending_move: None, state: GameState::WaitingForPlayer, ..o })
            } else if valid_move(o.board@, pm.from, pm.to, pending_side(o, pm)) {
                &&& n.board@ == spec_execute(o.board@, pm.from, pm.to)
                &&& n.move_history@.len() == o.move_history@.len() + 1
                &&& n.move_history@.drop_last() == o.move_history@
                &&& record_matches(o, pm, n.move_history@.last())
                &&& n.last_captured@ == move_captured_ids(o.board@, pm.from, pm.to)
                &&& n.pending_move is None
                &&& n.state == GameState::CheckingCapture
                &&& n.selected_piece == o.selected_piece
                &&& n.player_side == o.player_side
                &&& n.current_turn == o.current_turn
                &&& n.ai_level == o.ai_level
                &&& n.last_result == o.last_result
            } else {
                n == (Game { pending_move: None, state: GameState::WaitingForPlayer, ..o })
            }
        },
    }
}

/// The state after the capture check: on to the capture animation or straight
/// to the terminal check.
pub open spec fn post_capture_check(o: Game, n: Game, has_capture: bool) -> bool {
    if has_capture {
        n == (Game { state: GameState::CaptureAnimating, ..o })
    } else {
        n == (Game { state: GameState::CheckingGameEnd, ..o })
    }
}

/// The state after the terminal check. A reported result opens the dialog.
/// Otherwise the turn passes; a freshly stalemated side to move loses on the
/// spot, else play continues with whoever is due.
pub open spec fn post_game_end_check(o: Game, n: Game, result: Option<GameResult>) -> bool {
    match result {
        Some(res) => n == (Game {
            last_result: Some(res),
            state: GameState::GameOverDialog(res),
            ..o
        }),
        None => {
            let nt = o.current_turn.spec_opposite();
            if stalemated(o.board@, nt) {
                n == (Game {
                    current_turn: nt,
                    last_result: Some(winner_result(nt.spec_opposite(), o.player_side)),
                    state: GameState::GameOverDialog(winner_result(nt.spec_opposite(), o.player_side)),
                    ..o
                })
            } else {
                n == (Game {
                    current_turn: nt,
                    state: (if nt == o.player_side {
                        GameState::WaitingForPlayer
                    } else {
                        GameState::AiThinking
                    }),
                    ..o
                })
            }
        },
    }
}

/// The state after a dialog button: undo (when history exists), back to the
/// new-game phase, or an immediate restart keeping the leading side and
/// level.
pub open spec fn post_dialog(o: Game, n: Game, action: DialogAction) -> bool {
    match action {
        DialogAction::Undo => if o.move_history@.len() > 0 {
            n == (Game { state: GameState::UndoAnimating, ..o })
        } else {
            n == o
        },
        DialogAction::NewGame => n == (Game { state: GameState::NewGame, ..o }),
        DialogAction::Confirm => new_game_post(o, n, o.player_side == Side::Black, o.ai_level),
    }
}

/// The state after the computer picks its move: stashed for the animation.
pub open spec fn post_ai_selected(o: Game, n: Game, from: (u8, u8), to: (u8, u8)) -> bool {
    n == (Game {
        pending_move: Some(PendingMove { from, to, is_ai: true }),
        state: GameState::PieceMoving,
        ..o
    })
}

/// The board after a human-visible undo: up to two half-moves unwound, the
/// computer's last and the human's before it.
pub open spec fn board_after_undo(b: Seq<crate::piece::Piece>, h: Seq<MoveRecord>) -> Seq<
    crate::piece::Piece,
> {
    if h.len() == 0 {
        b
    } else if h.len() == 1 {
        undo_rec(b, h.last())
    } else {
        undo_rec(undo_rec(b, h.last()), h[h.len() - 2])
    }
}

/// The history after a human-visible undo: its last two records popped.
pub open spec fn history_after_undo(h: Seq<MoveRecord>) -> Seq<MoveRecord> {
    if h.len() <= 2 {
        Seq::empty()
    } else {
        h.take(h.len() - 2)
    }
}

/// The state after the undo animation: exactly two half-moves popped and
/// unwound (fewer when the history is shorter), control and the turn handed
/// back to the human, any stored result cleared.
pub open spec fn post_undo_complete(o: Game, n: Game) -> bool {
    &&& n.board@ == board_after_undo(o.board@, o.move_history@)
    &&& n.move_history@ == history_after_undo(o.move_history@)
    &&& n.current_turn == o.player_side
    &&& n.last_result is None
    &&& n.state == GameState::WaitingForPlayer
    &&& n.player_side == o.player_side
    &&& n.ai_level == o.ai_level
    &&& n.selected_piece == o.selected_piece
    &&& n.pending_move == o.pending_move
    &&& n.last_captured@ == o.last_captured@
}

/// The combinations of phase and event the machine reacts to; every other
/// pairing is ignored.
pub open spec fn handled(s: GameState, e: GameEvent) -> bool {
    ||| (s is NewGame && e is StartNewGame)
    ||| (s is WaitingForPlayer && (e is PlayerSelectPiece || e is StartUndo))
    ||| (s is PieceSelected && (e is PlayerClickTarget || e is PlayerClickInvalid
        || e is PlayerCancel))
    ||| (s is PieceMoving && e is PieceMoveAnimationComplete)
    ||| (s is CheckingCapture && e is CaptureCheckComplete)
    ||| (s is CaptureAnimating && e is CaptureAnimationComplete)
    ||| (s is CheckingGameEnd && e is GameEndCheckComplete)
    ||| (s is GameOverDialog && e is DialogAction)
    ||| (s is AiThinking && e is AiMoveSelected)
    ||| (s is UndoAnimating && e is UndoAnimationComplete)
}

/// A move animation finished for a pending move the rules refuse; the only
/// event the machine answers with an error.
pub open spec fn move_rejected(o: Game, e: GameEvent) -> bool {
    &&& o.state is PieceMoving
    &&& e matches GameEvent::PieceMoveAnimationComplete { moved } && moved
    &&& o.pending_move matches Some(pm) && !valid_move(
        o.board@,
        pm.from,
        pm.to,
        pending_side(o, pm),
    )
}

/// The state after the computer's move is applied directly: the board moved,
/// the record pushed, everything else in place.
pub open spec fn ai_move_applied(o: Game, n: Game, from: (u8, u8), to: (u8, u8)) -> bool {
    &&& n.board@ == spec_execute(o.board@, from, to)
    &&& n.move_history@.len() == o.move_history@.len() + 1
    &&& n.move_history@.drop_last() == o.move_history@
    &&& record_matches(o, PendingMove { from, to, is_ai: true }, n.move_history@.last())
    &&& n.last_captured@ == move_captured_ids(o.board@, from, to)
    &&& n.state == o.state
    &&& n.current_turn == o.current_turn
    &&& n.player_side == o.player_side
    &&& n.ai_level == o.ai_level
    &&& n.selected_piece == o.selected_piece
    &&& n.pending_move == o.pending_move
    &&& n.last_result == o.last_result
}

impl Game {
    /// The aggregate's invariant: a well-formed board whose move history can
    /// be unwound.
    pub open spec fn inv(self) -> bool {
        &&& wf(self.board@)
        &&& history_undoable(self.board@, self.move_history@)
    }

    /// A fresh aggregate: empty board, new-game phase, Black to move, the
    /// human on Black, middle difficulty.
    pub fn new() -> (r: Game)
        ensures
            r.inv(),
            r.board@ == Seq::<crate::piece::Piece>::empty(),
            r.state == GameState::NewGame,
            r.player_side == Side::Black,
            r.current_turn == Side::Black,
            r.move_history@.len() == 0,
            r.ai_level == 3,
            r.selected_piece is None,
            r.pending_move is None,
            r.last_captured@.len() == 0,
            r.last_result is None,
    {
        Game {
            board: Board::empty(),
            state: GameState::NewGame,
            player_side: Side::Black,
            current_turn: Side::Black,
            move_history: Vec::new(),
            ai_level: 3,
            selected_piece: None,
            pending_move: None,
            last_captured: Vec::new(),
            last_result: None,
        }
    }

    /// Resets everything for a new game.
    fn start_new_game(&mut self, player_first: bool, ai_level: u8)
        ensures
            final(self).inv(),
            new_game_post(*old(self), *final(self), player_first, ai_level),
    {
        self.board = Board::initial();
        self.player_side = if player_first {
            Side::Black
        } else {
            Side::White
        };
        self.current_turn = Side::Black;
        self.move_history = Vec::new();
        self.selected_piece = None;
        self.pending_move = None;
        self.last_captured = Vec::new();
        self.last_result = None;
        self.ai_level = if ai_level < 1 {
            1
        } else if ai_level > 5 {
            5
        } else {
            ai_level
        };
        self.state = if player_first {
            GameState::WaitingForPlayer
        } else {
            GameState::AiThinking
        };
    }

    /// Whether the piece may be picked up: the human's, active, and with at
    /// least one legal destination.
    fn can_piece_move(&self, piece_id: u8) -> (r: bool)
        requires
            self.inv(),
        ensures
            r == can_select(*self, piece_id),
    {
        let p = match self.board.piece_by_id(piece_id) {
            Some(p) => *p,
            None => {
                return false;
            },
        };
        if !(p.side == self.player_side && p.active) {
            return false;
        }
        proof {
            let i = choose|i: int| 0 <= i < self.board@.len() && self.board@[i] == p;
            assert(self.board@[i].active);
        }
        crate::rules::cell_has_empty_neighbor(&self.board, p.position.0, p.position.1)
    }

    /// Whether an undo may be performed right now: an interactive phase with
    /// at least one recorded half-move.
    pub fn can_undo(&self) -> (r: bool)
        ensures
            r == ((self.state is WaitingForPlayer || self.state is GameOverDialog)
                && self.move_history@.len() > 0),
    {
        self.state.can_undo() && self.move_history.len() > 0
    }

    /// Executes the pending move on the board and pushes its record; the move
    /// must be legal.
    fn apply_pending_move(&mut self, pm: PendingMove) -> (r: Result<(), GameError>)
        requires
            old(self).inv(),
            valid_move(
                old(self).board@,
                pm.from,
                pm.to,
                if pm.is_ai {
                    old(self).player_side.spec_opposite()
                } else {
                    old(self).player_side
                },
            ),
        ensures
            final(self).inv(),
            r.is_ok(),
            final(self).board@ == spec_execute(old(self).board@, pm.from, pm.to),
            final(self).move_history@.len() == old(self).move_history@.len() + 1,
            final(self).move_history@.drop_last() == old(self).move_history@,
            record_matches(*old(self), pm, final(self).move_history@.last()),
            final(self).last_captured@ == move_captured_ids(old(self).board@, pm.from, pm.to),
            final(self).state == old(self).state,
            final(self).player_side == old(self).player_side,
            final(self).current_turn == old(self).current_turn,
            final(self).ai_level == old(self).ai_level,
            final(self).selected_piece == old(self).selected_piece,
            final(self).pending_move == old(self).pending_move,
            final(self).last_result == old(self).last_result,
    {
        let ghost b0 = self.board@;
        let ghost h0 = self.move_history@;
        let side = if pm.is_ai {
            self.player_side.opposite()
        } else {
            self.player_side
        };
        let record = match self.board.execute_move(pm.from, pm.to, side) {
            Ok(record) => record,
            Err(_) => {
                proof {
                    assert(false);
                }
                return Err(GameError::NoPieceAtOrigin);
            },
        };
        let mut ids: Vec<u8> = Vec::new();
        let m = record.captured.len();
        let mut t: usize = 0;
        while t < m
            invariant
                m == record.captured@.len(),
                0 <= t <= m,
                ids@.len() == t,
                forall|u: int| 0 <= u < t ==> ids@[u] == record.captured@[u].piece_id,
            decreases m - t,
        {
            let cr = record.captured[t];
            ids.push(cr.piece_id);
            t = t + 1;
        }
        proof {
            assert(ids@ =~= move_captured_ids(b0, pm.from, pm.to));
        }
        self.last_captured = ids;
        proof {
            lemma_execute_undo(b0, pm.from, pm.to);
        }
        self.move_history.push(record);
        proof {
            assert(self.move_history@.drop_last() =~= h0);
            assert(undo_rec(self.board@, self.move_history@.last()) == b0);
            assert(history_undoable(self.board@, self.move_history@));
        }
        Ok(())
    }

    /// Unwinds up to two half-moves, forces the turn back to the human, and
    /// clears any stored result.
    fn perform_undo(&mut self)
        requires
            old(self).inv(),
        ensures
            final(self).inv(),
            final(self).board@ == board_after_undo(old(self).board@, old(self).move_history@),
            final(self).move_history@ == history_after_undo(old(self).move_history@),
            final(self).current_turn == old(self).player_side,
            final(self).last_result is None,
            final(self).state == old(self).state,
            final(self).player_side == old(self).player_side,
            final(self).ai_level == old(self).ai_level,
            final(self).selected_piece == old(self).selected_piece,
            final(self).pending_move == old(self).pending_move,
            final(self).last_captured@ == old(self).last_captured@,
    {
        let ghost b0 = self.board@;
        let ghost h0 = self.move_history@;
        match self.move_history.pop() {
            Some(record) => {
                proof {
                    assert(record == h0.last());
                    assert(wf(undo_rec(b0, record)));
                }
                let _ = self.board.undo_move(&record);
                self.current_turn = self.current_turn.opposite();
                let ghost b1 = self.board@;
                let ghost h1 = self.move_history@;
                proof {
                    assert(h1 =~= h0.drop_last());
                    assert(b1 == undo_rec(b0, record));
                    assert(history_undoable(b1, h1));
                }
                match self.move_history.pop() {
                    Some(record2) => {
                        proof {
                            assert(record2 == h1.last());
                            assert(h1[h1.len() - 1] == h0[h0.len() - 2]);
                            assert(wf(undo_rec(b1, record2)));
                        }
                        let _ = self.board.undo_move(&record2);
                        self.current_turn = self.current_turn.opposite();
                        proof {
                            assert(self.move_history@ =~= h1.drop_last());
                            assert(self.move_history@ =~= history_after_undo(h0));
                            assert(history_undoable(self.board@, self.move_history@));
                        }
                    },
                    None => {
                        proof {
                            assert(h0.len() == 1);
                            assert(self.move_history@ =~= history_after_undo(h0));
                        }
                    },
                }
            },
            None => {
                proof {
                    assert(self.move_history@ =~= history_after_undo(h0));
                }
            },
        }
        self.current_turn = self.player_side;
        self.last_result = None;
    }

    /// Feeds one event into the state machine. Transitions follow the
    /// per-case postconditions below; a combination of phase and event with
    /// no transition is ignored. The one failure is a finished move animation
    /// whose pending move the rules refuse: the board stays untouched, the
    /// machine returns to waiting, and the error says why.
    pub fn handle_event(&mut self, event: GameEvent) -> (r: Result<(), GameError>)
        requires
            old(self).inv(),
        ensures
            final(self).inv(),
            r.is_err() <==> move_rejected(*old(self), event),
            r matches Err(e) ==> e == GameError::InvalidMove,
            old(self).state is NewGame ==> (event matches GameEvent::StartNewGame {
                player_first,
                ai_level,
            } ==> new_game_post(*old(self), *final(self), player_first, ai_level)),
            old(self).state is WaitingForPlayer ==> (event matches GameEvent::PlayerSelectPiece {
                piece_id,
                start_pos,
            } ==> post_select_piece(*old(self), *final(self), piece_id, start_pos)),
            old(self).state is WaitingForPlayer && event is StartUndo ==> post_start_undo(
                *old(self),
                *final(self),
            ),
            old(self).state is PieceSelected ==> (event matches GameEvent::PlayerClickTarget {
                target_pos,
            } ==> post_click_target(*old(self), *final(self), target_pos)),
            old(self).state is PieceSelected && (event is PlayerClickInvalid
                || event is PlayerCancel) ==> post_cancel_selection(*old(self), *final(self)),
            old(self).state is PieceMoving ==> (event
                matches GameEvent::PieceMoveAnimationComplete { moved } ==> post_move_animation(
                *old(self),
                *final(self),
                moved,
            )),
            old(self).state is CheckingCapture ==> (event matches GameEvent::CaptureCheckComplete {
                has_capture,
                ..
            } ==> post_capture_check(*old(self), *final(self), has_capture)),
            old(self).state is CaptureAnimating && event is CaptureAnimationComplete ==> (
            *final(self)) == (Game { state: GameState::CheckingGameEnd, ..*old(self) }),
            old(self).state is CheckingGameEnd ==> (event matches GameEvent::GameEndCheckComplete {
                result,
            } ==> post_game_end_check(*old(self), *final(self), result)),
            old(self).state is GameOverDialog ==> (event matches GameEvent::DialogAction(action)
                ==> post_dialog(*old(self), *final(self), action)),
            old(self).state is AiThinking ==> (event matches GameEvent::AiMoveSelected { from, to }
                ==> post_ai_selected(*old(self), *final(self), from, to)),
            old(self).state is UndoAnimating && event is UndoAnimationComplete
                ==> post_undo_complete(*old(self), *final(self)),
            !handled(old(self).state, event) ==> (*final(self)) == (*old(self)),
    {
        match (self.state, event) {
            (GameState::NewGame, GameEvent::StartNewGame { player_first, ai_level }) => {
                self.start_new_game(player_first, ai_level);
                Ok(())
            },
            (GameState::WaitingForPlayer, GameEvent::PlayerSelectPiece { piece_id, start_pos }) => {
                if self.can_piece_move(piece_id) {
                    self.selected_piece = Some(SelectedPiece { piece_id, start_pos });
                    self.state = GameState::PieceSelected;
                }
                Ok(())
            },
            (GameState::WaitingForPlayer, GameEvent::StartUndo) => {
                if self.can_undo() {
                    self.state = GameState::UndoAnimating;
                }
                Ok(())
            },
            (GameState::PieceSelected, GameEvent::PlayerClickTarget { target_pos }) => {
                match self.selected_piece {
                    Some(sel) => {
                        self.pending_move = Some(
                            PendingMove { from: sel.start_pos, to: target_pos, is_ai: false },
                        );
                        self.selected_piece = None;
                        self.state = GameState::PieceMoving;
                    },
                    None => {},
                }
                Ok(())
            },
            (GameState::PieceSelected, GameEvent::PlayerClickInvalid)
            | (GameState::PieceSelected, GameEvent::PlayerCancel) => {
                self.selected_piece = None;
                self.state = GameState::WaitingForPlayer;
                Ok(())
            },
            (GameState::PieceMoving, GameEvent::PieceMoveAnimationComplete { moved }) => {
                match self.pending_move {
                    Some(pm) => {
                        if moved {
                            let side = if pm.is_ai {
                                self.player_side.opposite()
                            } else {
                                self.player_side
                            };
                            if is_valid_move(&self.board, pm.from, pm.to, side) {
                                let _ = self.apply_pending_move(pm);
                                self.pending_move = None;
                                self.state = GameState::CheckingCapture;
                                Ok(())
                            } else {
                                self.pending_move = None;
                                self.state = GameState::WaitingForPlayer;
                                Err(GameError::InvalidMove)
                            }
                        } else {
                            self.pending_move = None;
                            self.state = GameState::WaitingForPlayer;
                            Ok(())
                        }
                    },
                    None => Ok(()),
                }
            },
            (GameState::CheckingCapture, GameEvent::CaptureCheckComplete { has_capture, .. }) => {
                if has_capture {
                    self.state = GameState::CaptureAnimating;
                } else {
                    self.state = GameState::CheckingGameEnd;
                }
                Ok(())
            },
            (GameState::CaptureAnimating, GameEvent::CaptureAnimationComplete) => {
                self.state = GameState::CheckingGameEnd;
                Ok(())
            },
            (GameState::CheckingGameEnd, GameEvent::GameEndCheckComplete { result }) => {
                match result {
                    Some(res) => {
                        self.last_result = Some(res);
                        self.state = GameState::GameOverDialog(res);
                    },
                    None => {
                        self.current_turn = self.current_turn.opposite();
                        match self.check_stalemate_for_current_turn() {
                            Some(stalemate_result) => {
                                self.last_result = Some(stalemate_result);
                                self.state = GameState::GameOverDialog(stalemate_result);
                            },
                            None => {
                                if self.current_turn == self.player_side {
                                    self.state = GameState::WaitingForPlayer;
                                } else {
                                    self.state = GameState::AiThinking;
                                }
                            },
                        }
                    },
                }
                Ok(())
            },
            (GameState::GameOverDialog(_), GameEvent::DialogAction(action)) => {
                match action {
                    DialogAction::Undo => {
                        if self.can_undo() {
                            self.state = GameState::UndoAnimating;
                        }
                    },
                    DialogAction::NewGame => {
                        self.state = GameState::NewGame;
                    },
                    DialogAction::Confirm => {
                        let player_first = self.player_side == Side::Black;
                        let level = self.ai_level;
                        self.start_new_game(player_first, level);
                    },
                }
                Ok(())
            },
            (GameState::AiThinking, GameEvent::AiMoveSelected { from, to }) => {
                self.pending_move = Some(PendingMove { from, to, is_ai: true });
                self.state = GameState::PieceMoving;
                Ok(())
            },
            (GameState::UndoAnimating, GameEvent::UndoAnimationComplete) => {
                self.perform_undo();
                self.state = GameState::WaitingForPlayer;
                Ok(())
            },
            _ => Ok(()),
        }
    }

    /// Whether the game is over, and with which outcome for the human.
    pub fn check_game_end(&self) -> (r: Option<GameResult>)
        requires
            self.inv(),
        ensures
            r == spec_game_end(self.board@, self.current_turn, self.player_side),
    {
        check_game_end(&self.board, self.current_turn, self.player_side)
    }

    /// Whether the side whose turn it is has just been stalemated, and who
    /// wins in that case.
    pub fn check_stalemate_for_current_turn(&self) -> (r: Option<GameResult>)
        requires
            self.inv(),
        ensures
            r == (if stalemated(self.board@, self.current_turn) {
                Some(winner_result(self.current_turn.spec_opposite(), self.player_side))
            } else {
                None::<GameResult>
            }),
    {
        if is_stalemated(&self.board, self.current_turn) {
            let winner = self.current_turn.opposite();
            Some(
                if winner == self.player_side {
                    GameResult::PlayerWin
                } else {
                    GameResult::AiWin
                },
            )
        } else {
            None
        }
    }

    /// Executes the computer's move directly: legality is checked, the move
    /// applied and recorded, and the captured ids returned.
    pub fn execute_ai_move(&mut self, from: (u8, u8), to: (u8, u8)) -> (r: Result<
        Vec<u8>,
        GameError,
    >)
        requires
            old(self).inv(),
        ensures
            final(self).inv(),
            r.is_ok() <==> valid_move(
                old(self).board@,
                from,
                to,
                old(self).player_side.spec_opposite(),
            ),
            r matches Err(e) ==> e == GameError::InvalidMove && (*final(self)) == (*old(self)),
            r matches Ok(ids) ==> ids@ == move_captured_ids(old(self).board@, from, to)
                && ai_move_applied(*old(self), *final(self), from, to),
    {
        let ai_side = self.player_side.opposite();
        if !is_valid_move(&self.board, from, to, ai_side) {
            return Err(GameError::InvalidMove);
        }
        let pm = PendingMove { from, to, is_ai: true };
        match self.apply_pending_move(pm) {
            Ok(_) => {},
            Err(_) => {
                proof {
                    assert(false);
                }
            },
        }
        let n = self.last_captured.len();
        let mut ids: Vec<u8> = Vec::new();
        let mut t: usize = 0;
        while t < n
            invariant
                n == self.last_captured@.len(),
                0 <= t <= n,
                ids@ == self.last_captured@.take(t as int),
            decreases n - t,
        {
            let v = self.last_captured[t];
            ids.push(v);
            proof {
                assert(ids@ =~= self.last_captured@.take(t + 1));
            }
            t = t + 1;
        }
        proof {
            assert(self.last_captured@.take(n as int) =~= self.last_captured@);
        }
        Ok(ids)
    }
}

} // verus!
