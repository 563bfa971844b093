//! The rules engine: move legality, capture resolution, stalemate and
//! terminal detection, legal-move enumeration. Pure functions over a board
//! snapshot; nothing here mutates.

use vstd::prelude::*;
use crate::board::{
    active_at, at_cell, by_id, cell_idx, count_active_side, has_id, id_idx, in_bounds, occupied,
    single_mode, wf, Board, lemma_cell_idx, lemma_id_idx, lemma_count_two,
};
use crate::piece::{Piece, Side};
use crate::state::GameResult;

verus! {

// ------------------------------------------------------------------
// Move legality
// ------------------------------------------------------------------

/// `to` is exactly one orthogonal step away from `from`.
pub open spec fn one_step(from: (u8, u8), to: (u8, u8)) -> bool {
    ||| (from.1 == to.1 && (from.0 + 1 == to.0 || to.0 + 1 == from.0))
    ||| (from.0 == to.0 && (from.1 + 1 == to.1 || to.1 + 1 == from.1))
}

/// A legal move: an active piece of `side` stands on `from`, `to` is an empty
/// in-bounds cell, and the step is one cell along a single grid axis.
pub open spec fn valid_move(b: Seq<Piece>, from: (u8, u8), to: (u8, u8), side: Side) -> bool {
    &&& occupied(b, from.0, from.1)
    &&& at_cell(b, from.0, from.1).side == side
    &&& in_bounds(to.0 as int, to.1 as int)
    &&& !occupied(b, to.0, to.1)
    &&& one_step(from, to)
}

/// Whether moving a piece of `side` from `from` to `to` is legal.
pub fn is_valid_move(board: &Board, from: (u8, u8), to: (u8, u8), side: Side) -> (r: bool)
    requires
        wf(board@),
    ensures
        r == valid_move(board@, from, to, side),
{
    let p = match board.piece_at(from.0, from.1) {
        Some(p) => *p,
        None => {
            return false;
        },
    };
    if p.side != side {
        return false;
    }
    if !(to.0 <= 3 && to.1 <= 3) {
        return false;
    }
    if !board.is_empty(to.0, to.1) {
        return false;
    }
    let h = from.1 == to.1 && (from.0 + 1 == to.0 || to.0 + 1 == from.0);
    let v = from.0 == to.0 && (from.1 + 1 == to.1 || to.1 + 1 == from.1);
    h || v
}

// ------------------------------------------------------------------
// Legal-move enumeration and stalemate
// ------------------------------------------------------------------

/// The cell one step from (x, y) in direction `d`, as mathematical
/// coordinates (may leave the grid). Directions are probed in the fixed
/// order up, down, right, left.
pub open spec fn step_target(x: u8, y: u8, d: int) -> (int, int) {
    if d == 0 {
        (x as int, y + 1)
    } else if d == 1 {
        (x as int, y - 1)
    } else if d == 2 {
        (x + 1, y as int)
    } else {
        (x - 1, y as int)
    }
}

/// (x, y) has at least one empty in-bounds orthogonal neighbour.
pub open spec fn has_empty_neighbor(b: Seq<Piece>, x: u8, y: u8) -> bool {
    exists|d: int|
        0 <= d < 4 && in_bounds(#[trigger] step_target(x, y, d).0, step_target(x, y, d).1)
            && !occupied(b, step_target(x, y, d).0 as u8, step_target(x, y, d).1 as u8)
}

/// The moves the piece on (x, y) can make in direction `d`: one or none.
pub open spec fn dir_move(b: Seq<Piece>, x: u8, y: u8, d: int) -> Seq<((u8, u8), (u8, u8))> {
    let t = step_target(x, y, d);
    if in_bounds(t.0, t.1) && !occupied(b, t.0 as u8, t.1 as u8) {
        seq![((x, y), (t.0 as u8, t.1 as u8))]
    } else {
        Seq::empty()
    }
}

/// All moves of the piece on (x, y), in direction order.
pub open spec fn piece_moves(b: Seq<Piece>, x: u8, y: u8) -> Seq<((u8, u8), (u8, u8))> {
    dir_move(b, x, y, 0) + dir_move(b, x, y, 1) + dir_move(b, x, y, 2) + dir_move(b, x, y, 3)
}

/// The legal moves added by the first `n` piece records.
pub open spec fn moves_upto(b: Seq<Piece>, side: Side, n: int) -> Seq<((u8, u8), (u8, u8))>
    decreases n,
{
    if n <= 0 {
        Seq::empty()
    } else {
        moves_upto(b, side, n - 1) + (if b[n - 1].active && b[n - 1].side == side {
            piece_moves(b, b[n - 1].position.0, b[n - 1].position.1)
        } else {
            Seq::empty()
        })
    }
}

/// Every legal (from, to) pair for `side`, in board-then-direction order.
pub open spec fn valid_moves(b: Seq<Piece>, side: Side) -> Seq<((u8, u8), (u8, u8))> {
    moves_upto(b, side, b.len() as int)
}

/// `side` has no active piece with an empty in-bounds orthogonal neighbour,
/// hence no legal move at all.
pub open spec fn stalemated(b: Seq<Piece>, side: Side) -> bool {
    forall|i: int|
        0 <= i < b.len() && #[trigger] b[i].active && b[i].side == side ==> !has_empty_neighbor(
            b,
            b[i].position.0,
            b[i].position.1,
        )
}

/// Whether the piece on the in-bounds cell (x, y) can step anywhere.
pub(crate) fn cell_has_empty_neighbor(board: &Board, x: u8, y: u8) -> (r: bool)
    requires
        in_bounds(x as int, y as int),
    ensures
        r == has_empty_neighbor(board@, x, y),
{
    if y + 1 <= 3 && board.is_empty(x, y + 1) {
        proof {
            let t = step_target(x, y, 0);
            assert(t == (x as int, y + 1));
            assert(in_bounds(t.0, t.1) && !occupied(board@, t.0 as u8, t.1 as u8));
        }
        return true;
    }
    if y >= 1 && board.is_empty(x, y - 1) {
        proof {
            let t = step_target(x, y, 1);
            assert(t == (x as int, y - 1));
            assert(in_bounds(t.0, t.1) && !occupied(board@, t.0 as u8, t.1 as u8));
        }
        return true;
    }
    if x + 1 <= 3 && board.is_empty(x + 1, y) {
        proof {
            let t = step_target(x, y, 2);
            assert(t == (x + 1, y as int));
            assert(in_bounds(t.0, t.1) && !occupied(board@, t.0 as u8, t.1 as u8));
        }
        return true;
    }
    if x >= 1 && board.is_empty(x - 1, y) {
        proof {
            let t = step_target(x, y, 3);
            assert(t == (x - 1, y as int));
            assert(in_bounds(t.0, t.1) && !occupied(board@, t.0 as u8, t.1 as u8));
        }
        return true;
    }
    proof {
        assert forall|d: int| 0 <= d < 4 implies !(in_bounds(
            #[trigger] step_target(x, y, d).0,
            step_target(x, y, d).1,
        ) && !occupied(board@, step_target(x, y, d).0 as u8, step_target(x, y, d).1 as u8)) by {
            if d == 0 {
                assert(step_target(x, y, 0) == (x as int, y + 1));
            } else if d == 1 {
                assert(step_target(x, y, 1) == (x as int, y - 1));
            } else if d == 2 {
                assert(step_target(x, y, 2) == (x + 1, y as int));
            } else {
                assert(step_target(x, y, 3) == (x - 1, y as int));
            }
        }
    }
    false
}

/// Whether `side` is stalemated: none of its active pieces has an empty
/// in-bounds orthogonal neighbour.
pub fn is_stalemated(board: &Board, side: Side) -> (r: bool)
    requires
        wf(board@),
    ensures
        r == stalemated(board@, side),
{
    let n = board.pieces.len();
    let mut i: usize = 0;
    while i < n
        invariant
            wf(board@),
            n == board@.len(),
            0 <= i <= n,
            forall|k: int|
                0 <= k < i && #[trigger] board@[k].active && board@[k].side == side
                    ==> !has_empty_neighbor(board@, board@[k].position.0, board@[k].position.1),
        decreases n - i,
    {
        let p = board.pieces[i];
        if p.active && p.side == side {
            if cell_has_empty_neighbor(board, p.position.0, p.position.1) {
                return false;
            }
        }
        i = i + 1;
    }
    true
}

/// Every legal (from, to) pair for `side`: one orthogonal step from an active
/// piece of `side` onto an empty, in-bounds cell. The order is deterministic:
/// pieces in board order, directions up, down, right, left.
#[verifier::rlimit(50)]
pub fn get_valid_moves(board: &Board, side: Side) -> (r: Vec<((u8, u8), (u8, u8))>)
    requires
        wf(board@),
    ensures
        r@ == valid_moves(board@, side),
{
    let n = board.pieces.len();
    let mut r: Vec<((u8, u8), (u8, u8))> = Vec::new();
    let mut i: usize = 0;
    while i < n
        invariant
            wf(board@),
            n == board@.len(),
            0 <= i <= n,
            r@ == moves_upto(board@, side, i as int),
        decreases n - i,
    {
        let p = board.pieces[i];
        if p.active && p.side == side {
            let x = p.position.0;
            let y = p.position.1;
            if y + 1 <= 3 && board.is_empty(x, y + 1) {
                r.push(((x, y), (x, y + 1)));
            }
            if y >= 1 && board.is_empty(x, y - 1) {
                r.push(((x, y), (x, y - 1)));
            }
            if x + 1 <= 3 && board.is_empty(x + 1, y) {
                r.push(((x, y), (x + 1, y)));
            }
            if x >= 1 && board.is_empty(x - 1, y) {
                r.push(((x, y), (x - 1, y)));
            }
            proof {
                assert(step_target(x, y, 0) == (x as int, y + 1));
                assert(step_target(x, y, 1) == (x as int, y - 1));
                assert(step_target(x, y, 2) == (x + 1, y as int));
                assert(step_target(x, y, 3) == (x - 1, y as int));
                assert(r@ =~= moves_upto(board@, side, i as int) + piece_moves(board@, x, y));
                assert(r@ =~= moves_upto(board@, side, i + 1));
            }
        } else {
            proof {
                assert(r@ =~= moves_upto(board@, side, i + 1));
            }
        }
        i = i + 1;
    }
    r
}

// ------------------------------------------------------------------
// Terminal detection
// ------------------------------------------------------------------

/// The terminal result when `winner` has won, mapped onto the human player.
pub open spec fn winner_result(winner: Side, player_side: Side) -> GameResult {
    if winner == player_side {
        GameResult::PlayerWin
    } else {
        GameResult::AiWin
    }
}

/// Terminal condition, evaluated in order: a side with no pieces loses; both
/// sides down to two or fewer pieces is a draw; the side to move being
/// stalemated loses; otherwise the game goes on.
pub open spec fn spec_game_end(b: Seq<Piece>, side_to_move: Side, player_side: Side) -> Option<
    GameResult,
> {
    if count_active_side(b, Side::Black) == 0 {
        Some(winner_result(Side::White, player_side))
    } else if count_active_side(b, Side::White) == 0 {
        Some(winner_result(Side::Black, player_side))
    } else if count_active_side(b, Side::Black) <= 2 && count_active_side(b, Side::White) <= 2 {
        Some(GameResult::Draw)
    } else if stalemated(b, side_to_move) {
        Some(winner_result(side_to_move.spec_opposite(), player_side))
    } else {
        None
    }
}

/// Whether the game is over, and with which outcome for the human player.
pub fn check_game_end(board: &Board, side_to_move: Side, player_side: Side) -> (r: Option<
    GameResult,
>)
    requires
        wf(board@),
    ensures
        r == spec_game_end(board@, side_to_move, player_side),
{
    let black_count = board.count_active(Side::Black);
    let white_count = board.count_active(Side::White);
    if black_count == 0 {
        return Some(
            if player_side == Side::White {
                GameResult::PlayerWin
            } else {
                GameResult::AiWin
            },
        );
    }
    if white_count == 0 {
        return Some(
            if player_side == Side::Black {
                GameResult::PlayerWin
            } else {
                GameResult::AiWin
            },
        );
    }
    if black_count <= 2 && white_count <= 2 {
        return Some(GameResult::Draw);
    }
    if is_stalemated(board, side_to_move) {
        let winner = side_to_move.opposite();
        return Some(
            if winner == player_side {
                GameResult::PlayerWin
            } else {
                GameResult::AiWin
            },
        );
    }
    None
}

// ------------------------------------------------------------------
// Capture resolution
// ------------------------------------------------------------------

/// Cell `c` of the line through (x, y): cell (c, y) of the row when
/// `horizontal`, cell (x, c) of the column otherwise.
pub open spec fn line_cell(x: u8, y: u8, horizontal: bool, c: int) -> (u8, u8) {
    if horizontal {
        (c as u8, y)
    } else {
        (x, c as u8)
    }
}

/// Cell `c` of the line is occupied.
pub open spec fn line_occ(b: Seq<Piece>, x: u8, y: u8, horizontal: bool, c: int) -> bool {
    occupied(b, line_cell(x, y, horizontal, c).0, line_cell(x, y, horizontal, c).1)
}

/// The occupant of cell `c` of the line.
pub open spec fn line_piece(b: Seq<Piece>, x: u8, y: u8, horizontal: bool, c: int) -> Piece {
    at_cell(b, line_cell(x, y, horizontal, c).0, line_cell(x, y, horizontal, c).1)
}

/// Cell `c` of the line holds a piece of the mover's side.
pub open spec fn line_own(b: Seq<Piece>, x: u8, y: u8, side: Side, horizontal: bool, c: int) -> bool {
    line_occ(b, x, y, horizontal, c) && line_piece(b, x, y, horizontal, c).side == side
}

/// Cell `c` of the line holds an opposing piece.
pub open spec fn line_enemy(b: Seq<Piece>, x: u8, y: u8, side: Side, horizontal: bool, c: int) -> bool {
    line_occ(b, x, y, horizontal, c) && line_piece(b, x, y, horizontal, c).side != side
}

/// A two-vs-one capture fires on the run of cells c0..=c0+2 of the line
/// (c0 is 0 or 1): those three cells are occupied, the line's remaining cell
/// is empty (so the run is contiguous, exactly three pieces lie on the line,
/// and each flank of the run is off-board or empty), and the occupants split
/// two of the mover's side against one opponent at an end of the run. The
/// mover stands on the line, so it is always one of the two same-side pieces;
/// an opponent between two same-side pieces never fires.
pub open spec fn run_fires(
    b: Seq<Piece>,
    x: u8,
    y: u8,
    side: Side,
    horizontal: bool,
    c0: int,
) -> bool {
    &&& line_occ(b, x, y, horizontal, c0)
    &&& line_occ(b, x, y, horizontal, c0 + 1)
    &&& line_occ(b, x, y, horizontal, c0 + 2)
    &&& !line_occ(b, x, y, horizontal, if c0 == 0 { 3 } else { 0 })
    &&& {
        ||| (line_enemy(b, x, y, side, horizontal, c0) && line_own(b, x, y, side, horizontal, c0 + 1)
            && line_own(b, x, y, side, horizontal, c0 + 2))
        ||| (line_own(b, x, y, side, horizontal, c0) && line_own(b, x, y, side, horizontal, c0 + 1)
            && line_enemy(b, x, y, side, horizontal, c0 + 2))
    }
}

/// The id the firing run captures: the lone opposing piece at one end.
pub open spec fn run_victim(b: Seq<Piece>, x: u8, y: u8, side: Side, horizontal: bool, c0: int) -> u8 {
    if line_enemy(b, x, y, side, horizontal, c0) {
        line_piece(b, x, y, horizontal, c0).id
    } else {
        line_piece(b, x, y, horizontal, c0 + 2).id
    }
}

/// Ids captured by the two-vs-one rule on one axis through (x, y): at most
/// one. The two possible runs exclude each other, since each requires the
/// other's first cell to be empty.
pub open spec fn two_vs_one_captures(
    b: Seq<Piece>,
    x: u8,
    y: u8,
    side: Side,
    horizontal: bool,
) -> Seq<u8> {
    if run_fires(b, x, y, side, horizontal, 0) {
        seq![run_victim(b, x, y, side, horizontal, 0)]
    } else if run_fires(b, x, y, side, horizontal, 1) {
        seq![run_victim(b, x, y, side, horizontal, 1)]
    } else {
        Seq::empty()
    }
}

/// The neighbour of (x, y) one step up the axis (right, or up), as
/// mathematical coordinates.
pub open spec fn axis_plus(x: u8, y: u8, horizontal: bool) -> (int, int) {
    if horizontal {
        (x + 1, y as int)
    } else {
        (x as int, y + 1)
    }
}

/// The neighbour of (x, y) one step down the axis (left, or down).
pub open spec fn axis_minus(x: u8, y: u8, horizontal: bool) -> (int, int) {
    if horizontal {
        (x - 1, y as int)
    } else {
        (x as int, y - 1)
    }
}

/// A single-piece carry capture fires on this axis: both immediate
/// neighbours of (x, y) along it are on the board and hold active opposing
/// pieces.
pub open spec fn carry_fires(b: Seq<Piece>, x: u8, y: u8, side: Side, horizontal: bool) -> bool {
    let np = axis_plus(x, y, horizontal);
    let nm = axis_minus(x, y, horizontal);
    &&& in_bounds(np.0, np.1)
    &&& in_bounds(nm.0, nm.1)
    &&& occupied(b, np.0 as u8, np.1 as u8)
    &&& occupied(b, nm.0 as u8, nm.1 as u8)
    &&& at_cell(b, np.0 as u8, np.1 as u8).side != side
    &&& at_cell(b, nm.0 as u8, nm.1 as u8).side != side
}

/// Ids captured by the carry rule on one axis: both neighbours, or none.
pub open spec fn carry_captures(b: Seq<Piece>, x: u8, y: u8, side: Side, horizontal: bool) -> Seq<
    u8,
> {
    let np = axis_plus(x, y, horizontal);
    let nm = axis_minus(x, y, horizontal);
    if carry_fires(b, x, y, side, horizontal) {
        seq![at_cell(b, np.0 as u8, np.1 as u8).id, at_cell(b, nm.0 as u8, nm.1 as u8).id]
    } else {
        Seq::empty()
    }
}

/// The ids captured by the piece with id `moved_id` standing on its new cell,
/// resolved against the board as it stands after the move: in single-piece
/// mode the carry rule on both axes, otherwise the two-vs-one rule on both
/// axes, horizontal first.
pub open spec fn captured_ids(b: Seq<Piece>, moved_id: u8) -> Seq<u8> {
    if !(has_id(b, moved_id) && by_id(b, moved_id).active) {
        Seq::empty()
    } else {
        let p = by_id(b, moved_id);
        if single_mode(b) {
            carry_captures(b, p.position.0, p.position.1, p.side, true) + carry_captures(
                b,
                p.position.0,
                p.position.1,
                p.side,
                false,
            )
        } else {
            two_vs_one_captures(b, p.position.0, p.position.1, p.side, true)
                + two_vs_one_captures(b, p.position.0, p.position.1, p.side, false)
        }
    }
}

/// Carry check on one axis: pushes both neighbours when the rule fires.
fn check_single_piece_capture(
    board: &Board,
    x: u8,
    y: u8,
    side: Side,
    horizontal: bool,
    captured: &mut Vec<u8>,
)
    requires
        wf(board@),
        in_bounds(x as int, y as int),
    ensures
        final(captured)@ == old(captured)@ + carry_captures(board@, x, y, side, horizontal),
{
    let b = board;
    let both_in = if horizontal {
        x >= 1 && x + 1 <= 3
    } else {
        y >= 1 && y + 1 <= 3
    };
    if !both_in {
        proof {
            assert(!carry_fires(b@, x, y, side, horizontal));
            assert(final(captured)@ =~= old(captured)@ + carry_captures(
                b@,
                x,
                y,
                side,
                horizontal,
            ));
        }
        return;
    }
    let px = if horizontal { x + 1 } else { x };
    let py = if horizontal { y } else { y + 1 };
    let mx = if horizontal { x - 1 } else { x };
    let my = if horizontal { y } else { y - 1 };
    proof {
        assert(axis_plus(x, y, horizontal) == (px as int, py as int));
        assert(axis_minus(x, y, horizontal) == (mx as int, my as int));
    }
    let p1 = match b.piece_at(px, py) {
        Some(p) => *p,
        None => {
            proof {
                assert(!carry_fires(b@, x, y, side, horizontal));
                assert(final(captured)@ =~= old(captured)@ + carry_captures(
                    b@,
                    x,
                    y,
                    side,
                    horizontal,
                ));
            }
            return;
        },
    };
    let p2 = match b.piece_at(mx, my) {
        Some(p) => *p,
        None => {
            proof {
                assert(!carry_fires(b@, x, y, side, horizontal));
                assert(final(captured)@ =~= old(captured)@ + carry_captures(
                    b@,
                    x,
                    y,
                    side,
                    horizontal,
                ));
            }
            return;
        },
    };
    if p1.side != side && p2.side != side && p1.active && p2.active {
        captured.push(p1.id);
        captured.push(p2.id);
        proof {
            assert(carry_fires(b@, x, y, side, horizontal));
            assert(final(captured)@ =~= old(captured)@ + carry_captures(
                b@,
                x,
                y,
                side,
                horizontal,
            ));
        }
    } else {
        proof {
            assert(!carry_fires(b@, x, y, side, horizontal));
            assert(final(captured)@ =~= old(captured)@ + carry_captures(
                b@,
                x,
                y,
                side,
                horizontal,
            ));
        }
    }
}

/// Two-vs-one check on one axis: pushes the lone opposing piece of the one
/// firing run, if any.
fn check_two_vs_one(
    board: &Board,
    x: u8,
    y: u8,
    side: Side,
    horizontal: bool,
    captured: &mut Vec<u8>,
)
    requires
        wf(board@),
        in_bounds(x as int, y as int),
    ensures
        final(captured)@ == old(captured)@ + two_vs_one_captures(board@, x, y, side, horizontal),
{
    let b = board;
    let q0 = cell_piece_copy(b, x, y, horizontal, 0);
    let q1 = cell_piece_copy(b, x, y, horizontal, 1);
    let q2 = cell_piece_copy(b, x, y, horizontal, 2);
    let q3 = cell_piece_copy(b, x, y, horizontal, 3);
    match (q0, q1, q2, q3) {
        (Some(a), Some(m), Some(c), None) => {
            if a.side != side && m.side == side && c.side == side {
                captured.push(a.id);
                proof {
                    assert(run_fires(b@, x, y, side, horizontal, 0));
                    assert(final(captured)@ =~= old(captured)@ + two_vs_one_captures(
                        b@,
                        x,
                        y,
                        side,
                        horizontal,
                    ));
                }
            } else if a.side == side && m.side == side && c.side != side {
                captured.push(c.id);
                proof {
                    assert(run_fires(b@, x, y, side, horizontal, 0));
                    assert(final(captured)@ =~= old(captured)@ + two_vs_one_captures(
                        b@,
                        x,
                        y,
                        side,
                        horizontal,
                    ));
                }
            } else {
                proof {
                    assert(!run_fires(b@, x, y, side, horizontal, 0));
                    assert(!run_fires(b@, x, y, side, horizontal, 1));
                    assert(final(captured)@ =~= old(captured)@ + two_vs_one_captures(
                        b@,
                        x,
                        y,
                        side,
                        horizontal,
                    ));
                }
            }
        },
        (None, Some(a), Some(m), Some(c)) => {
            if a.side != side && m.side == side && c.side == side {
                captured.push(a.id);
                proof {
                    assert(run_fires(b@, x, y, side, horizontal, 1));
                    assert(final(captured)@ =~= old(captured)@ + two_vs_one_captures(
                        b@,
                        x,
                        y,
                        side,
                        horizontal,
                    ));
                }
            } else if a.side == side && m.side == side && c.side != side {
                captured.push(c.id);
                proof {
                    assert(run_fires(b@, x, y, side, horizontal, 1));
                    assert(final(captured)@ =~= old(captured)@ + two_vs_one_captures(
                        b@,
                        x,
                        y,
                        side,
                        horizontal,
                    ));
                }
            } else {
                proof {
                    assert(!run_fires(b@, x, y, side, horizontal, 0));
                    assert(!run_fires(b@, x, y, side, horizontal, 1));
                    assert(final(captured)@ =~= old(captured)@ + two_vs_one_captures(
                        b@,
                        x,
                        y,
                        side,
                        horizontal,
                    ));
                }
            }
        },
        _ => {
            proof {
                assert(!run_fires(b@, x, y, side, horizontal, 0));
                assert(!run_fires(b@, x, y, side, horizontal, 1));
                assert(final(captured)@ =~= old(captured)@ + two_vs_one_captures(
                    b@,
                    x,
                    y,
                    side,
                    horizontal,
                ));
            }
        },
    }
}

/// The occupant of cell `c` of the line through (x, y), by value.
fn cell_piece_copy(board: &Board, x: u8, y: u8, horizontal: bool, c: u8) -> (r: Option<Piece>)
    requires
        wf(board@),
        in_bounds(x as int, y as int),
        c <= 3,
    ensures
        r.is_some() <==> line_occ(board@, x, y, horizontal, c as int),
        r matches Some(p) ==> p == line_piece(board@, x, y, horizontal, c as int),
{
    let cx = if horizontal { c } else { x };
    let cy = if horizontal { y } else { c };
    proof {
        assert(line_cell(x, y, horizontal, c as int) == (cx, cy));
    }
    match board.piece_at(cx, cy) {
        Some(p) => Some(*p),
        None => None,
    }
}

/// The ids captured by the piece `moved_piece_id` on the board as it stands
/// (the move already applied): the carry rule in single-piece mode, the
/// two-vs-one rule otherwise, each checked on both axes, horizontal first.
/// Does not mutate the board.
pub fn calculate_captures(board: &Board, moved_piece_id: u8) -> (r: Vec<u8>)
    requires
        wf(board@),
    ensures
        r@ == captured_ids(board@, moved_piece_id),
{
    let p = match board.piece_by_id(moved_piece_id) {
        Some(p) => *p,
        None => {
            let r: Vec<u8> = Vec::new();
            proof {
                assert(r@ =~= captured_ids(board@, moved_piece_id));
            }
            return r;
        },
    };
    if !p.active {
        let r: Vec<u8> = Vec::new();
        proof {
            assert(r@ =~= captured_ids(board@, moved_piece_id));
        }
        return r;
    }
    let x = p.position.0;
    let y = p.position.1;
    let side = p.side;
    proof {
        let i = choose|i: int| 0 <= i < board@.len() && board@[i] == p;
        assert(board@[i].active);
        assert(in_bounds(x as int, y as int));
    }
    let mut captured: Vec<u8> = Vec::new();
    if board.is_single_piece_mode() {
        check_single_piece_capture(board, x, y, side, true, &mut captured);
        check_single_piece_capture(board, x, y, side, false, &mut captured);
        proof {
            assert(captured@ =~= captured_ids(board@, moved_piece_id));
        }
    } else {
        check_two_vs_one(board, x, y, side, true, &mut captured);
        check_two_vs_one(board, x, y, side, false, &mut captured);
        proof {
            assert(captured@ =~= captured_ids(board@, moved_piece_id));
        }
    }
    captured
}

// ------------------------------------------------------------------
// Facts about captured ids
// ------------------------------------------------------------------

/// What holds of every id that a capture resolution reports: it names an
/// active piece of the opposing side, standing somewhere else than the mover.
pub open spec fn victim_ok(b: Seq<Piece>, m: u8, cid: u8) -> bool {
    &&& has_id(b, cid)
    &&& by_id(b, cid).id == cid
    &&& by_id(b, cid).active
    &&& by_id(b, cid).side != by_id(b, m).side
    &&& by_id(b, cid).position != by_id(b, m).position
    &&& cid != m
}

/// The occupant of a cell opposing the mover is a proper victim.
proof fn lemma_victim_at_cell(b: Seq<Piece>, m: u8, cx: u8, cy: u8)
    requires
        wf(b),
        has_id(b, m),
        by_id(b, m).active,
        occupied(b, cx, cy),
        at_cell(b, cx, cy).side != by_id(b, m).side,
    ensures
        victim_ok(b, m, at_cell(b, cx, cy).id),
        by_id(b, at_cell(b, cx, cy).id) == at_cell(b, cx, cy),
        at_cell(b, cx, cy).position == (cx, cy),
{
    let ip = id_idx(b, m);
    assert(0 <= ip < b.len() && b[ip].id == m);
    let iv = cell_idx(b, cx, cy);
    assert(active_at(b, iv, cx, cy));
    lemma_id_idx(b, b[iv].id, iv);
    if b[iv].position == b[ip].position {
        assert(iv == ip);
        assert(false);
    }
    if b[iv].id == m {
        assert(iv == ip);
        assert(false);
    }
}

/// The occupants of two different cells carry different ids.
proof fn lemma_victims_distinct(b: Seq<Piece>, cx1: u8, cy1: u8, cx2: u8, cy2: u8)
    requires
        wf(b),
        occupied(b, cx1, cy1),
        occupied(b, cx2, cy2),
        !(cx1 == cx2 && cy1 == cy2),
    ensures
        at_cell(b, cx1, cy1).id != at_cell(b, cx2, cy2).id,
{
    let i1 = cell_idx(b, cx1, cy1);
    let i2 = cell_idx(b, cx2, cy2);
    assert(active_at(b, i1, cx1, cy1));
    assert(active_at(b, i2, cx2, cy2));
    assert(i1 != i2);
}

/// Every id reported by `captured_ids` names an active opposing piece that is
/// not the mover, and the reported ids are pairwise distinct.
pub proof fn lemma_captured_ids_facts(b: Seq<Piece>, m: u8)
    requires
        wf(b),
        has_id(b, m),
        by_id(b, m).active,
    ensures
        forall|k: int|
            0 <= k < captured_ids(b, m).len() ==> victim_ok(b, m, #[trigger] captured_ids(b, m)[k])
                && by_id(b, captured_ids(b, m)[k]).position != by_id(b, m).position,
        forall|k1: int, k2: int|
            0 <= k1 < k2 < captured_ids(b, m).len() ==> captured_ids(b, m)[k1] != captured_ids(
                b,
                m,
            )[k2],
{
    let ids = captured_ids(b, m);
    let p = by_id(b, m);
    let x = p.position.0;
    let y = p.position.1;
    let side = p.side;
    let ip = id_idx(b, m);
    assert(active_at(b, ip, x, y));
    lemma_cell_idx(b, x, y, ip);
    if single_mode(b) {
        let hp = axis_plus(x, y, true);
        let hm = axis_minus(x, y, true);
        let vp = axis_plus(x, y, false);
        let vm = axis_minus(x, y, false);
        let ch = carry_captures(b, x, y, side, true);
        let cv = carry_captures(b, x, y, side, false);
        assert(ids == ch + cv);
        if carry_fires(b, x, y, side, true) {
            lemma_victim_at_cell(b, m, hp.0 as u8, hp.1 as u8);
            lemma_victim_at_cell(b, m, hm.0 as u8, hm.1 as u8);
            lemma_victims_distinct(b, hp.0 as u8, hp.1 as u8, hm.0 as u8, hm.1 as u8);
        }
        if carry_fires(b, x, y, side, false) {
            lemma_victim_at_cell(b, m, vp.0 as u8, vp.1 as u8);
            lemma_victim_at_cell(b, m, vm.0 as u8, vm.1 as u8);
            lemma_victims_distinct(b, vp.0 as u8, vp.1 as u8, vm.0 as u8, vm.1 as u8);
        }
        if carry_fires(b, x, y, side, true) && carry_fires(b, x, y, side, false) {
            lemma_victims_distinct(b, hp.0 as u8, hp.1 as u8, vp.0 as u8, vp.1 as u8);
            lemma_victims_distinct(b, hp.0 as u8, hp.1 as u8, vm.0 as u8, vm.1 as u8);
            lemma_victims_distinct(b, hm.0 as u8, hm.1 as u8, vp.0 as u8, vp.1 as u8);
            lemma_victims_distinct(b, hm.0 as u8, hm.1 as u8, vm.0 as u8, vm.1 as u8);
        }
    } else {
        let th = two_vs_one_captures(b, x, y, side, true);
        let tv = two_vs_one_captures(b, x, y, side, false);
        assert(ids == th + tv);
        if th.len() > 0 {
            lemma_run_victim_cell(b, m, true);
        }
        if tv.len() > 0 {
            lemma_run_victim_cell(b, m, false);
        }
        if th.len() > 0 && tv.len() > 0 {
            let c1 = victim_cell(b, x, y, side, true);
            let c2 = victim_cell(b, x, y, side, false);
            assert(c1.1 == y && c2.0 == x);
            if c1 == c2 {
                assert(c1 == (x, y));
                assert(at_cell(b, x, y).side != side);
                assert(false);
            }
            lemma_victims_distinct(b, c1.0, c1.1, c2.0, c2.1);
        }
    }
}

/// The cell of the lone opposing piece that the firing run on this axis
/// captures; meaningful only when one fires.
pub open spec fn victim_cell(b: Seq<Piece>, x: u8, y: u8, side: Side, horizontal: bool) -> (
    u8,
    u8,
) {
    if run_fires(b, x, y, side, horizontal, 0) {
        if line_enemy(b, x, y, side, horizontal, 0) {
            line_cell(x, y, horizontal, 0)
        } else {
            line_cell(x, y, horizontal, 2)
        }
    } else {
        if line_enemy(b, x, y, side, horizontal, 1) {
            line_cell(x, y, horizontal, 1)
        } else {
            line_cell(x, y, horizontal, 3)
        }
    }
}

/// When the two-vs-one rule fires on an axis, its reported id is the occupant
/// of `victim_cell`, an opposing piece; and the mover's own cell is not it.
proof fn lemma_run_victim_cell(b: Seq<Piece>, m: u8, horizontal: bool)
    requires
        wf(b),
        has_id(b, m),
        by_id(b, m).active,
        two_vs_one_captures(
            b,
            by_id(b, m).position.0,
            by_id(b, m).position.1,
            by_id(b, m).side,
            horizontal,
        ).len() > 0,
    ensures
        two_vs_one_captures(
            b,
            by_id(b, m).position.0,
            by_id(b, m).position.1,
            by_id(b, m).side,
            horizontal,
        ) == seq![
            at_cell(
                b,
                victim_cell(
                    b,
                    by_id(b, m).position.0,
                    by_id(b, m).position.1,
                    by_id(b, m).side,
                    horizontal,
                ).0,
                victim_cell(
                    b,
                    by_id(b, m).position.0,
                    by_id(b, m).position.1,
                    by_id(b, m).side,
                    horizontal,
                ).1,
            ).id,
        ],
        occupied(
            b,
            victim_cell(
                b,
                by_id(b, m).position.0,
                by_id(b, m).position.1,
                by_id(b, m).side,
                horizontal,
            ).0,
            victim_cell(
                b,
                by_id(b, m).position.0,
                by_id(b, m).position.1,
                by_id(b, m).side,
                horizontal,
            ).1,
        ),
        at_cell(
            b,
            victim_cell(
                b,
                by_id(b, m).position.0,
                by_id(b, m).position.1,
                by_id(b, m).side,
                horizontal,
            ).0,
            victim_cell(
                b,
                by_id(b, m).position.0,
                by_id(b, m).position.1,
                by_id(b, m).side,
                horizontal,
            ).1,
        ).side != by_id(b, m).side,
        victim_ok(
            b,
            m,
            two_vs_one_captures(
                b,
                by_id(b, m).position.0,
                by_id(b, m).position.1,
                by_id(b, m).side,
                horizontal,
            )[0],
        ),
        if horizontal {
            victim_cell(
                b,
                by_id(b, m).position.0,
                by_id(b, m).position.1,
                by_id(b, m).side,
                horizontal,
            ).1 == by_id(b, m).position.1
        } else {
            victim_cell(
                b,
                by_id(b, m).position.0,
                by_id(b, m).position.1,
                by_id(b, m).side,
                horizontal,
            ).0 == by_id(b, m).position.0
        },
{
    let p = by_id(b, m);
    let x = p.position.0;
    let y = p.position.1;
    let side = p.side;
    let vc = victim_cell(b, x, y, side, horizontal);
    if run_fires(b, x, y, side, horizontal, 0) {
        if line_enemy(b, x, y, side, horizontal, 0) {
            assert(vc == line_cell(x, y, horizontal, 0));
        } else {
            assert(line_enemy(b, x, y, side, horizontal, 2));
            assert(vc == line_cell(x, y, horizontal, 2));
        }
    } else {
        assert(run_fires(b, x, y, side, horizontal, 1));
        if line_enemy(b, x, y, side, horizontal, 1) {
            assert(vc == line_cell(x, y, horizontal, 1));
        } else {
            assert(line_enemy(b, x, y, side, horizontal, 3));
            assert(vc == line_cell(x, y, horizontal, 3));
        }
    }
    lemma_victim_at_cell(b, m, vc.0, vc.1);
}

// ------------------------------------------------------------------
// Laws of the rules engine
// ------------------------------------------------------------------

/// Membership in a concatenation is membership in either part.
proof fn lemma_concat_contains<A>(s1: Seq<A>, s2: Seq<A>, x: A)
    ensures
        (s1 + s2).contains(x) <==> s1.contains(x) || s2.contains(x),
{
    if s1.contains(x) {
        let t = choose|t: int| 0 <= t < s1.len() && s1[t] == x;
        assert((s1 + s2)[t] == x);
    }
    if s2.contains(x) {
        let t = choose|t: int| 0 <= t < s2.len() && s2[t] == x;
        assert((s1 + s2)[s1.len() + t] == x);
    }
    if (s1 + s2).contains(x) {
        let t = choose|t: int| 0 <= t < (s1 + s2).len() && (s1 + s2)[t] == x;
        if t < s1.len() {
            assert(s1[t] == x);
        } else {
            assert(s2[t - s1.len()] == x);
        }
    }
}

/// Anything the enumeration lists is a legal move.
proof fn lemma_moves_upto_sound(b: Seq<Piece>, side: Side, n: int, mv: ((u8, u8), (u8, u8)))
    requires
        wf(b),
        0 <= n <= b.len(),
        moves_upto(b, side, n).contains(mv),
    ensures
        valid_move(b, mv.0, mv.1, side),
    decreases n,
{
    let rest_moves = if b[n - 1].active && b[n - 1].side == side {
        piece_moves(b, b[n - 1].position.0, b[n - 1].position.1)
    } else {
        Seq::<((u8, u8), (u8, u8))>::empty()
    };
    lemma_concat_contains(moves_upto(b, side, n - 1), rest_moves, mv);
    if moves_upto(b, side, n - 1).contains(mv) {
        lemma_moves_upto_sound(b, side, n - 1, mv);
    } else {
        assert(rest_moves.contains(mv));
        let i = n - 1;
        let x = b[i].position.0;
        let y = b[i].position.1;
        assert(active_at(b, i, x, y));
        lemma_cell_idx(b, x, y, i);
        lemma_concat_contains(
            dir_move(b, x, y, 0) + dir_move(b, x, y, 1) + dir_move(b, x, y, 2),
            dir_move(b, x, y, 3),
            mv,
        );
        lemma_concat_contains(dir_move(b, x, y, 0) + dir_move(b, x, y, 1), dir_move(b, x, y, 2), mv);
        lemma_concat_contains(dir_move(b, x, y, 0), dir_move(b, x, y, 1), mv);
        assert(dir_move(b, x, y, 0).contains(mv) || dir_move(b, x, y, 1).contains(mv) || dir_move(
            b,
            x,
            y,
            2,
        ).contains(mv) || dir_move(b, x, y, 3).contains(mv));
    }
}

/// Every legal step of an enumerated piece is listed.
proof fn lemma_moves_upto_complete(b: Seq<Piece>, side: Side, n: int, i: int, d: int)
    requires
        wf(b),
        0 <= i < n <= b.len(),
        b[i].active && b[i].side == side,
        0 <= d < 4,
        dir_move(b, b[i].position.0, b[i].position.1, d).len() == 1,
    ensures
        moves_upto(b, side, n).contains(dir_move(b, b[i].position.0, b[i].position.1, d)[0]),
    decreases n,
{
    let x = b[i].position.0;
    let y = b[i].position.1;
    let mv = dir_move(b, x, y, d)[0];
    if i == n - 1 {
        assert(piece_moves(b, x, y).contains(mv)) by {
            lemma_concat_contains(
                dir_move(b, x, y, 0) + dir_move(b, x, y, 1) + dir_move(b, x, y, 2),
                dir_move(b, x, y, 3),
                mv,
            );
            lemma_concat_contains(
                dir_move(b, x, y, 0) + dir_move(b, x, y, 1),
                dir_move(b, x, y, 2),
                mv,
            );
            lemma_concat_contains(dir_move(b, x, y, 0), dir_move(b, x, y, 1), mv);
            assert(dir_move(b, x, y, d).contains(mv));
        }
        lemma_concat_contains(moves_upto(b, side, n - 1), piece_moves(b, x, y), mv);
    } else {
        lemma_moves_upto_complete(b, side, n - 1, i, d);
        lemma_concat_contains(
            moves_upto(b, side, n - 1),
            if b[n - 1].active && b[n - 1].side == side {
                piece_moves(b, b[n - 1].position.0, b[n - 1].position.1)
            } else {
                Seq::<((u8, u8), (u8, u8))>::empty()
            },
            mv,
        );
    }
}

/// The enumeration is exact: `valid_moves` lists a pair if and only if
/// `valid_move` holds of it.
pub proof fn lemma_valid_moves_exact(b: Seq<Piece>, side: Side, from: (u8, u8), to: (u8, u8))
    requires
        wf(b),
    ensures
        valid_moves(b, side).contains((from, to)) <==> valid_move(b, from, to, side),
{
    if valid_moves(b, side).contains((from, to)) {
        lemma_moves_upto_sound(b, side, b.len() as int, (from, to));
    }
    if valid_move(b, from, to, side) {
        let i = cell_idx(b, from.0, from.1);
        assert(active_at(b, i, from.0, from.1));
        let x = from.0;
        let y = from.1;
        let d: int = if from.0 == to.0 && from.1 + 1 == to.1 {
            0
        } else if from.0 == to.0 && to.1 + 1 == from.1 {
            1
        } else if from.1 == to.1 && from.0 + 1 == to.0 {
            2
        } else {
            3
        };
        assert(step_target(x, y, d) == (to.0 as int, to.1 as int));
        assert(dir_move(b, x, y, d) == seq![(from, to)]);
        lemma_moves_upto_complete(b, side, b.len() as int, i, d);
        assert(dir_move(b, x, y, d)[0] == (from, to));
    }
}

/// An enumerated prefix is empty when its pieces have nowhere to go.
proof fn lemma_moves_upto_empty(b: Seq<Piece>, side: Side, n: int)
    requires
        wf(b),
        0 <= n <= b.len(),
        stalemated(b, side),
    ensures
        moves_upto(b, side, n).len() == 0,
    decreases n,
{
    if n > 0 {
        lemma_moves_upto_empty(b, side, n - 1);
        if b[n - 1].active && b[n - 1].side == side {
            let x = b[n - 1].position.0;
            let y = b[n - 1].position.1;
            assert(!has_empty_neighbor(b, x, y));
            assert forall|d: int| 0 <= d < 4 implies (#[trigger] dir_move(b, x, y, d)).len()
                == 0 by {
                if dir_move(b, x, y, d).len() != 0 {
                    let t = step_target(x, y, d);
                    assert(in_bounds(t.0, t.1) && !occupied(b, t.0 as u8, t.1 as u8));
                }
            }
            assert(dir_move(b, x, y, 0).len() == 0 && dir_move(b, x, y, 1).len() == 0 && dir_move(
                b,
                x,
                y,
                2,
            ).len() == 0 && dir_move(b, x, y, 3).len() == 0);
        }
    }
}

/// Stalemate is exactly the absence of legal moves.
pub proof fn lemma_stalemated_iff_no_moves(b: Seq<Piece>, side: Side)
    requires
        wf(b),
    ensures
        stalemated(b, side) <==> valid_moves(b, side).len() == 0,
{
    if stalemated(b, side) {
        lemma_moves_upto_empty(b, side, b.len() as int);
    } else {
        let i = choose|i: int|
            0 <= i < b.len() && #[trigger] b[i].active && b[i].side == side && has_empty_neighbor(
                b,
                b[i].position.0,
                b[i].position.1,
            );
        let x = b[i].position.0;
        let y = b[i].position.1;
        let d = choose|d: int|
            0 <= d < 4 && in_bounds(#[trigger] step_target(x, y, d).0, step_target(x, y, d).1)
                && !occupied(b, step_target(x, y, d).0 as u8, step_target(x, y, d).1 as u8);
        assert(dir_move(b, x, y, d).len() == 1);
        lemma_moves_upto_complete(b, side, b.len() as int, i, d);
        assert(valid_moves(b, side).contains(dir_move(b, x, y, d)[0]));
    }
}

/// The coordinate of a piece along the line through (x, y): its x when the
/// line is the row y, its y when the line is the column x.
pub open spec fn line_coord(p: Piece, horizontal: bool) -> int {
    if horizontal {
        p.position.0 as int
    } else {
        p.position.1 as int
    }
}

/// The piece lies on the line through (x, y).
pub open spec fn on_line(p: Piece, x: u8, y: u8, horizontal: bool) -> bool {
    if horizontal {
        p.position.1 == y
    } else {
        p.position.0 == x
    }
}

/// Which run a firing two-vs-one capture stands on: cells 0..=2 or 1..=3.
pub open spec fn run_start(b: Seq<Piece>, x: u8, y: u8, side: Side, horizontal: bool) -> int {
    if run_fires(b, x, y, side, horizontal, 0) {
        0
    } else {
        1
    }
}

/// When the two-vs-one rule reports a capture on an axis, the position is
/// strict: the three run cells hold the only active pieces of the whole line
/// (a contiguous three), both flanks of the run are off-board or empty, the
/// occupants split two of the mover's side against one opponent sitting at an
/// end of the run (never between the pair), the mover is one of the pair, and
/// the reported id is the opponent's.
pub proof fn lemma_two_vs_one_strict(b: Seq<Piece>, x: u8, y: u8, side: Side, horizontal: bool)
    requires
        wf(b),
        occupied(b, x, y),
        at_cell(b, x, y).side == side,
        at_cell(b, x, y).position == (x, y),
        two_vs_one_captures(b, x, y, side, horizontal).len() > 0,
    ensures
        ({
            let c0 = run_start(b, x, y, side, horizontal);
            &&& c0 == 0 || c0 == 1
            &&& run_fires(b, x, y, side, horizontal, c0)
            // exactly the run cells of the line are occupied
            &&& forall|c: int|
                0 <= c < 4 ==> (line_occ(b, x, y, horizontal, c) <==> c0 <= c <= c0 + 2)
            // both flanks of the run are off-board or empty
            &&& (c0 - 1 < 0 || !line_occ(b, x, y, horizontal, c0 - 1))
            &&& (c0 + 3 > 3 || !line_occ(b, x, y, horizontal, c0 + 3))
            // exactly three active pieces lie on the line: the run occupants
            &&& forall|i: int|
                0 <= i < b.len() && (#[trigger] b[i]).active && on_line(b[i], x, y, horizontal)
                    ==> b[i] == line_piece(b, x, y, horizontal, c0) || b[i] == line_piece(
                    b,
                    x,
                    y,
                    horizontal,
                    c0 + 1,
                ) || b[i] == line_piece(b, x, y, horizontal, c0 + 2)
            // the mover stands on the run and is of the pair's side
            &&& c0 <= line_coord(at_cell(b, x, y), horizontal) <= c0 + 2
            // two of the mover's side, one opponent, opponent at an end
            &&& (line_enemy(b, x, y, side, horizontal, c0) && line_own(b, x, y, side, horizontal, c0 + 1)
                && line_own(b, x, y, side, horizontal, c0 + 2)) || (line_own(
                b,
                x,
                y,
                side,
                horizontal,
                c0,
            ) && line_own(b, x, y, side, horizontal, c0 + 1) && line_enemy(
                b,
                x,
                y,
                side,
                horizontal,
                c0 + 2,
            ))
            // what is captured is exactly the opponent's id
            &&& two_vs_one_captures(b, x, y, side, horizontal) == seq![
                run_victim(b, x, y, side, horizontal, c0),
            ]
        }),
{
    let c0 = run_start(b, x, y, side, horizontal);
    assert(run_fires(b, x, y, side, horizontal, c0));
    let ce: int = if c0 == 0 {
        3
    } else {
        0
    };
    assert(!line_occ(b, x, y, horizontal, ce));
    assert forall|c: int| 0 <= c < 4 implies (line_occ(b, x, y, horizontal, c) <==> c0 <= c <= c0
        + 2) by {
        if c == ce {
        } else {
            assert(c0 <= c <= c0 + 2);
        }
    }
    assert forall|i: int|
        0 <= i < b.len() && (#[trigger] b[i]).active && on_line(b[i], x, y, horizontal) implies b[i]
        == line_piece(b, x, y, horizontal, c0) || b[i] == line_piece(b, x, y, horizontal, c0 + 1)
        || b[i] == line_piece(b, x, y, horizontal, c0 + 2) by {
        let ci = line_coord(b[i], horizontal);
        assert(0 <= ci < 4);
        assert(line_cell(x, y, horizontal, ci) == b[i].position);
        assert(active_at(b, i, b[i].position.0, b[i].position.1));
        lemma_cell_idx(b, b[i].position.0, b[i].position.1, i);
        assert(line_occ(b, x, y, horizontal, ci));
        assert(c0 <= ci <= c0 + 2);
        assert(b[i] == line_piece(b, x, y, horizontal, ci));
    }
    let mc = line_coord(at_cell(b, x, y), horizontal);
    assert(line_cell(x, y, horizontal, mc) == (x, y));
    assert(line_occ(b, x, y, horizontal, mc));
}

/// A lone opponent between two pieces of the mover's side never captures.
pub proof fn lemma_sandwich_never_captures(
    b: Seq<Piece>,
    x: u8,
    y: u8,
    side: Side,
    horizontal: bool,
    c0: int,
)
    requires
        wf(b),
        c0 == 0 || c0 == 1,
        line_own(b, x, y, side, horizontal, c0),
        line_enemy(b, x, y, side, horizontal, c0 + 1),
        line_own(b, x, y, side, horizontal, c0 + 2),
    ensures
        two_vs_one_captures(b, x, y, side, horizontal).len() == 0,
{
    assert(!run_fires(b, x, y, side, horizontal, c0));
    if c0 == 0 {
        assert(!run_fires(b, x, y, side, horizontal, 1));
    } else {
        assert(!run_fires(b, x, y, side, horizontal, 0));
    }
}

/// The carry rule is exactly the single-survivor rule: on a well-formed
/// board it can only ever fire for a mover whose own side is down to exactly
/// one active piece, and for such a mover the capture resolution is the carry
/// check on both axes, each firing independently when both neighbours along
/// it hold opposing pieces.
pub proof fn lemma_carry_iff(b: Seq<Piece>, moved_id: u8, horizontal: bool)
    requires
        wf(b),
        has_id(b, moved_id),
        by_id(b, moved_id).active,
    ensures
        single_mode(b) ==> captured_ids(b, moved_id) == carry_captures(
            b,
            by_id(b, moved_id).position.0,
            by_id(b, moved_id).position.1,
            by_id(b, moved_id).side,
            true,
        ) + carry_captures(
            b,
            by_id(b, moved_id).position.0,
            by_id(b, moved_id).position.1,
            by_id(b, moved_id).side,
            false,
        ),
        count_active_side(b, by_id(b, moved_id).side) == 1 ==> single_mode(b),
        (single_mode(b) && carry_fires(
            b,
            by_id(b, moved_id).position.0,
            by_id(b, moved_id).position.1,
            by_id(b, moved_id).side,
            horizontal,
        )) ==> count_active_side(b, by_id(b, moved_id).side) == 1,
{
    let p = by_id(b, moved_id);
    let x = p.position.0;
    let y = p.position.1;
    let side = p.side;
    if single_mode(b) && carry_fires(b, x, y, side, horizontal) {
        let np = axis_plus(x, y, horizontal);
        let nm = axis_minus(x, y, horizontal);
        let i1 = cell_idx(b, np.0 as u8, np.1 as u8);
        let i2 = cell_idx(b, nm.0 as u8, nm.1 as u8);
        assert(active_at(b, i1, np.0 as u8, np.1 as u8));
        assert(active_at(b, i2, nm.0 as u8, nm.1 as u8));
        assert(i1 != i2);
        let opp = side.spec_opposite();
        assert(b[i1].side == opp && b[i2].side == opp);
        lemma_count_two(b, opp, i1, i2);
        if count_active_side(b, side) != 1 {
            assert(count_active_side(b, opp) == 1);
            assert(false);
        }
    }
}

} // verus!
