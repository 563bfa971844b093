//! The computer opponent: move selection at five difficulty tiers, minimax
//! with alpha-beta pruning, and the shared evaluation function.

use vstd::prelude::*;
use rand::Rng;
use crate::board::{
    count_active_side, in_bounds, lemma_count_le_len, lemma_count_two, lemma_count_witness,
    lemma_spec_execute_wf, occupied, spec_execute, wf, Board,
};
use crate::error::GameError;
use crate::piece::{Piece, Side};
use crate::rules::{
    get_valid_moves, is_stalemated, lemma_valid_moves_exact, moves_upto, stalemated, step_target,
    valid_moves,
};

verus! {

/// Scores lie strictly inside the sentinel band, so they stay comparable and
/// no arithmetic on them wraps.
pub open spec fn score_in_band(r: i32) -> bool {
    i32::MIN + 100 <= r <= i32::MAX - 100
}

/// Relies on rand::thread_rng and rand::Rng::gen_range over 0..n: a value
/// uniformly sampled from that range, hence below n; panics only on an empty
/// range, which the precondition excludes.
#[verifier::external_body]
fn random_below(n: usize) -> (r: usize)
    requires
        n > 0,
    ensures
        r < n,
{
    rand::thread_rng().gen_range(0..n)
}

// ------------------------------------------------------------------
// The evaluation function, as a spec-level formula
// ------------------------------------------------------------------

/// Manhattan distance between two cells.
pub open spec fn manhattan(a: (u8, u8), c: (u8, u8)) -> int {
    (if a.0 >= c.0 {
        a.0 - c.0
    } else {
        c.0 - a.0
    }) + (if a.1 >= c.1 {
        a.1 - c.1
    } else {
        c.1 - a.1
    })
}

/// How many of the four orthogonal neighbours of (x, y) are empty in-bounds
/// cells (0 to 4).
pub open spec fn empty_neighbor_count(b: Seq<Piece>, x: u8, y: u8) -> int {
    (if in_bounds(step_target(x, y, 0).0, step_target(x, y, 0).1) && !occupied(
        b,
        step_target(x, y, 0).0 as u8,
        step_target(x, y, 0).1 as u8,
    ) {
        1int
    } else {
        0int
    }) + (if in_bounds(step_target(x, y, 1).0, step_target(x, y, 1).1) && !occupied(
        b,
        step_target(x, y, 1).0 as u8,
        step_target(x, y, 1).1 as u8,
    ) {
        1int
    } else {
        0int
    }) + (if in_bounds(step_target(x, y, 2).0, step_target(x, y, 2).1) && !occupied(
        b,
        step_target(x, y, 2).0 as u8,
        step_target(x, y, 2).1 as u8,
    ) {
        1int
    } else {
        0int
    }) + (if in_bounds(step_target(x, y, 3).0, step_target(x, y, 3).1) && !occupied(
        b,
        step_target(x, y, 3).0 as u8,
        step_target(x, y, 3).1 as u8,
    ) {
        1int
    } else {
        0int
    })
}

/// The closing-in reward over the first `n` piece records: every active piece
/// of `side` adds (6 - its Manhattan distance to (px, py)) * 10.
pub open spec fn closeness_sum(b: Seq<Piece>, side: Side, px: u8, py: u8, n: int) -> int
    decreases n,
{
    if n <= 0 {
        0
    } else {
        closeness_sum(b, side, px, py, n - 1) + (if b[n - 1].active && b[n - 1].side == side {
            (6 - manhattan(b[n - 1].position, (px, py))) * 10
        } else {
            0int
        })
    }
}

/// The index of the lone active piece of a side; meaningful when the side has
/// exactly one.
pub open spec fn lone_idx(b: Seq<Piece>, side: Side) -> int {
    choose|i: int| 0 <= i < b.len() && #[trigger] b[i].active && b[i].side == side
}

/// The static evaluation, from the computer's own perspective: material times
/// 100, mobility times 5, a dominating +/-10000 for a stalemated opponent or
/// self, the single-piece endgame shaping (boxing in the opponent's lone
/// piece and closing in on it), and a -200 penalty for being the lone side.
pub open spec fn spec_evaluate(b: Seq<Piece>, ai_side: Side) -> int {
    let player_side = ai_side.spec_opposite();
    let ac = count_active_side(b, ai_side) as int;
    let pc = count_active_side(b, player_side) as int;
    (ac - pc) * 100 + (valid_moves(b, ai_side).len() - valid_moves(b, player_side).len()) * 5 + (
    if stalemated(b, player_side) {
        10000int
    } else {
        0int
    }) + (if stalemated(b, ai_side) {
        -10000int
    } else {
        0int
    }) + (if pc == 1 && ac >= 2 {
        let lp = b[lone_idx(b, player_side)];
        (4 - empty_neighbor_count(b, lp.position.0, lp.position.1)) * 50 + closeness_sum(
            b,
            ai_side,
            lp.position.0,
            lp.position.1,
            b.len() as int,
        )
    } else {
        0int
    }) + (if ac == 1 && pc >= 2 {
        -200int
    } else {
        0int
    })
}

/// Every enumerated prefix lists at most four moves per piece.
proof fn lemma_moves_upto_len(b: Seq<Piece>, side: Side, n: int)
    requires
        0 <= n <= b.len(),
    ensures
        moves_upto(b, side, n).len() <= 4 * n,
    decreases n,
{
    if n > 0 {
        lemma_moves_upto_len(b, side, n - 1);
    }
}

/// A side never has more than 64 legal moves on a well-formed board.
pub proof fn lemma_valid_moves_len(b: Seq<Piece>, side: Side)
    requires
        wf(b),
    ensures
        valid_moves(b, side).len() <= 64,
{
    lemma_moves_upto_len(b, side, b.len() as int);
}

/// The closing-in reward is bounded by 60 per piece record.
proof fn lemma_closeness_sum_bounds(b: Seq<Piece>, side: Side, px: u8, py: u8, n: int)
    requires
        wf(b),
        0 <= n <= b.len(),
        in_bounds(px as int, py as int),
    ensures
        0 <= closeness_sum(b, side, px, py, n) <= 60 * n,
    decreases n,
{
    if n > 0 {
        lemma_closeness_sum_bounds(b, side, px, py, n - 1);
    }
}

/// The static evaluation never leaves a small band around zero, far inside
/// the stalemate sentinels.
pub proof fn lemma_evaluate_bounds(b: Seq<Piece>, ai_side: Side)
    requires
        wf(b),
    ensures
        -13000 <= spec_evaluate(b, ai_side) <= 14000,
{
    let player_side = ai_side.spec_opposite();
    lemma_count_le_len(b, ai_side);
    lemma_count_le_len(b, player_side);
    lemma_valid_moves_len(b, ai_side);
    lemma_valid_moves_len(b, player_side);
    let pc = count_active_side(b, player_side) as int;
    let ac = count_active_side(b, ai_side) as int;
    if pc == 1 && ac >= 2 {
        let lp = b[lone_idx(b, player_side)];
        crate::board::lemma_count_nonzero_witness(b, player_side);
        assert(0 <= lone_idx(b, player_side) < b.len() && lp.active);
        assert(in_bounds(lp.position.0 as int, lp.position.1 as int));
        lemma_closeness_sum_bounds(b, ai_side, lp.position.0, lp.position.1, b.len() as int);
        assert(0 <= empty_neighbor_count(b, lp.position.0, lp.position.1) <= 4);
    }
}

// ------------------------------------------------------------------
// The search value, as a spec-level game tree
// ------------------------------------------------------------------

/// The plain, unpruned minimax value of the depth-limited game tree:
/// `spec_evaluate` at depth zero, the large finite sentinels at a ply whose
/// side to move has no legal move, and otherwise the best child value over
/// the legal moves in enumeration order. `maximizing` says whether the
/// computer moves at this ply.
pub open spec fn spec_minimax(b: Seq<Piece>, depth: nat, maximizing: bool, ai_side: Side) -> int
    decreases depth, 0nat, 0nat,
{
    if depth == 0 {
        spec_evaluate(b, ai_side)
    } else {
        let side = if maximizing {
            ai_side
        } else {
            ai_side.spec_opposite()
        };
        let moves = valid_moves(b, side);
        if moves.len() == 0 {
            if maximizing {
                i32::MIN + 100
            } else {
                i32::MAX - 100
            }
        } else {
            best_value(b, moves, (depth - 1) as nat, maximizing, ai_side, moves.len() as int)
        }
    }
}

/// The best value over the first `k` listed moves, from the perspective of
/// the side to move (`maximizing` is that ply's mode; children are searched
/// in the other mode at depth `depth`). The fold starts from the matching
/// sentinel, which no reachable value beats the wrong way.
pub open spec fn best_value(
    b: Seq<Piece>,
    moves: Seq<((u8, u8), (u8, u8))>,
    depth: nat,
    maximizing: bool,
    ai_side: Side,
    k: int,
) -> int
    decreases depth, 1nat, k,
{
    if k <= 0 {
        if maximizing {
            i32::MIN + 100
        } else {
            i32::MAX - 100
        }
    } else {
        let prev = best_value(b, moves, depth, maximizing, ai_side, k - 1);
        let child = spec_minimax(
            spec_execute(b, moves[k - 1].0, moves[k - 1].1),
            depth,
            !maximizing,
            ai_side,
        );
        if maximizing {
            if child > prev {
                child
            } else {
                prev
            }
        } else {
            if child < prev {
                child
            } else {
                prev
            }
        }
    }
}

/// The value of one root move for the computer: the tree value of the board
/// after that move, with the opponent to move one ply down.
pub open spec fn root_value(
    b: Seq<Piece>,
    mv: ((u8, u8), (u8, u8)),
    depth: nat,
    ai_side: Side,
) -> int {
    spec_minimax(spec_execute(b, mv.0, mv.1), depth, false, ai_side)
}

/// The move a best-first search returns: the listed move whose root value is
/// strictly greater than every earlier candidate's and at least every later
/// candidate's.
pub open spec fn is_best_first_move(
    b: Seq<Piece>,
    moves: Seq<((u8, u8), (u8, u8))>,
    depth: nat,
    ai_side: Side,
    m: ((u8, u8), (u8, u8)),
) -> bool {
    exists|j: int|
        0 <= j < moves.len() && #[trigger] moves[j] == m && (forall|t: int|
            0 <= t < j ==> root_value(b, #[trigger] moves[t], depth, ai_side) < root_value(
                b,
                m,
                depth,
                ai_side,
            )) && (forall|t: int|
            j <= t < moves.len() ==> root_value(b, #[trigger] moves[t], depth, ai_side)
                <= root_value(b, m, depth, ai_side))
}

/// The best-first choice is a function of board, move list and depth: two
/// moves both satisfying it are the same move. Searches at a fixed depth are
/// therefore deterministic.
pub proof fn lemma_best_first_move_unique(
    b: Seq<Piece>,
    moves: Seq<((u8, u8), (u8, u8))>,
    depth: nat,
    ai_side: Side,
    m1: ((u8, u8), (u8, u8)),
    m2: ((u8, u8), (u8, u8)),
)
    requires
        is_best_first_move(b, moves, depth, ai_side, m1),
        is_best_first_move(b, moves, depth, ai_side, m2),
    ensures
        m1 == m2,
{
    let j1 = choose|j: int|
        0 <= j < moves.len() && #[trigger] moves[j] == m1 && (forall|t: int|
            0 <= t < j ==> root_value(b, #[trigger] moves[t], depth, ai_side) < root_value(
                b,
                m1,
                depth,
                ai_side,
            )) && (forall|t: int|
            j <= t < moves.len() ==> root_value(b, #[trigger] moves[t], depth, ai_side)
                <= root_value(b, m1, depth, ai_side));
    let j2 = choose|j: int|
        0 <= j < moves.len() && #[trigger] moves[j] == m2 && (forall|t: int|
            0 <= t < j ==> root_value(b, #[trigger] moves[t], depth, ai_side) < root_value(
                b,
                m2,
                depth,
                ai_side,
            )) && (forall|t: int|
            j <= t < moves.len() ==> root_value(b, #[trigger] moves[t], depth, ai_side)
                <= root_value(b, m2, depth, ai_side));
    if j1 < j2 {
        assert(root_value(b, moves[j1], depth, ai_side) < root_value(b, m2, depth, ai_side));
        assert(root_value(b, moves[j2], depth, ai_side) <= root_value(b, m1, depth, ai_side));
        assert(false);
    } else if j2 < j1 {
        assert(root_value(b, moves[j2], depth, ai_side) < root_value(b, m1, depth, ai_side));
        assert(root_value(b, moves[j1], depth, ai_side) <= root_value(b, m2, depth, ai_side));
        assert(false);
    }
}

/// The search depth each difficulty level uses.
pub open spec fn level_depth(level: u8) -> u8 {
    if level == 3 {
        4u8
    } else if level == 4 {
        6u8
    } else {
        8u8
    }
}

/// Tree values stay inside the sentinel band.
pub proof fn lemma_spec_minimax_in_band(b: Seq<Piece>, depth: nat, maximizing: bool, ai_side: Side)
    requires
        wf(b),
    ensures
        i32::MIN + 100 <= spec_minimax(b, depth, maximizing, ai_side) <= i32::MAX - 100,
    decreases depth, 0nat, 0nat,
{
    if depth == 0 {
        lemma_evaluate_bounds(b, ai_side);
    } else {
        let side = if maximizing {
            ai_side
        } else {
            ai_side.spec_opposite()
        };
        let moves = valid_moves(b, side);
        if moves.len() > 0 {
            lemma_best_value_in_band(
                b,
                side,
                moves,
                (depth - 1) as nat,
                maximizing,
                ai_side,
                moves.len() as int,
            );
        }
    }
}

/// So do partial folds over a legal-move list.
pub proof fn lemma_best_value_in_band(
    b: Seq<Piece>,
    side: Side,
    moves: Seq<((u8, u8), (u8, u8))>,
    depth: nat,
    maximizing: bool,
    ai_side: Side,
    k: int,
)
    requires
        wf(b),
        moves == valid_moves(b, side),
        0 <= k <= moves.len(),
    ensures
        i32::MIN + 100 <= best_value(b, moves, depth, maximizing, ai_side, k) <= i32::MAX - 100,
    decreases depth, 1nat, k,
{
    if k > 0 {
        lemma_best_value_in_band(b, side, moves, depth, maximizing, ai_side, k - 1);
        let mv = moves[k - 1];
        lemma_valid_moves_exact(b, side, mv.0, mv.1);
        lemma_spec_execute_wf(b, mv.0, mv.1);
        lemma_spec_minimax_in_band(spec_execute(b, mv.0, mv.1), depth, !maximizing, ai_side);
    }
}

/// Extending a maximizing fold never lowers it; extending a minimizing fold
/// never raises it.
pub proof fn lemma_best_value_monotone(
    b: Seq<Piece>,
    moves: Seq<((u8, u8), (u8, u8))>,
    depth: nat,
    maximizing: bool,
    ai_side: Side,
    k1: int,
    k2: int,
)
    requires
        0 <= k1 <= k2,
    ensures
        maximizing ==> best_value(b, moves, depth, maximizing, ai_side, k1) <= best_value(
            b,
            moves,
            depth,
            maximizing,
            ai_side,
            k2,
        ),
        !maximizing ==> best_value(b, moves, depth, maximizing, ai_side, k1) >= best_value(
            b,
            moves,
            depth,
            maximizing,
            ai_side,
            k2,
        ),
    decreases k2 - k1,
{
    if k1 < k2 {
        lemma_best_value_monotone(b, moves, depth, maximizing, ai_side, k1, k2 - 1);
    }
}

// ------------------------------------------------------------------
// Executable evaluation
// ------------------------------------------------------------------

/// How many of the four orthogonal neighbours of the in-bounds cell (x, y)
/// are empty in-bounds cells.
fn count_empty_neighbors(board: &Board, x: u8, y: u8) -> (r: u8)
    requires
        in_bounds(x as int, y as int),
    ensures
        r as int == empty_neighbor_count(board@, x, y),
        r <= 4,
{
    let mut r: u8 = 0;
    if y + 1 <= 3 && board.is_empty(x, y + 1) {
        r = r + 1;
    }
    if y >= 1 && board.is_empty(x, y - 1) {
        r = r + 1;
    }
    if x + 1 <= 3 && board.is_empty(x + 1, y) {
        r = r + 1;
    }
    if x >= 1 && board.is_empty(x - 1, y) {
        r = r + 1;
    }
    proof {
        assert(step_target(x, y, 0) == (x as int, y + 1));
        assert(step_target(x, y, 1) == (x as int, y - 1));
        assert(step_target(x, y, 2) == (x + 1, y as int));
        assert(step_target(x, y, 3) == (x - 1, y as int));
    }
    r
}

/// The move captures at least one piece when played on this board.
pub open spec fn capturing_move(b: Seq<Piece>, m: ((u8, u8), (u8, u8))) -> bool {
    crate::board::move_captured_ids(b, m.0, m.1).len() > 0
}

/// Some listed move captures.
pub open spec fn has_capturing_move(b: Seq<Piece>, moves: Seq<((u8, u8), (u8, u8))>) -> bool {
    exists|t: int| 0 <= t < moves.len() && capturing_move(b, #[trigger] moves[t])
}

/// The computer player, with its difficulty level (1..=5).
pub struct AiPlayer {
    level: u8,
}

impl AiPlayer {
    /// Difficulty levels always lie in 1..=5; the constructor clamps.
    #[verifier::type_invariant]
    spec fn level_in_range(self) -> bool {
        1 <= self.level <= 5
    }

    /// The configured difficulty level.
    pub closed spec fn spec_level(&self) -> u8 {
        self.level
    }

    /// A player at the given difficulty; levels outside 1..=5 are clamped.
    pub fn new(level: u8) -> (r: AiPlayer)
        ensures
            r.spec_level() == (if level < 1 {
                1u8
            } else if level > 5 {
                5u8
            } else {
                level
            }),
            1 <= r.spec_level() <= 5,
    {
        let lv = if level < 1 {
            1
        } else if level > 5 {
            5
        } else {
            level
        };
        AiPlayer { level: lv }
    }

    /// Chooses one legal move for `side`, by the configured difficulty:
    /// uniformly random, capture-greedy random, or minimax with alpha-beta
    /// pruning at depth 4, 6 or 8. The searching tiers return the first
    /// best-scoring move of the enumeration, so they are deterministic (see
    /// `lemma_best_first_move_unique`); the two random tiers are not, by
    /// design. Fails exactly when `side` has no legal move at all.
    pub fn select_move(&self, board: &Board, side: Side) -> (r: Result<
        ((u8, u8), (u8, u8)),
        GameError,
    >)
        requires
            wf(board@),
        ensures
            r.is_ok() <==> valid_moves(board@, side).len() > 0,
            r matches Ok(m) ==> valid_moves(board@, side).contains(m),
            self.spec_level() == 2 ==> (r matches Ok(m) ==> (has_capturing_move(
                board@,
                valid_moves(board@, side),
            ) ==> capturing_move(board@, m))),
            self.spec_level() >= 3 ==> (r matches Ok(m) ==> is_best_first_move(
                board@,
                valid_moves(board@, side),
                (level_depth(self.spec_level()) - 1) as nat,
                side,
                m,
            )),
            r matches Err(e) ==> e == GameError::NoLegalMove,
    {
        proof {
            use_type_invariant(self);
        }
        let moves = get_valid_moves(board, side);
        if moves.len() == 0 {
            return Err(GameError::NoLegalMove);
        }
        let r = if self.level == 1 {
            Self::random_move(&moves)
        } else if self.level == 2 {
            self.simple_eval_move(board, &moves, side)
        } else if self.level == 3 {
            self.minimax_move(board, &moves, side, 4)
        } else if self.level == 4 {
            self.minimax_move(board, &moves, side, 6)
        } else if self.level == 5 {
            self.optimal_move(board, &moves, side)
        } else {
            Self::random_move(&moves)
        };
        match r {
            Ok(m) => Ok(m),
            Err(_) => Err(GameError::NoLegalMove),
        }
    }

    /// Tier 1: a uniformly random legal move.
    fn random_move(moves: &Vec<((u8, u8), (u8, u8))>) -> (r: Result<
        ((u8, u8), (u8, u8)),
        GameError,
    >)
        requires
            moves@.len() > 0,
        ensures
            r.is_ok(),
            r matches Ok(m) ==> moves@.contains(m),
    {
        let idx = random_below(moves.len());
        let m = moves[idx];
        proof {
            assert(moves@[idx as int] == m);
        }
        Ok(m)
    }

    /// Tier 2: a uniformly random move among those that capture something,
    /// found by simulating each candidate on a scratch board; falls back to a
    /// plain random move when none captures.
    fn simple_eval_move(
        &self,
        board: &Board,
        moves: &Vec<((u8, u8), (u8, u8))>,
        side: Side,
    ) -> (r: Result<((u8, u8), (u8, u8)), GameError>)
        requires
            wf(board@),
            moves@ == valid_moves(board@, side),
            moves@.len() > 0,
        ensures
            r.is_ok(),
            r matches Ok(m) ==> moves@.contains(m) && (has_capturing_move(board@, moves@)
                ==> capturing_move(board@, m)),
    {
        let n = moves.len();
        let mut capturing: Vec<((u8, u8), (u8, u8))> = Vec::new();
        let mut k: usize = 0;
        while k < n
            invariant
                wf(board@),
                moves@ == valid_moves(board@, side),
                n == moves@.len(),
                0 <= k <= n,
                forall|t: int|
                    0 <= t < capturing@.len() ==> moves@.contains(#[trigger] capturing@[t])
                        && capturing_move(board@, capturing@[t]),
                capturing@.len() == 0 ==> forall|u: int|
                    0 <= u < k ==> !capturing_move(board@, #[trigger] moves@[u]),
            decreases n - k,
        {
            let (from, to) = moves[k];
            proof {
                lemma_valid_moves_exact(board@, side, from, to);
            }
            let mut test_board = board.clone();
            match test_board.execute_move(from, to, side) {
                Ok(record) => {
                    proof {
                        assert(record.captured@.len() == crate::board::move_captured_ids(
                            board@,
                            from,
                            to,
                        ).len());
                    }
                    if record.captured.len() > 0 {
                        capturing.push((from, to));
                        proof {
                            assert(moves@[k as int] == (from, to));
                        }
                    }
                },
                Err(_) => {
                    proof {
                        assert(false);
                    }
                },
            }
            k = k + 1;
        }
        if capturing.len() > 0 {
            let r = Self::random_move(&capturing);
            match r {
                Ok(m) => {
                    proof {
                        assert(capturing@.contains(m));
                        let t = choose|t: int|
                            0 <= t < capturing@.len() && capturing@[t] == m;
                        assert(moves@.contains(capturing@[t]));
                    }
                    Ok(m)
                },
                Err(e) => Err(e),
            }
        } else {
            proof {
                assert(!has_capturing_move(board@, moves@));
            }
            Self::random_move(moves)
        }
    }

    /// Tiers 3 and 4: the move whose minimax score at the given depth is
    /// best for the computer - exactly, the first listed move whose score
    /// beats every earlier candidate's and matches or beats every later one.
    fn minimax_move(
        &self,
        board: &Board,
        moves: &Vec<((u8, u8), (u8, u8))>,
        side: Side,
        depth: u8,
    ) -> (r: Result<((u8, u8), (u8, u8)), GameError>)
        requires
            wf(board@),
            moves@ == valid_moves(board@, side),
            moves@.len() > 0,
            depth >= 1,
        ensures
            r.is_ok(),
            r matches Ok(m) ==> moves@.contains(m) && is_best_first_move(
                board@,
                moves@,
                (depth - 1) as nat,
                side,
                m,
            ),
    {
        let ghost d1 = (depth - 1) as nat;
        let n = moves.len();
        let mut best_move: Option<((u8, u8), (u8, u8))> = None;
        let mut best_score: i32 = i32::MIN;
        let ghost mut best_k: int = 0;
        let mut k: usize = 0;
        while k < n
            invariant
                wf(board@),
                depth >= 1,
                d1 == (depth - 1) as nat,
                moves@ == valid_moves(board@, side),
                n == moves@.len(),
                0 <= k <= n,
                k == 0 ==> best_move is None,
                k > 0 ==> best_move is Some,
                best_move matches Some(m) ==> {
                    &&& 0 <= best_k < k
                    &&& m == moves@[best_k]
                    &&& best_score as int == root_value(board@, moves@[best_k], d1, side)
                    &&& forall|t: int|
                        0 <= t < best_k ==> root_value(board@, #[trigger] moves@[t], d1, side)
                            < best_score as int
                    &&& forall|t: int|
                        best_k <= t < k ==> root_value(board@, #[trigger] moves@[t], d1, side)
                            <= best_score as int
                },
            decreases n - k,
        {
            let (from, to) = moves[k];
            proof {
                lemma_valid_moves_exact(board@, side, from, to);
            }
            let mut test_board = board.clone();
            match test_board.execute_move(from, to, side) {
                Ok(_) => {
                    let score = self.minimax(
                        &test_board,
                        depth - 1,
                        false,
                        side,
                        i32::MIN,
                        i32::MAX,
                    );
                    proof {
                        // on the full window the search value is exact
                        assert(score as int == root_value(board@, moves@[k as int], d1, side));
                    }
                    if score > best_score || best_move.is_none() {
                        best_score = score;
                        best_move = Some((from, to));
                        proof {
                            best_k = k as int;
                            assert(moves@[k as int] == (from, to));
                        }
                    }
                },
                Err(_) => {
                    proof {
                        assert(false);
                    }
                },
            }
            k = k + 1;
        }
        match best_move {
            Some(m) => {
                proof {
                    assert(moves@[best_k] == m);
                    assert(is_best_first_move(board@, moves@, d1, side, m));
                }
                Ok(m)
            },
            None => Err(GameError::NoLegalMove),
        }
    }

    /// Tier 5: the same search, two plies deeper than tier 4. Bounded depth
    /// is ample for a 4x4 board with at most twelve pieces.
    fn optimal_move(
        &self,
        board: &Board,
        moves: &Vec<((u8, u8), (u8, u8))>,
        side: Side,
    ) -> (r: Result<((u8, u8), (u8, u8)), GameError>)
        requires
            wf(board@),
            moves@ == valid_moves(board@, side),
            moves@.len() > 0,
        ensures
            r.is_ok(),
            r matches Ok(m) ==> moves@.contains(m) && is_best_first_move(
                board@,
                moves@,
                7nat,
                side,
                m,
            ),
    {
        self.minimax_move(board, moves, side, 8)
    }

    /// Minimax with alpha-beta pruning. At depth 0 the static evaluation; a
    /// ply whose side to move has no legal move scores as a near-terminal
    /// win or loss for the computer, by a large but finite sentinel, so
    /// scores stay comparable and free of overflow. The result is exact
    /// whenever it lands strictly inside the (alpha, beta) window - in
    /// particular on the full window the pruning never changes the value -
    /// and bounds the tree value from the matching side when it does not.
    fn minimax(
        &self,
        board: &Board,
        depth: u8,
        is_maximizing: bool,
        ai_side: Side,
        alpha: i32,
        beta: i32,
    ) -> (r: i32)
        requires
            wf(board@),
            alpha < beta,
        ensures
            score_in_band(r),
            alpha < r < beta ==> r as int == spec_minimax(
                board@,
                depth as nat,
                is_maximizing,
                ai_side,
            ),
            r <= alpha ==> spec_minimax(board@, depth as nat, is_maximizing, ai_side) <= r as int,
            r >= beta ==> spec_minimax(board@, depth as nat, is_maximizing, ai_side) >= r as int,
        decreases depth,
    {
        if depth == 0 {
            return self.evaluate(board, ai_side);
        }
        let current_side = if is_maximizing {
            ai_side
        } else {
            ai_side.opposite()
        };
        let moves = get_valid_moves(board, current_side);
        let n = moves.len();
        if n == 0 {
            return if is_maximizing {
                i32::MIN + 100
            } else {
                i32::MAX - 100
            };
        }
        let ghost d1 = (depth - 1) as nat;
        if is_maximizing {
            let mut max_eval: i32 = i32::MIN + 100;
            let mut alpha_cur: i32 = alpha;
            let mut k: usize = 0;
            while k < n
                invariant
                    wf(board@),
                    depth >= 1,
                    d1 == (depth - 1) as nat,
                    is_maximizing,
                    current_side == ai_side,
                    moves@ == valid_moves(board@, current_side),
                    n == moves@.len(),
                    n > 0,
                    0 <= k <= n,
                    alpha < beta,
                    score_in_band(max_eval),
                    alpha <= alpha_cur < beta,
                    alpha_cur == alpha || alpha_cur <= max_eval,
                    best_value(board@, moves@, d1, true, ai_side, k as int) <= max_eval as int,
                    max_eval > alpha ==> best_value(board@, moves@, d1, true, ai_side, k as int)
                        >= max_eval as int,
                decreases n - k,
            {
                let (from, to) = moves[k];
                proof {
                    lemma_valid_moves_exact(board@, current_side, from, to);
                }
                let mut test_board = board.clone();
                match test_board.execute_move(from, to, current_side) {
                    Ok(_) => {
                        let eval = self.minimax(
                            &test_board,
                            depth - 1,
                            false,
                            ai_side,
                            alpha_cur,
                            beta,
                        );
                        proof {
                            let mk = spec_minimax(test_board@, d1, false, ai_side);
                            let bk = best_value(board@, moves@, d1, true, ai_side, k as int);
                            let bk1 = best_value(board@, moves@, d1, true, ai_side, k + 1);
                            assert(bk1 == if mk > bk {
                                mk
                            } else {
                                bk
                            });
                            lemma_best_value_monotone(
                                board@,
                                moves@,
                                d1,
                                true,
                                ai_side,
                                k + 1,
                                n as int,
                            );
                            if eval < beta {
                                // exact or fail-low: the tree value is at most the answer
                                assert(mk <= eval as int);
                                if eval > max_eval && eval > alpha {
                                    assert(alpha_cur < eval);
                                    assert(eval as int == mk);
                                }
                            } else {
                                // fail-high: the answer bounds the tree value from below
                                assert(mk >= eval as int);
                            }
                        }
                        if eval > max_eval {
                            max_eval = eval;
                        }
                        if eval > alpha_cur {
                            alpha_cur = eval;
                        }
                        if beta <= alpha_cur {
                            return max_eval;
                        }
                    },
                    Err(_) => {
                        proof {
                            assert(false);
                        }
                    },
                }
                k = k + 1;
            }
            max_eval
        } else {
            let mut min_eval: i32 = i32::MAX - 100;
            let mut beta_cur: i32 = beta;
            let mut k: usize = 0;
            while k < n
                invariant
                    wf(board@),
                    depth >= 1,
                    d1 == (depth - 1) as nat,
                    !is_maximizing,
                    current_side == ai_side.spec_opposite(),
                    moves@ == valid_moves(board@, current_side),
                    n == moves@.len(),
                    n > 0,
                    0 <= k <= n,
                    alpha < beta,
                    score_in_band(min_eval),
                    alpha < beta_cur <= beta,
                    beta_cur == beta || beta_cur >= min_eval,
                    best_value(board@, moves@, d1, false, ai_side, k as int) >= min_eval as int,
                    min_eval < beta ==> best_value(board@, moves@, d1, false, ai_side, k as int)
                        <= min_eval as int,
                decreases n - k,
            {
                let (from, to) = moves[k];
                proof {
                    lemma_valid_moves_exact(board@, current_side, from, to);
                }
                let mut test_board = board.clone();
                match test_board.execute_move(from, to, current_side) {
                    Ok(_) => {
                        let eval = self.minimax(
                            &test_board,
                            depth - 1,
                            true,
                            ai_side,
                            alpha,
                            beta_cur,
                        );
                        proof {
                            let mk = spec_minimax(test_board@, d1, true, ai_side);
                            let bk = best_value(board@, moves@, d1, false, ai_side, k as int);
                            let bk1 = best_value(board@, moves@, d1, false, ai_side, k + 1);
                            assert(bk1 == if mk < bk {
                                mk
                            } else {
                                bk
                            });
                            lemma_best_value_monotone(
                                board@,
                                moves@,
                                d1,
                                false,
                                ai_side,
                                k + 1,
                                n as int,
                            );
                            if eval > alpha {
                                // exact or fail-high: the tree value is at least the answer
                                assert(mk >= eval as int);
                                if eval < min_eval && eval < beta {
                                    assert(eval < beta_cur);
                                    assert(eval as int == mk);
                                }
                            } else {
                                // fail-low: the answer bounds the tree value from above
                                assert(mk <= eval as int);
                            }
                        }
                        if eval < min_eval {
                            min_eval = eval;
                        }
                        if eval < beta_cur {
                            beta_cur = eval;
                        }
                        if beta_cur <= alpha {
                            return min_eval;
                        }
                    },
                    Err(_) => {
                        proof {
                            assert(false);
                        }
                    },
                }
                k = k + 1;
            }
            min_eval
        }
    }

    /// The static evaluation of a position, from the computer's side; the
    /// exact formula is `spec_evaluate`.
    fn evaluate(&self, board: &Board, ai_side: Side) -> (r: i32)
        requires
            wf(board@),
        ensures
            r as int == spec_evaluate(board@, ai_side),
            score_in_band(r),
    {
        proof {
            lemma_evaluate_bounds(board@, ai_side);
            lemma_count_le_len(board@, ai_side);
            lemma_count_le_len(board@, ai_side.spec_opposite());
            lemma_valid_moves_len(board@, ai_side);
            lemma_valid_moves_len(board@, ai_side.spec_opposite());
        }
        let player_side = ai_side.opposite();
        let ai_count = board.count_active(ai_side) as i32;
        let player_count = board.count_active(player_side) as i32;
        let mut score: i32 = (ai_count - player_count) * 100;
        let ai_moves = get_valid_moves(board, ai_side).len() as i32;
        let player_moves = get_valid_moves(board, player_side).len() as i32;
        score = score + (ai_moves - player_moves) * 5;
        if is_stalemated(board, player_side) {
            score = score + 10000;
        }
        if is_stalemated(board, ai_side) {
            score = score - 10000;
        }
        if player_count == 1 && ai_count >= 2 {
            let lone = self.find_lone_piece(board, player_side);
            let px = lone.position.0;
            let py = lone.position.1;
            let empty_neighbors = count_empty_neighbors(board, px, py) as i32;
            score = score + (4 - empty_neighbors) * 50;
            score = score + self.closeness_reward(board, ai_side, px, py);
        }
        if ai_count == 1 && player_count >= 2 {
            score = score - 200;
        }
        score
    }

    /// The lone active piece of a side that has exactly one.
    fn find_lone_piece(&self, board: &Board, side: Side) -> (r: Piece)
        requires
            wf(board@),
            count_active_side(board@, side) == 1,
        ensures
            r == board@[lone_idx(board@, side)],
            r.active && r.side == side,
            in_bounds(r.position.0 as int, r.position.1 as int),
    {
        let n = board.pieces.len();
        let mut i: usize = 0;
        while i < n
            invariant
                wf(board@),
                count_active_side(board@, side) == 1,
                n == board@.len(),
                0 <= i <= n,
                forall|k: int|
                    0 <= k < i ==> !(#[trigger] board@[k].active && board@[k].side == side),
            decreases n - i,
        {
            let p = board.pieces[i];
            if p.active && p.side == side {
                proof {
                    let j = lone_idx(board@, side);
                    assert(board@[j].active && board@[j].side == side) by {
                        lemma_count_witness(board@, side, i as int);
                        crate::board::lemma_count_nonzero_witness(board@, side);
                    }
                    if j != i as int {
                        lemma_count_two(board@, side, i as int, j);
                    }
                }
                return p;
            }
            i = i + 1;
        }
        proof {
            crate::board::lemma_count_zero(board@, side);
            assert(false);
        }
        unreached()
    }

    /// The closing-in reward: every active piece of `side` adds
    /// (6 - Manhattan distance to (px, py)) * 10.
    fn closeness_reward(&self, board: &Board, side: Side, px: u8, py: u8) -> (r: i32)
        requires
            wf(board@),
            in_bounds(px as int, py as int),
        ensures
            r as int == closeness_sum(board@, side, px, py, board@.len() as int),
            0 <= r <= 960,
    {
        proof {
            lemma_closeness_sum_bounds(board@, side, px, py, board@.len() as int);
        }
        let n = board.pieces.len();
        let mut r: i32 = 0;
        let mut i: usize = 0;
        while i < n
            invariant
                wf(board@),
                in_bounds(px as int, py as int),
                n == board@.len(),
                0 <= i <= n,
                r as int == closeness_sum(board@, side, px, py, i as int),
                0 <= r <= 60 * i,
            decreases n - i,
        {
            proof {
                lemma_closeness_sum_bounds(board@, side, px, py, i + 1);
            }
            let p = board.pieces[i];
            if p.active && p.side == side {
                let dx = if p.position.0 >= px {
                    p.position.0 - px
                } else {
                    px - p.position.0
                };
                let dy = if p.position.1 >= py {
                    p.position.1 - py
                } else {
                    py - p.position.1
                };
                let dist = (dx + dy) as i32;
                r = r + (6 - dist) * 10;
            }
            i = i + 1;
        }
        r
    }
}

} // verus!
