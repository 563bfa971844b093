//! The in-memory form of a saved game: a 16-cell occupancy array plus the
//! human's side. Reading and writing files is the host's business; this
//! module only converts between that form and a board.

use vstd::prelude::*;
use crate::board::{at_cell, count_active_side, in_bounds, occupied, wf, Board};
use crate::error::GameError;
use crate::piece::{Piece, PieceState, Side};

verus! {

/// The one save-format version this engine reads and writes.
pub const SAVE_VERSION: u8 = 1;

/// A saved game: one byte per cell, indexed y * 4 + x, with 0 for empty,
/// 1 for a Black piece and 2 for a White one; and who plays which side.
/// Loading always hands the first turn to Black.
#[derive(Debug, PartialEq, Eq)]
pub struct SaveData {
    /// Format version; only `SAVE_VERSION` is accepted.
    pub version: u8,
    /// The 16 cell codes.
    pub board: Vec<u8>,
    /// Whose turn it is after loading.
    pub current_turn: Side,
    /// The side the human controls.
    pub player_side: Side,
}

/// The code a cell carries in the occupancy array.
pub open spec fn cell_code(b: Seq<Piece>, x: u8, y: u8) -> u8 {
    if occupied(b, x, y) {
        if at_cell(b, x, y).side == Side::Black {
            1u8
        } else {
            2u8
        }
    } else {
        0u8
    }
}

/// The array describes exactly the board's active pieces.
pub open spec fn occupancy_ok(b: Seq<Piece>, data: Seq<u8>) -> bool {
    data.len() == 16 && forall|c: int|
        0 <= c < 16 ==> data[c] == cell_code(b, (c % 4) as u8, (c / 4) as u8)
}

/// Captures the board's active pieces as save data: one code per cell, Black
/// first to move, and the given human side.
pub fn save_game(board: &Board, player_side: Side) -> (r: SaveData)
    requires
        wf(board@),
    ensures
        r.version == SAVE_VERSION,
        occupancy_ok(board@, r.board@),
        r.current_turn == Side::Black,
        r.player_side == player_side,
{
    let mut data: Vec<u8> = Vec::new();
    let mut c: usize = 0;
    while c < 16
        invariant
            wf(board@),
            0 <= c <= 16,
            data@.len() == c,
            forall|t: int|
                0 <= t < c ==> data@[t] == cell_code(board@, (t % 4) as u8, (t / 4) as u8),
        decreases 16 - c,
    {
        let x = (c % 4) as u8;
        let y = (c / 4) as u8;
        let code = match board.piece_at(x, y) {
            Some(p) => {
                if p.side == Side::Black {
                    1
                } else {
                    2
                }
            },
            None => 0,
        };
        data.push(code);
        c = c + 1;
    }
    SaveData { version: SAVE_VERSION, board: data, current_turn: Side::Black, player_side }
}

/// How many of the first `n` cell codes are nonzero.
pub open spec fn nonzero_count(data: Seq<u8>, n: int) -> int
    decreases n,
{
    if n <= 0 {
        0
    } else {
        nonzero_count(data, n - 1) + (if data[n - 1] != 0 {
            1int
        } else {
            0int
        })
    }
}

/// The piece a nonzero cell code reconstructs: a fresh sequential id, Black
/// for code 1 and White for anything else, standing active on its cell.
pub open spec fn loaded_piece(data: Seq<u8>, c: int) -> Piece {
    Piece {
        id: (nonzero_count(data, c) + 1) as u8,
        side: if data[c] == 1 {
            Side::Black
        } else {
            Side::White
        },
        position: ((c % 4) as u8, (c / 4) as u8),
        state: PieceState::Idle,
        active: true,
    }
}

/// The pieces the first `n` cells of the array reconstruct, in cell order.
pub open spec fn loaded_pieces(data: Seq<u8>, n: int) -> Seq<Piece>
    decreases n,
{
    if n <= 0 {
        Seq::empty()
    } else {
        loaded_pieces(data, n - 1) + (if data[n - 1] != 0 {
            seq![loaded_piece(data, n - 1)]
        } else {
            Seq::empty()
        })
    }
}

/// Shape of a reconstructed prefix: as many pieces as nonzero cells, ids
/// sequential from 1, each active on its own distinct in-bounds cell, in
/// strictly increasing cell order.
proof fn lemma_loaded_pieces_facts(data: Seq<u8>, n: int)
    requires
        0 <= n <= 16 <= data.len(),
    ensures
        loaded_pieces(data, n).len() == nonzero_count(data, n),
        0 <= nonzero_count(data, n) <= n,
        forall|t: int|
            0 <= t < loaded_pieces(data, n).len() ==> {
                let p = #[trigger] loaded_pieces(data, n)[t];
                &&& p.id == t + 1
                &&& p.active
                &&& in_bounds(p.position.0 as int, p.position.1 as int)
                &&& p.position.1 * 4 + p.position.0 < n
                &&& data[p.position.1 * 4 + p.position.0] != 0
                &&& p.side == (if data[p.position.1 * 4 + p.position.0] == 1 {
                    Side::Black
                } else {
                    Side::White
                })
            },
        forall|t1: int, t2: int|
            0 <= t1 < t2 < loaded_pieces(data, n).len()
                ==> #[trigger] loaded_pieces(data, n)[t1].position.1 * 4 + loaded_pieces(
                data,
                n,
            )[t1].position.0 < #[trigger] loaded_pieces(data, n)[t2].position.1 * 4
                + loaded_pieces(data, n)[t2].position.0,
        forall|c: int|
            0 <= c < n && data[c] != 0 ==> exists|t: int|
                0 <= t < loaded_pieces(data, n).len() && (#[trigger] loaded_pieces(
                    data,
                    n,
                )[t]).position.1 * 4 + loaded_pieces(data, n)[t].position.0 == c,
    decreases n,
{
    if n > 0 {
        lemma_loaded_pieces_facts(data, n - 1);
        if data[n - 1] != 0 {
            let p = loaded_piece(data, n - 1);
            assert(p.position.0 == (n - 1) % 4 && p.position.1 == (n - 1) / 4);
            assert(p.position.1 * 4 + p.position.0 == n - 1);
        }
        let cur = loaded_pieces(data, n);
        let prev = loaded_pieces(data, n - 1);
        assert forall|c: int| 0 <= c < n && data[c] != 0 implies exists|t: int|
            0 <= t < cur.len() && (#[trigger] cur[t]).position.1 * 4 + cur[t].position.0
                == c by {
            if c == n - 1 {
                assert(cur[cur.len() - 1] == loaded_piece(data, n - 1));
                assert(cur[cur.len() - 1].position.1 * 4 + cur[cur.len() - 1].position.0 == c);
            } else {
                let t = choose|t: int|
                    0 <= t < prev.len() && (#[trigger] prev[t]).position.1 * 4
                        + prev[t].position.0 == c;
                assert(cur[t] == prev[t]);
                assert(cur[t].position.1 * 4 + cur[t].position.0 == c);
            }
        }
    }
}

/// Loading save data and capturing the result again yields the same
/// occupancy array, code for code, whenever every code is one the format
/// defines.
pub proof fn lemma_save_load_round_trip(data: Seq<u8>)
    requires
        data.len() == 16,
        forall|c: int| 0 <= c < 16 ==> #[trigger] data[c] <= 2,
    ensures
        occupancy_ok(loaded_pieces(data, 16), data),
{
    let b = loaded_pieces(data, 16);
    lemma_loaded_pieces_facts(data, 16);
    lemma_loaded_wf(data);
    assert forall|c: int| 0 <= c < 16 implies data[c] == cell_code(
        b,
        (c % 4) as u8,
        (c / 4) as u8,
    ) by {
        let x = (c % 4) as u8;
        let y = (c / 4) as u8;
        assert(x as int == c % 4 && y as int == c / 4);
        if data[c] == 0 {
            assert(!occupied(b, x, y)) by {
                if occupied(b, x, y) {
                    let i = choose|i: int| crate::board::active_at(b, i, x, y);
                    assert(b[i].position.1 * 4 + b[i].position.0 == c);
                    assert(data[c] != 0);
                }
            }
        } else {
            let t = choose|t: int|
                0 <= t < b.len() && (#[trigger] b[t]).position.1 * 4 + b[t].position.0 == c;
            assert(b[t].position.0 == x && b[t].position.1 == y) by {
                assert(in_bounds(b[t].position.0 as int, b[t].position.1 as int));
            }
            assert(crate::board::active_at(b, t, x, y));
            crate::board::lemma_cell_idx(b, x, y, t);
            assert(at_cell(b, x, y) == b[t]);
            assert(data[b[t].position.1 * 4 + b[t].position.0] != 0);
            if data[c] == 1 {
                assert(b[t].side == Side::Black);
            } else {
                assert(data[c] == 2);
                assert(b[t].side == Side::White);
            }
        }
    }
}

/// A reconstructed board is well-formed.
pub proof fn lemma_loaded_wf(data: Seq<u8>)
    requires
        data.len() == 16,
    ensures
        wf(loaded_pieces(data, 16)),
{
    let b = loaded_pieces(data, 16);
    lemma_loaded_pieces_facts(data, 16);
    assert forall|i: int, j: int| 0 <= i < j < b.len() implies b[i].id != b[j].id by {
        assert(b[i].id == i + 1 && b[j].id == j + 1);
    }
    assert forall|i: int, j: int|
        0 <= i < b.len() && 0 <= j < b.len() && i != j && b[i].active
            && b[j].active implies b[i].position != b[j].position by {
        if i < j {
            assert(b[i].position.1 * 4 + b[i].position.0 < b[j].position.1 * 4
                + b[j].position.0);
        } else {
            assert(b[j].position.1 * 4 + b[j].position.0 < b[i].position.1 * 4
                + b[i].position.0);
        }
    }
}

/// Rebuilds a board from save data: each nonzero cell becomes a fresh piece
/// with a sequential id, 1 for Black and anything else for White. Fails,
/// exactly, on an unsupported version or an array that does not hold one code
/// per cell.
pub fn load_game(save_data: &SaveData) -> (r: Result<(Board, Side), GameError>)
    ensures
        r.is_ok() <==> save_data.version == SAVE_VERSION && save_data.board@.len() == 16,
        r matches Ok(p) ==> p.0@ == loaded_pieces(save_data.board@, 16) && wf(p.0@) && p.1
            == save_data.player_side,
        r matches Err(e) ==> e == GameError::InvalidSaveData,
{
    if save_data.version != SAVE_VERSION {
        return Err(GameError::InvalidSaveData);
    }
    if save_data.board.len() != 16 {
        return Err(GameError::InvalidSaveData);
    }
    let ghost data = save_data.board@;
    let mut pieces: Vec<Piece> = Vec::new();
    let mut piece_id: u8 = 1;
    let mut c: usize = 0;
    while c < 16
        invariant
            data == save_data.board@,
            data.len() == 16,
            0 <= c <= 16,
            pieces@ == loaded_pieces(data, c as int),
            piece_id == nonzero_count(data, c as int) + 1,
        decreases 16 - c,
    {
        proof {
            lemma_loaded_pieces_facts(data, c as int);
        }
        let cell = save_data.board[c];
        if cell != 0 {
            let x = (c % 4) as u8;
            let y = (c / 4) as u8;
            let side = if cell == 1 {
                Side::Black
            } else {
                Side::White
            };
            pieces.push(
                Piece { id: piece_id, side, position: (x, y), state: PieceState::Idle, active: true },
            );
            piece_id = piece_id + 1;
            proof {
                assert(pieces@ =~= loaded_pieces(data, c + 1));
            }
        } else {
            proof {
                assert(pieces@ =~= loaded_pieces(data, c + 1));
            }
        }
        c = c + 1;
    }
    proof {
        lemma_loaded_wf(data);
    }
    Ok((Board { pieces }, save_data.player_side))
}

/// Whether the board is exactly the 12-piece starting position: six Black
/// pieces on the bottom rows' standard cells, six White mirrored on top, and
/// nothing else active.
pub open spec fn spec_initial_position(b: Seq<Piece>) -> bool {
    &&& count_active_side(b, Side::Black) == 6
    &&& count_active_side(b, Side::White) == 6
    &&& forall|c: int|
        0 <= c < 16 ==> #[trigger] cell_code(
            b,
            (c % 4) as u8,
            (c / 4) as u8,
        ) == initial_cell_code(c)
}

/// The cell codes of the starting position, indexed y * 4 + x.
pub open spec fn initial_cell_code(c: int) -> u8 {
    if c < 4 {
        1u8
    } else if c == 4 || c == 7 {
        1u8
    } else if c == 8 || c == 11 {
        2u8
    } else if c >= 12 {
        2u8
    } else {
        0u8
    }
}

/// Whether the board stands in the exact starting position.
pub fn is_initial_position(board: &Board) -> (r: bool)
    requires
        wf(board@),
    ensures
        r == spec_initial_position(board@),
{
    if !(board.count_active(Side::Black) == 6 && board.count_active(Side::White) == 6) {
        return false;
    }
    let mut c: usize = 0;
    while c < 16
        invariant
            wf(board@),
            0 <= c <= 16,
            forall|t: int|
                0 <= t < c ==> #[trigger] cell_code(
                    board@,
                    (t % 4) as u8,
                    (t / 4) as u8,
                ) == initial_cell_code(t),
        decreases 16 - c,
    {
        let x = (c % 4) as u8;
        let y = (c / 4) as u8;
        let code = match board.piece_at(x, y) {
            Some(p) => {
                if p.side == Side::Black {
                    1
                } else {
                    2
                }
            },
            None => 0,
        };
        let expected = if c < 4 {
            1
        } else if c == 4 || c == 7 {
            1
        } else if c == 8 || c == 11 {
            2
        } else if c >= 12 {
            2
        } else {
            0
        };
        if code != expected {
            proof {
                assert((c as int) % 4 == x as int && (c as int) / 4 == y as int);
                assert(code == cell_code(board@, x, y));
                assert(expected == initial_cell_code(c as int));
                assert(!spec_initial_position(board@));
            }
            return false;
        }
        c = c + 1;
    }
    true
}

} // verus!
