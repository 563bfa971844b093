//! The board: all piece records, spatial queries, and move execution / undo.
//!
//! The spec-level model is a sequence of `Piece` records. A well-formed board
//! has pairwise distinct ids, and its active pieces sit on distinct in-bounds
//! cells of the 4x4 grid; every operation here states its effect exactly over
//! that model.

use vstd::prelude::*;
use crate::error::GameError;
use crate::piece::{initial_pieces, spec_initial_pieces, Piece, Side};
use crate::rules::captured_ids;

verus! {

/// Width and height of the grid of intersections.
pub const BOARD_SIZE: u8 = 4;

/// Whether (x, y) lies on the 4x4 grid.
pub open spec fn in_bounds(x: int, y: int) -> bool {
    0 <= x < 4 && 0 <= y < 4
}

/// Index `i` holds an active piece standing on cell (x, y).
pub open spec fn active_at(b: Seq<Piece>, i: int, x: u8, y: u8) -> bool {
    0 <= i < b.len() && b[i].active && b[i].position.0 == x && b[i].position.1 == y
}

/// Some active piece stands on cell (x, y).
pub open spec fn occupied(b: Seq<Piece>, x: u8, y: u8) -> bool {
    exists|i: int| active_at(b, i, x, y)
}

/// The index of the active piece on cell (x, y); meaningful when `occupied`
/// holds and, under `placement_ok`, unique.
pub open spec fn cell_idx(b: Seq<Piece>, x: u8, y: u8) -> int {
    choose|i: int| active_at(b, i, x, y)
}

/// The active piece standing on cell (x, y).
pub open spec fn at_cell(b: Seq<Piece>, x: u8, y: u8) -> Piece {
    b[cell_idx(b, x, y)]
}

/// Some record (active or not) carries this id.
pub open spec fn has_id(b: Seq<Piece>, id: u8) -> bool {
    exists|i: int| 0 <= i < b.len() && b[i].id == id
}

/// The index of the record with this id; under `ids_unique`, unique.
pub open spec fn id_idx(b: Seq<Piece>, id: u8) -> int {
    choose|i: int| 0 <= i < b.len() && b[i].id == id
}

/// The record with this id.
pub open spec fn by_id(b: Seq<Piece>, id: u8) -> Piece {
    b[id_idx(b, id)]
}

/// Piece ids are pairwise distinct.
pub open spec fn ids_unique(b: Seq<Piece>) -> bool {
    forall|i: int, j: int| 0 <= i < j < b.len() ==> b[i].id != b[j].id
}

/// Active pieces stand on distinct, in-bounds cells.
pub open spec fn placement_ok(b: Seq<Piece>) -> bool {
    &&& forall|i: int|
        0 <= i < b.len() && b[i].active ==> in_bounds(
            #[trigger] b[i].position.0 as int,
            b[i].position.1 as int,
        )
    &&& forall|i: int, j: int|
        0 <= i < b.len() && 0 <= j < b.len() && i != j && b[i].active && b[j].active
            ==> #[trigger] b[i].position != #[trigger] b[j].position
}

/// A well-formed board: unique ids, active pieces on distinct in-bounds cells,
/// and no more records than the grid has cells.
pub open spec fn wf(b: Seq<Piece>) -> bool {
    ids_unique(b) && placement_ok(b) && b.len() <= 16
}

/// How many pieces of `side` are still on the board.
pub open spec fn count_active_side(b: Seq<Piece>, side: Side) -> nat
    decreases b.len(),
{
    if b.len() == 0 {
        0
    } else {
        count_active_side(b.drop_last(), side) + (if b.last().active && b.last().side == side {
            1nat
        } else {
            0nat
        })
    }
}

/// Either side is down to exactly one active piece; this switches the capture
/// rule from two-vs-one to the single-piece carry.
pub open spec fn single_mode(b: Seq<Piece>) -> bool {
    count_active_side(b, Side::Black) == 1 || count_active_side(b, Side::White) == 1
}

/// Under `placement_ok`, the occupant of a cell is unique, so any witness
/// index is the chosen one.
pub proof fn lemma_cell_idx(b: Seq<Piece>, x: u8, y: u8, i: int)
    requires
        placement_ok(b),
        active_at(b, i, x, y),
    ensures
        cell_idx(b, x, y) == i,
        at_cell(b, x, y) == b[i],
        occupied(b, x, y),
{
    let j = cell_idx(b, x, y);
    assert(active_at(b, j, x, y));
    if i != j {
        assert(b[i].position == b[j].position);
        assert(false);
    }
}

/// Under `ids_unique`, the record with a given id is unique, so any witness
/// index is the chosen one.
pub proof fn lemma_id_idx(b: Seq<Piece>, id: u8, i: int)
    requires
        ids_unique(b),
        0 <= i < b.len(),
        b[i].id == id,
    ensures
        id_idx(b, id) == i,
        by_id(b, id) == b[i],
        has_id(b, id),
{
    let j = id_idx(b, id);
    assert(0 <= j < b.len() && b[j].id == id);
}

pub proof fn lemma_count_le_len(b: Seq<Piece>, side: Side)
    ensures
        count_active_side(b, side) <= b.len(),
    decreases b.len(),
{
    if b.len() > 0 {
        lemma_count_le_len(b.drop_last(), side);
    }
}

/// The count is zero exactly when no active piece of the side exists.
pub proof fn lemma_count_zero(b: Seq<Piece>, side: Side)
    ensures
        (count_active_side(b, side) == 0) <==> (forall|i: int|
            0 <= i < b.len() ==> !(#[trigger] b[i].active && b[i].side == side)),
    decreases b.len(),
{
    if b.len() > 0 {
        lemma_count_zero(b.drop_last(), side);
        assert(forall|i: int| 0 <= i < b.len() - 1 ==> b.drop_last()[i] == b[i]);
        if count_active_side(b, side) == 0 {
            assert(forall|i: int|
                0 <= i < b.len() ==> !(#[trigger] b[i].active && b[i].side == side)) by {
                assert(forall|i: int|
                    0 <= i < b.len() - 1 ==> !(#[trigger] b.drop_last()[i].active
                        && b.drop_last()[i].side == side));
            }
        }
    }
}

/// One active piece of a side pushes its count to at least one.
pub proof fn lemma_count_witness(b: Seq<Piece>, side: Side, i: int)
    requires
        0 <= i < b.len(),
        b[i].active,
        b[i].side == side,
    ensures
        count_active_side(b, side) >= 1,
    decreases b.len(),
{
    if i == b.len() - 1 {
    } else {
        lemma_count_witness(b.drop_last(), side, i);
    }
}

/// Two distinct active pieces of a side push its count to at least two.
pub proof fn lemma_count_two(b: Seq<Piece>, side: Side, i: int, j: int)
    requires
        0 <= i < b.len(),
        0 <= j < b.len(),
        i != j,
        b[i].active && b[i].side == side,
        b[j].active && b[j].side == side,
    ensures
        count_active_side(b, side) >= 2,
    decreases b.len(),
{
    if i == b.len() - 1 {
        lemma_count_witness(b.drop_last(), side, j);
    } else if j == b.len() - 1 {
        lemma_count_witness(b.drop_last(), side, i);
    } else {
        lemma_count_two(b.drop_last(), side, i, j);
    }
}

/// A positive count names a witness.
pub proof fn lemma_count_nonzero_witness(b: Seq<Piece>, side: Side)
    requires
        count_active_side(b, side) >= 1,
    ensures
        exists|i: int| 0 <= i < b.len() && #[trigger] b[i].active && b[i].side == side,
{
    lemma_count_zero(b, side);
    if forall|i: int| 0 <= i < b.len() ==> !(#[trigger] b[i].active && b[i].side == side) {
        assert(count_active_side(b, side) == 0);
    }
}

/// The board.
#[derive(Debug)]
pub struct Board {
    /// Every piece record, captured ones included (they stay, inactive, so an
    /// undo can restore them exactly).
    pub pieces: Vec<Piece>,
}

impl View for Board {
    type V = Seq<Piece>;

    open spec fn view(&self) -> Seq<Piece> {
        self.pieces@
    }
}

impl Clone for Board {
    /// An exact copy of the board; the clone shows the same piece sequence.
    fn clone(&self) -> (r: Board)
        ensures
            r@ == self@,
    {
        let n = self.pieces.len();
        let mut pieces: Vec<Piece> = Vec::new();
        let mut i: usize = 0;
        while i < n
            invariant
                n == self@.len(),
                0 <= i <= n,
                pieces@ == self@.take(i as int),
            decreases n - i,
        {
            pieces.push(self.pieces[i]);
            proof {
                assert(pieces@ =~= self@.take(i + 1));
            }
            i = i + 1;
        }
        proof {
            assert(self@.take(n as int) =~= self@);
        }
        Board { pieces }
    }
}

impl Board {
    /// A board with no pieces at all.
    pub fn empty() -> (r: Board)
        ensures
            r@ == Seq::<Piece>::empty(),
    {
        let r = Board { pieces: Vec::new() };
        proof {
            assert(r@ =~= Seq::<Piece>::empty());
        }
        r
    }

    /// The standard starting position.
    pub fn initial() -> (r: Board)
        ensures
            r@ == spec_initial_pieces(),
            wf(r@),
    {
        let r = Board { pieces: initial_pieces() };
        proof {
            lemma_initial_wf();
        }
        r
    }

    /// The active piece standing on (x, y), if any.
    pub fn piece_at(&self, x: u8, y: u8) -> (r: Option<&Piece>)
        ensures
            r.is_some() <==> occupied(self@, x, y),
            r matches Some(p) ==> p.active && p.position.0 == x && p.position.1 == y
                && exists|i: int| 0 <= i < self@.len() && self@[i] == *p,
            placement_ok(self@) ==> (r matches Some(p) ==> *p == at_cell(self@, x, y)),
    {
        let n = self.pieces.len();
        let mut i: usize = 0;
        while i < n
            invariant
                n == self@.len(),
                0 <= i <= n,
                forall|k: int| 0 <= k < i ==> !active_at(self@, k, x, y),
            decreases n - i,
        {
            let p = &self.pieces[i];
            if p.active && p.position.0 == x && p.position.1 == y {
                proof {
                    assert(active_at(self@, i as int, x, y));
                    if placement_ok(self@) {
                        lemma_cell_idx(self@, x, y, i as int);
                    }
                }
                return Some(p);
            }
            i = i + 1;
        }
        proof {
            assert(forall|k: int| !active_at(self@, k, x, y));
        }
        None
    }

    /// The record with the given id, active or not, if present.
    pub fn piece_by_id(&self, id: u8) -> (r: Option<&Piece>)
        ensures
            r.is_some() <==> has_id(self@, id),
            r matches Some(p) ==> p.id == id && exists|i: int|
                0 <= i < self@.len() && self@[i] == *p,
            ids_unique(self@) ==> (r matches Some(p) ==> *p == by_id(self@, id)),
    {
        let n = self.pieces.len();
        let mut i: usize = 0;
        while i < n
            invariant
                n == self@.len(),
                0 <= i <= n,
                forall|k: int| 0 <= k < i ==> self@[k].id != id,
            decreases n - i,
        {
            let p = &self.pieces[i];
            if p.id == id {
                proof {
                    if ids_unique(self@) {
                        lemma_id_idx(self@, id, i as int);
                    }
                }
                return Some(p);
            }
            i = i + 1;
        }
        None
    }

    /// Bounds check against the 4x4 grid; signed so callers can probe
    /// neighbours without guarding first.
    pub fn is_valid_pos(x: i8, y: i8) -> (r: bool)
        ensures
            r == in_bounds(x as int, y as int),
    {
        x >= 0 && x < 4 && y >= 0 && y < 4
    }

    /// Whether no active piece stands on (x, y).
    pub fn is_empty(&self, x: u8, y: u8) -> (r: bool)
        ensures
            r == !occupied(self@, x, y),
    {
        self.piece_at(x, y).is_none()
    }

    /// The active pieces of a side, in board order.
    pub fn active_pieces_of(&self, side: Side) -> (r: Vec<Piece>)
        ensures
            r@ == self@.filter(|p: Piece| p.active && p.side == side),
    {
        let n = self.pieces.len();
        let mut r: Vec<Piece> = Vec::new();
        let mut i: usize = 0;
        while i < n
            invariant
                n == self@.len(),
                0 <= i <= n,
                r@ == self@.take(i as int).filter(|p: Piece| p.active && p.side == side),
            decreases n - i,
        {
            let p = self.pieces[i];
            proof {
                reveal_with_fuel(Seq::filter, 2);
                assert(self@.take(i + 1).drop_last() =~= self@.take(i as int));
                assert(self@.take(i + 1).last() == self@[i as int]);
            }
            if p.active && p.side == side {
                r.push(p);
            }
            i = i + 1;
        }
        proof {
            assert(self@.take(n as int) =~= self@);
        }
        r
    }

    /// How many pieces of a side are still on the board.
    pub fn count_active(&self, side: Side) -> (r: usize)
        ensures
            r == count_active_side(self@, side),
    {
        let n = self.pieces.len();
        let mut r: usize = 0;
        let mut i: usize = 0;
        while i < n
            invariant
                n == self@.len(),
                0 <= i <= n,
                r == count_active_side(self@.take(i as int), side),
                r <= i,
            decreases n - i,
        {
            let p = &self.pieces[i];
            proof {
                assert(self@.take(i + 1).drop_last() =~= self@.take(i as int));
                assert(self@.take(i + 1).last() == self@[i as int]);
            }
            if p.active && p.side == side {
                r = r + 1;
            }
            i = i + 1;
        }
        proof {
            assert(self@.take(n as int) =~= self@);
        }
        r
    }

    /// Whether either side is down to exactly one active piece.
    pub fn is_single_piece_mode(&self) -> (r: bool)
        ensures
            r == single_mode(self@),
    {
        self.count_active(Side::Black) == 1 || self.count_active(Side::White) == 1
    }
}

/// The fixed starting layout is well-formed.
pub proof fn lemma_initial_wf()
    ensures
        wf(spec_initial_pieces()),
{
    let b = spec_initial_pieces();
    assert forall|i: int, j: int| 0 <= i < j < b.len() implies b[i].id != b[j].id by {
        assert(b.len() == 12);
    }
    assert forall|i: int, j: int|
        0 <= i < b.len() && 0 <= j < b.len() && i != j && b[i].active && b[j].active implies b[i].position
        != b[j].position by {
        assert(b.len() == 12);
    }
    assert forall|i: int| 0 <= i < b.len() && b[i].active implies in_bounds(
        #[trigger] b[i].position.0 as int,
        b[i].position.1 as int,
    ) by {
        assert(b.len() == 12);
    }
}

// ------------------------------------------------------------------
// Move records and the move / undo model
// ------------------------------------------------------------------

/// One captured piece: its id and where it stood when it was taken.
#[derive(Debug, Clone, Copy, PartialEq, Eq)]
pub struct CapturedRecord {
    pub piece_id: u8,
    /// The cell the piece stood on at capture time; undo puts it back there.
    pub position: (u8, u8),
}

/// Everything needed to invert one executed half-move.
#[derive(Debug)]
pub struct MoveRecord {
    /// The id of the piece that moved.
    pub piece_id: u8,
    /// Where it came from.
    pub from: (u8, u8),
    /// Where it went.
    pub to: (u8, u8),
    /// Every piece the move captured.
    pub captured: Vec<CapturedRecord>,
    /// Whether the board was in single-piece mode before the move.
    pub was_single_piece_mode: bool,
    /// The side that moved.
    pub side: Side,
}

/// The board with the piece on `from` relocated to `to`.
pub open spec fn board_after_relocate(b: Seq<Piece>, from: (u8, u8), to: (u8, u8)) -> Seq<Piece> {
    let i = cell_idx(b, from.0, from.1);
    let p = b[i];
    b.update(i, Piece { id: p.id, side: p.side, position: to, state: p.state, active: p.active })
}

/// The board with every piece whose id is listed made inactive.
pub open spec fn deactivate_ids(b: Seq<Piece>, ids: Seq<u8>) -> Seq<Piece> {
    Seq::new(
        b.len(),
        |j: int|
            if ids.contains(b[j].id) {
                Piece {
                    id: b[j].id,
                    side: b[j].side,
                    position: b[j].position,
                    state: b[j].state,
                    active: false,
                }
            } else {
                b[j]
            },
    )
}

/// The ids a move from `from` to `to` captures: capture resolution runs on
/// the board as it stands after the relocation.
pub open spec fn move_captured_ids(b: Seq<Piece>, from: (u8, u8), to: (u8, u8)) -> Seq<u8> {
    captured_ids(board_after_relocate(b, from, to), at_cell(b, from.0, from.1).id)
}

/// The capture records for a list of victim ids on (post-relocation) board
/// `b`: each id with the cell its piece stands on.
pub open spec fn spec_captured_records(b: Seq<Piece>, ids: Seq<u8>) -> Seq<CapturedRecord> {
    Seq::new(
        ids.len(),
        |k: int| CapturedRecord { piece_id: ids[k], position: by_id(b, ids[k]).position },
    )
}

/// The capture records a move from `from` to `to` produces.
pub open spec fn move_captured_records(b: Seq<Piece>, from: (u8, u8), to: (u8, u8)) -> Seq<
    CapturedRecord,
> {
    spec_captured_records(board_after_relocate(b, from, to), move_captured_ids(b, from, to))
}

/// The whole effect of a move on the board: relocate the piece on `from` to
/// `to`, then deactivate everything the move captures.
pub open spec fn spec_execute(b: Seq<Piece>, from: (u8, u8), to: (u8, u8)) -> Seq<Piece> {
    let b1 = board_after_relocate(b, from, to);
    deactivate_ids(b1, captured_ids(b1, at_cell(b, from.0, from.1).id))
}

/// The board with the piece of the given id (if present) put back on `pos`
/// and reactivated.
pub open spec fn restore_one(b: Seq<Piece>, id: u8, pos: (u8, u8)) -> Seq<Piece> {
    if has_id(b, id) {
        let i = id_idx(b, id);
        let p = b[i];
        b.update(i, Piece { id: p.id, side: p.side, position: pos, state: p.state, active: true })
    } else {
        b
    }
}

/// The board with every recorded capture restored, in record order.
pub open spec fn restore_all(b: Seq<Piece>, recs: Seq<CapturedRecord>) -> Seq<Piece>
    decreases recs.len(),
{
    if recs.len() == 0 {
        b
    } else {
        restore_all(restore_one(b, recs[0].piece_id, recs[0].position), recs.drop_first())
    }
}

/// The whole effect of an undo on the board: the moved piece back on `from`
/// and active, then every captured piece back where it was taken, active.
pub open spec fn spec_undo(b: Seq<Piece>, piece_id: u8, from: (u8, u8), recs: Seq<CapturedRecord>) -> Seq<Piece> {
    restore_all(restore_one(b, piece_id, from), recs)
}

/// Restoring a piece never changes ids, sides, states, or the length.
pub proof fn lemma_restore_one_frame(b: Seq<Piece>, id: u8, pos: (u8, u8))
    ensures
        restore_one(b, id, pos).len() == b.len(),
        forall|i: int|
            0 <= i < b.len() ==> (#[trigger] restore_one(b, id, pos)[i]).id == b[i].id
                && restore_one(b, id, pos)[i].side == b[i].side && restore_one(b, id, pos)[i].state
                == b[i].state,
{
}

/// Neither does restoring a whole list of captures.
pub proof fn lemma_restore_all_frame(b: Seq<Piece>, recs: Seq<CapturedRecord>)
    ensures
        restore_all(b, recs).len() == b.len(),
        forall|i: int|
            0 <= i < b.len() ==> (#[trigger] restore_all(b, recs)[i]).id == b[i].id && restore_all(
                b,
                recs,
            )[i].side == b[i].side && restore_all(b, recs)[i].state == b[i].state,
    decreases recs.len(),
{
    if recs.len() > 0 {
        lemma_restore_one_frame(b, recs[0].piece_id, recs[0].position);
        lemma_restore_all_frame(
            restore_one(b, recs[0].piece_id, recs[0].position),
            recs.drop_first(),
        );
    }
}

impl Board {
    /// The index of the active piece standing on (x, y), if any.
    fn find_active_at(&self, x: u8, y: u8) -> (r: Option<usize>)
        ensures
            r.is_some() <==> occupied(self@, x, y),
            r matches Some(i) ==> active_at(self@, i as int, x, y),
            placement_ok(self@) ==> (r matches Some(i) ==> i as int == cell_idx(self@, x, y)),
    {
        let n = self.pieces.len();
        let mut i: usize = 0;
        while i < n
            invariant
                n == self@.len(),
                0 <= i <= n,
                forall|k: int| 0 <= k < i ==> !active_at(self@, k, x, y),
            decreases n - i,
        {
            let p = &self.pieces[i];
            if p.active && p.position.0 == x && p.position.1 == y {
                proof {
                    assert(active_at(self@, i as int, x, y));
                    if placement_ok(self@) {
                        lemma_cell_idx(self@, x, y, i as int);
                    }
                }
                return Some(i);
            }
            i = i + 1;
        }
        None
    }

    /// The index of the record with this id, if present.
    fn find_index_by_id(&self, id: u8) -> (r: Option<usize>)
        ensures
            r.is_some() <==> has_id(self@, id),
            r matches Some(i) ==> 0 <= i < self@.len() && self@[i as int].id == id,
            ids_unique(self@) ==> (r matches Some(i) ==> i as int == id_idx(self@, id)),
    {
        let n = self.pieces.len();
        let mut i: usize = 0;
        while i < n
            invariant
                n == self@.len(),
                0 <= i <= n,
                forall|k: int| 0 <= k < i ==> self@[k].id != id,
            decreases n - i,
        {
            if self.pieces[i].id == id {
                proof {
                    if ids_unique(self@) {
                        lemma_id_idx(self@, id, i as int);
                    }
                }
                return Some(i);
            }
            i = i + 1;
        }
        None
    }

    /// Executes a half-move: relocates the piece standing on `from` to `to`,
    /// resolves captures against the moved board, deactivates every captured
    /// piece, and returns a record that `undo_move` can invert exactly. Fails,
    /// changing nothing, when no active piece stands on `from`. Legality
    /// beyond that is the rules engine's business, but the destination must
    /// keep the board well-formed: an empty in-bounds cell.
    pub fn execute_move(&mut self, from: (u8, u8), to: (u8, u8), side: Side) -> (r: Result<
        MoveRecord,
        GameError,
    >)
        requires
            wf(old(self)@),
            occupied(old(self)@, from.0, from.1) ==> in_bounds(to.0 as int, to.1 as int) && ((to.0
                == from.0 && to.1 == from.1) || !occupied(old(self)@, to.0, to.1)),
        ensures
            wf(final(self)@),
            r.is_ok() <==> occupied(old(self)@, from.0, from.1),
            r matches Err(e) ==> final(self)@ == old(self)@ && e == GameError::NoPieceAtOrigin,
            r matches Ok(rec) ==> final(self)@ == spec_execute(old(self)@, from, to)
                && rec.piece_id == at_cell(old(self)@, from.0, from.1).id && rec.from == from
                && rec.to == to && rec.captured@ == move_captured_records(old(self)@, from, to)
                && rec.was_single_piece_mode == single_mode(old(self)@) && rec.side == side,
    {
        let ghost b0 = self@;
        let was_single = self.is_single_piece_mode();
        let idx = match self.find_active_at(from.0, from.1) {
            Some(i) => i,
            None => {
                return Err(GameError::NoPieceAtOrigin);
            },
        };
        let p = self.pieces[idx];
        let moved = Piece {
            id: p.id,
            side: p.side,
            position: to,
            state: p.state,
            active: p.active,
        };
        self.pieces[idx] = moved;
        let ghost b1 = self@;
        proof {
            assert(b1 =~= board_after_relocate(b0, from, to));
            assert(wf(b1)) by {
                assert forall|i: int, j: int|
                    0 <= i < b1.len() && 0 <= j < b1.len() && i != j && b1[i].active
                        && b1[j].active implies b1[i].position != b1[j].position by {
                    if i == idx as int {
                        assert(!active_at(b0, j, to.0, to.1));
                    } else if j == idx as int {
                        assert(!active_at(b0, i, to.0, to.1));
                    }
                }
            }
            lemma_id_idx(b1, p.id, idx as int);
            lemma_cell_idx(b1, to.0, to.1, idx as int);
            crate::rules::lemma_captured_ids_facts(b1, p.id);
        }
        let captured = crate::rules::calculate_captures(self, p.id);
        let ghost ids = captured_ids(b1, p.id);
        let n = captured.len();
        let mut captured_records: Vec<CapturedRecord> = Vec::new();
        let mut k: usize = 0;
        while k < n
            invariant
                wf(b1),
                has_id(b1, p.id),
                by_id(b1, p.id).active,
                n == ids.len(),
                captured@ == ids,
                0 <= k <= n,
                self@ == deactivate_ids(b1, ids.take(k as int)),
                captured_records@ == spec_captured_records(b1, ids.take(k as int)),
                forall|t: int|
                    0 <= t < ids.len() ==> crate::rules::victim_ok(b1, p.id, #[trigger] ids[t]),
                forall|t1: int, t2: int| 0 <= t1 < t2 < ids.len() ==> ids[t1] != ids[t2],
            decreases n - k,
        {
            proof {
                assert(forall|i: int|
                    0 <= i < b1.len() ==> (#[trigger] self@[i]).id == b1[i].id && self@[i].position
                        == b1[i].position);
            }
            let cid = captured[k];
            let j = match self.find_index_by_id(cid) {
                Some(j) => j,
                None => {
                    proof {
                        let jj = id_idx(b1, cid);
                        assert(self@[jj].id == cid);
                        assert(false);
                    }
                    return Err(GameError::NoPieceAtOrigin);
                },
            };
            let q = self.pieces[j];
            captured_records.push(CapturedRecord { piece_id: cid, position: q.position });
            let dead = Piece {
                id: q.id,
                side: q.side,
                position: q.position,
                state: q.state,
                active: false,
            };
            self.pieces[j] = dead;
            proof {
                assert(ids_unique(self@));
                lemma_id_idx(b1, cid, j as int);
                assert(ids.take(k + 1).drop_last() =~= ids.take(k as int));
                assert(ids.take(k + 1).last() == ids[k as int]);
                assert forall|i: int| 0 <= i < b1.len() implies self@[i] == deactivate_ids(
                    b1,
                    ids.take(k + 1),
                )[i] by {
                    if i != j as int {
                        assert(ids.take(k + 1).contains(b1[i].id) == ids.take(k as int).contains(
                            b1[i].id,
                        )) by {
                            if ids.take(k + 1).contains(b1[i].id) && !ids.take(
                                k as int,
                            ).contains(b1[i].id) {
                                let t = choose|t: int|
                                    0 <= t < k + 1 && #[trigger] ids.take(k + 1)[t] == b1[i].id;
                                assert(t == k);
                                assert(b1[i].id == cid);
                                assert(i == j as int);
                            }
                        }
                    } else {
                        assert(ids.take(k + 1).contains(b1[j as int].id)) by {
                            assert(ids.take(k + 1)[k as int] == cid);
                        }
                    }
                }
                assert(self@ =~= deactivate_ids(b1, ids.take(k + 1)));
                assert(captured_records@ =~= spec_captured_records(b1, ids.take(k + 1)));
            }
            k = k + 1;
        }
        proof {
            assert(ids.take(n as int) =~= ids);
            assert(self@ == deactivate_ids(b1, ids));
            assert(self@ =~= spec_execute(b0, from, to));
            assert(captured_records@ == spec_captured_records(b1, ids));
            assert(captured_records@ == move_captured_records(b0, from, to));
            assert(wf(self@)) by {
                assert forall|i: int, j: int|
                    0 <= i < self@.len() && 0 <= j < self@.len() && i != j && self@[i].active
                        && self@[j].active implies self@[i].position != self@[j].position by {
                    assert(self@[i] == deactivate_ids(b1, ids)[i]);
                    assert(self@[j] == deactivate_ids(b1, ids)[j]);
                }
                assert forall|i: int| 0 <= i < self@.len() && self@[i].active implies in_bounds(
                    #[trigger] self@[i].position.0 as int,
                    self@[i].position.1 as int,
                ) by {
                    assert(self@[i] == deactivate_ids(b1, ids)[i]);
                }
            }
        }
        Ok(
            MoveRecord {
                piece_id: p.id,
                from,
                to,
                captured: captured_records,
                was_single_piece_mode: was_single,
                side,
            },
        )
    }

    /// Undoes a recorded half-move: the moved piece goes back to its origin
    /// cell and is reactivated, and every captured piece is reactivated on
    /// the cell it was taken from, in record order.
    pub fn undo_move(&mut self, record: &MoveRecord) -> (r: Result<(), GameError>)
        requires
            ids_unique(old(self)@),
        ensures
            r.is_ok(),
            final(self)@ == spec_undo(old(self)@, record.piece_id, record.from, record.captured@),
            ids_unique(final(self)@),
            final(self)@.len() == old(self)@.len(),
    {
        let ghost b0 = self@;
        match self.find_index_by_id(record.piece_id) {
            Some(i) => {
                let p = self.pieces[i];
                let restored = Piece {
                    id: p.id,
                    side: p.side,
                    position: record.from,
                    state: p.state,
                    active: true,
                };
                self.pieces[i] = restored;
                proof {
                    assert(self@ =~= restore_one(b0, record.piece_id, record.from));
                }
            },
            None => {
                proof {
                    assert(self@ =~= restore_one(b0, record.piece_id, record.from));
                }
            },
        }
        let ghost bm = self@;
        proof {
            lemma_restore_one_frame(b0, record.piece_id, record.from);
            assert(ids_unique(bm));
        }
        let recs = &record.captured;
        let n = recs.len();
        proof {
            assert(recs@.skip(0) =~= recs@);
        }
        let mut k: usize = 0;
        while k < n
            invariant
                n == recs@.len(),
                0 <= k <= n,
                self@.len() == bm.len(),
                ids_unique(self@),
                forall|i: int| 0 <= i < bm.len() ==> (#[trigger] self@[i]).id == bm[i].id,
                restore_all(self@, recs@.skip(k as int)) == restore_all(bm, recs@),
            decreases n - k,
        {
            let cid = recs[k].piece_id;
            let pos = recs[k].position;
            let ghost before = self@;
            match self.find_index_by_id(cid) {
                Some(j) => {
                    let q = self.pieces[j];
                    let restored = Piece {
                        id: q.id,
                        side: q.side,
                        position: pos,
                        state: q.state,
                        active: true,
                    };
                    self.pieces[j] = restored;
                    proof {
                        assert(self@ =~= restore_one(before, cid, pos));
                    }
                },
                None => {
                    proof {
                        assert(self@ =~= restore_one(before, cid, pos));
                    }
                },
            }
            proof {
                lemma_restore_one_frame(before, cid, pos);
                assert(recs@.skip(k as int)[0] == recs@[k as int]);
                assert(recs@.skip(k as int).drop_first() =~= recs@.skip(k + 1));
                assert(restore_all(before, recs@.skip(k as int)) == restore_all(
                    self@,
                    recs@.skip(k + 1),
                ));
            }
            k = k + 1;
        }
        proof {
            assert(recs@.skip(n as int) =~= Seq::<CapturedRecord>::empty());
            assert(restore_all(self@, recs@.skip(n as int)) == self@);
            assert(self@ == spec_undo(b0, record.piece_id, record.from, record.captured@));
        }
        Ok(())
    }
}

// ------------------------------------------------------------------
// The round-trip law: undo inverts execute exactly
// ------------------------------------------------------------------

/// Some record in the list names this id.
pub open spec fn recs_contain_id(recs: Seq<CapturedRecord>, id: u8) -> bool {
    exists|k: int| 0 <= k < recs.len() && (#[trigger] recs[k]).piece_id == id
}

/// Relocating the occupant of `from` to an empty in-bounds cell keeps the
/// board well-formed and changes nothing but that piece's position.
pub proof fn lemma_relocate_wf(b: Seq<Piece>, from: (u8, u8), to: (u8, u8))
    requires
        wf(b),
        occupied(b, from.0, from.1),
        in_bounds(to.0 as int, to.1 as int),
        (to.0 == from.0 && to.1 == from.1) || !occupied(b, to.0, to.1),
    ensures
        wf(board_after_relocate(b, from, to)),
        board_after_relocate(b, from, to).len() == b.len(),
        forall|i: int|
            0 <= i < b.len() && i != cell_idx(b, from.0, from.1)
                ==> #[trigger] board_after_relocate(b, from, to)[i] == b[i],
        forall|i: int|
            0 <= i < b.len() ==> (#[trigger] board_after_relocate(b, from, to)[i]).id == b[i].id
                && board_after_relocate(b, from, to)[i].side == b[i].side
                && board_after_relocate(b, from, to)[i].state == b[i].state
                && board_after_relocate(b, from, to)[i].active == b[i].active,
        board_after_relocate(b, from, to)[cell_idx(b, from.0, from.1)].position == to,
        active_at(board_after_relocate(b, from, to), cell_idx(b, from.0, from.1), to.0, to.1),
{
    let ip = cell_idx(b, from.0, from.1);
    assert(active_at(b, ip, from.0, from.1));
    let b1 = board_after_relocate(b, from, to);
    assert(wf(b1)) by {
        assert forall|i: int, j: int|
            0 <= i < b1.len() && 0 <= j < b1.len() && i != j && b1[i].active
                && b1[j].active implies b1[i].position != b1[j].position by {
            if i == ip {
                assert(!active_at(b, j, to.0, to.1));
            } else if j == ip {
                assert(!active_at(b, i, to.0, to.1));
            }
        }
    }
}

/// A move onto an empty in-bounds cell leaves the board well-formed: the
/// relocation does, and deactivating the captured pieces only shrinks the
/// active set.
pub proof fn lemma_spec_execute_wf(b: Seq<Piece>, from: (u8, u8), to: (u8, u8))
    requires
        wf(b),
        occupied(b, from.0, from.1),
        in_bounds(to.0 as int, to.1 as int),
        (to.0 == from.0 && to.1 == from.1) || !occupied(b, to.0, to.1),
    ensures
        wf(spec_execute(b, from, to)),
        spec_execute(b, from, to).len() == b.len(),
{
    lemma_relocate_wf(b, from, to);
    let b1 = board_after_relocate(b, from, to);
    let b2 = deactivate_ids(b1, captured_ids(b1, at_cell(b, from.0, from.1).id));
    assert forall|i: int, j: int|
        0 <= i < b2.len() && 0 <= j < b2.len() && i != j && b2[i].active
            && b2[j].active implies b2[i].position != b2[j].position by {
        assert(b1[i].active && b1[j].active);
        assert(b2[i].position == b1[i].position && b2[j].position == b1[j].position);
    }
    assert forall|i: int| 0 <= i < b2.len() && b2[i].active implies in_bounds(
        #[trigger] b2[i].position.0 as int,
        b2[i].position.1 as int,
    ) by {
        assert(b1[i].active && b2[i].position == b1[i].position);
    }
    assert forall|i: int, j: int| 0 <= i < j < b2.len() implies b2[i].id != b2[j].id by {
        assert(b2[i].id == b1[i].id && b2[j].id == b1[j].id);
    }
}

/// Restoring the listed captures on `cur` recovers `orig` exactly, provided
/// `cur` agrees with `orig` everywhere but on the listed pieces, and each
/// record names a distinct piece of `orig`, active there, on its recorded
/// cell.
proof fn lemma_restore_all_undoes(orig: Seq<Piece>, cur: Seq<Piece>, recs: Seq<CapturedRecord>)
    requires
        ids_unique(orig),
        cur.len() == orig.len(),
        forall|i: int| 0 <= i < orig.len() ==> (#[trigger] cur[i]).id == orig[i].id,
        forall|k1: int, k2: int|
            0 <= k1 < k2 < recs.len() ==> recs[k1].piece_id != recs[k2].piece_id,
        forall|k: int| 0 <= k < recs.len() ==> has_id(orig, (#[trigger] recs[k]).piece_id),
        forall|i: int, k: int|
            0 <= i < orig.len() && 0 <= k < recs.len() && (#[trigger] recs[k]).piece_id == (
            #[trigger] orig[i]).id ==> orig[i].active && recs[k].position == orig[i].position
                && cur[i].side == orig[i].side && cur[i].state == orig[i].state,
        forall|i: int|
            0 <= i < orig.len() && !recs_contain_id(recs, (#[trigger] orig[i]).id) ==> cur[i]
                == orig[i],
    ensures
        restore_all(cur, recs) == orig,
    decreases recs.len(),
{
    assert(ids_unique(cur));
    if recs.len() == 0 {
        assert forall|i: int| 0 <= i < orig.len() implies cur[i] == orig[i] by {
            assert(!recs_contain_id(recs, orig[i].id));
        }
        assert(cur =~= orig);
    } else {
        let r0 = recs[0];
        let id0 = r0.piece_id;
        assert(has_id(orig, id0));
        let i0 = id_idx(orig, id0);
        assert(0 <= i0 < orig.len() && orig[i0].id == id0);
        assert(cur[i0].id == id0);
        lemma_id_idx(cur, id0, i0);
        let cur2 = restore_one(cur, id0, r0.position);
        assert(recs_contain_id(recs, orig[i0].id));
        assert(cur2[i0] == orig[i0]);
        let rest = recs.drop_first();
        assert forall|k: int| 0 <= k < rest.len() implies has_id(
            orig,
            (#[trigger] rest[k]).piece_id,
        ) by {
            assert(rest[k] == recs[k + 1]);
        }
        assert forall|i: int, k: int|
            0 <= i < orig.len() && 0 <= k < rest.len() && (#[trigger] rest[k]).piece_id == (
            #[trigger] orig[i]).id implies orig[i].active && rest[k].position == orig[i].position
            && cur2[i].side == orig[i].side && cur2[i].state == orig[i].state by {
            assert(rest[k] == recs[k + 1]);
            if i == i0 {
                assert(recs[k + 1].piece_id == id0);
                assert(recs[0].piece_id != recs[k + 1].piece_id);
                assert(false);
            }
        }
        assert forall|i: int|
            0 <= i < orig.len() && !recs_contain_id(rest, (#[trigger] orig[i]).id) implies cur2[i]
            == orig[i] by {
            if i == i0 {
            } else {
                if recs_contain_id(recs, orig[i].id) {
                    let k = choose|k: int|
                        0 <= k < recs.len() && (#[trigger] recs[k]).piece_id == orig[i].id;
                    if k == 0 {
                        assert(orig[i].id == id0);
                        assert(i == i0);
                        assert(false);
                    } else {
                        assert(rest[k - 1] == recs[k]);
                        assert(recs_contain_id(rest, orig[i].id));
                        assert(false);
                    }
                }
                assert(cur[i] == orig[i]);
                assert(cur2[i] == cur[i]);
            }
        }
        lemma_restore_all_undoes(orig, cur2, rest);
    }
}

/// The round-trip law: executing any move whose destination is an empty
/// in-bounds cell and then undoing the record it produced restores the board
/// bit for bit, ids, positions and active flags included.
pub proof fn lemma_execute_undo(b: Seq<Piece>, from: (u8, u8), to: (u8, u8))
    requires
        wf(b),
        occupied(b, from.0, from.1),
        in_bounds(to.0 as int, to.1 as int),
        (to.0 == from.0 && to.1 == from.1) || !occupied(b, to.0, to.1),
    ensures
        spec_undo(
            spec_execute(b, from, to),
            at_cell(b, from.0, from.1).id,
            from,
            move_captured_records(b, from, to),
        ) == b,
{
    let ip = cell_idx(b, from.0, from.1);
    assert(active_at(b, ip, from.0, from.1));
    let p = b[ip];
    let b1 = board_after_relocate(b, from, to);
    lemma_relocate_wf(b, from, to);
    lemma_id_idx(b1, p.id, ip);
    crate::rules::lemma_captured_ids_facts(b1, p.id);
    let ids = captured_ids(b1, p.id);
    let b2 = deactivate_ids(b1, ids);
    let recs = spec_captured_records(b1, ids);
    assert(b2.len() == b.len());
    assert(!ids.contains(p.id)) by {
        if ids.contains(p.id) {
            let t = choose|t: int| 0 <= t < ids.len() && ids[t] == p.id;
            assert(crate::rules::victim_ok(b1, p.id, ids[t]));
            assert(false);
        }
    }
    assert(b2[ip] == b1[ip]);
    assert(ids_unique(b2));
    lemma_id_idx(b2, p.id, ip);
    let b3 = restore_one(b2, p.id, from);
    assert(b3[ip] == p);
    // Hand the generalized restore argument what it needs.
    assert forall|k: int| 0 <= k < recs.len() implies has_id(b, (#[trigger] recs[k]).piece_id) by {
        assert(crate::rules::victim_ok(b1, p.id, ids[k]));
        let iv = id_idx(b1, ids[k]);
        assert(b[iv].id == ids[k]);
    }
    assert forall|i: int, k: int|
        0 <= i < b.len() && 0 <= k < recs.len() && (#[trigger] recs[k]).piece_id == (
        #[trigger] b[i]).id implies b[i].active && recs[k].position == b[i].position && b3[i].side
        == b[i].side && b3[i].state == b[i].state by {
        let cid = ids[k];
        assert(crate::rules::victim_ok(b1, p.id, cid));
        let iv = id_idx(b1, cid);
        assert(b1[iv].id == cid);
        assert(b1[i].id == b[i].id);
        if i != iv {
            assert(b1[i].id != b1[iv].id);
            assert(false);
        }
        assert(iv != ip);
        assert(b1[iv] == b[iv]);
        assert(by_id(b1, cid) == b1[iv]);
    }
    assert forall|i: int|
        0 <= i < b.len() && !recs_contain_id(recs, (#[trigger] b[i]).id) implies b3[i] == b[i] by {
        if i == ip {
        } else {
            assert(!ids.contains(b1[i].id)) by {
                if ids.contains(b1[i].id) {
                    let t = choose|t: int| 0 <= t < ids.len() && ids[t] == b1[i].id;
                    assert(recs[t].piece_id == b1[i].id);
                    assert(recs_contain_id(recs, b[i].id));
                    assert(false);
                }
            }
            assert(b2[i] == b1[i]);
            assert(b1[i] == b[i]);
            assert(b3[i] == b2[i]);
        }
    }
    assert forall|k1: int, k2: int|
        0 <= k1 < k2 < recs.len() implies recs[k1].piece_id != recs[k2].piece_id by {
        assert(ids[k1] != ids[k2]);
    }
    assert forall|i: int| 0 <= i < b.len() implies (#[trigger] b3[i]).id == b[i].id by {
        assert(b2[i].id == b1[i].id);
    }
    lemma_restore_all_undoes(b, b3, recs);
}

impl Default for Board {
    /// The default board is the empty one.
    fn default() -> (r: Board)
        ensures
            r@ == Seq::<Piece>::empty(),
    {
        Board::empty()
    }
}

impl Board {
    /// A mutable borrow of the active piece standing on (x, y), if any.
    pub fn piece_at_mut(&mut self, x: u8, y: u8) -> (r: Option<&mut Piece>)
        requires
            placement_ok(old(self)@),
        ensures
            r is Some <==> occupied(old(self)@, x, y),
            r is None ==> final(self)@ == old(self)@,
            r matches Some(p) ==> *p == at_cell(old(self)@, x, y) && final(self)@ == old(
                self,
            )@.update(cell_idx(old(self)@, x, y), *final(p)),
    {
        let n = self.pieces.len();
        let mut i: usize = 0;
        while i < n
            invariant
                self@ == old(self)@,
                placement_ok(self@),
                n == self@.len(),
                0 <= i <= n,
                forall|k: int| 0 <= k < i ==> !active_at(self@, k, x, y),
            decreases n - i,
        {
            let p = &self.pieces[i];
            if p.active && p.position.0 == x && p.position.1 == y {
                proof {
                    assert(active_at(self@, i as int, x, y));
                    lemma_cell_idx(self@, x, y, i as int);
                }
                return Some(&mut self.pieces[i]);
            }
            i = i + 1;
        }
        None
    }

    /// A mutable borrow of the record with this id, if present.
    pub fn piece_by_id_mut(&mut self, id: u8) -> (r: Option<&mut Piece>)
        requires
            ids_unique(old(self)@),
        ensures
            r is Some <==> has_id(old(self)@, id),
            r is None ==> final(self)@ == old(self)@,
            r matches Some(p) ==> *p == by_id(old(self)@, id) && final(self)@ == old(
                self,
            )@.update(id_idx(old(self)@, id), *final(p)),
    {
        let n = self.pieces.len();
        let mut i: usize = 0;
        while i < n
            invariant
                self@ == old(self)@,
                ids_unique(self@),
                n == self@.len(),
                0 <= i <= n,
                forall|k: int| 0 <= k < i ==> self@[k].id != id,
            decreases n - i,
        {
            if self.pieces[i].id == id {
                proof {
                    lemma_id_idx(self@, id, i as int);
                }
                return Some(&mut self.pieces[i]);
            }
            i = i + 1;
        }
        None
    }
}

} // verus!
