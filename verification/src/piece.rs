//! Piece and side definitions, and the fixed initial layout.

use vstd::prelude::*;

verus! {

/// The side (colour) a piece belongs to. Black always moves first.
#[derive(Debug, Clone, Copy, PartialEq, Eq, Structural)]
pub enum Side {
    Black,
    White,
}

impl Side {
    /// The opposing side.
    pub fn opposite(&self) -> (r: Side)
        ensures
            r == self.spec_opposite(),
    {
        match self {
            Side::Black => Side::White,
            Side::White => Side::Black,
        }
    }

    /// The opposing side, as a spec-level function.
    pub open spec fn spec_opposite(self) -> Side {
        match self {
            Side::Black => Side::White,
            Side::White => Side::Black,
        }
    }

    /// The side that moves first in every game.
    pub fn first() -> (r: Side)
        ensures
            r == Side::Black,
    {
        Side::Black
    }
}

/// Presentation state of a piece; the rule engine never reads it.
#[derive(Debug, Clone, Copy, PartialEq, Eq, Default, Structural)]
pub enum PieceState {
    #[default]
    Idle,
    Dragging,
    Animating,
    BeingCaptured,
}

/// One piece. Its id and side never change after creation; a move changes
/// `position`, a capture clears `active`, and an undo restores both.
#[derive(Debug, Clone, Copy)]
pub struct Piece {
    /// Stable identity, unique over the whole board.
    pub id: u8,
    /// Owning side.
    pub side: Side,
    /// Coordinates on the 4x4 grid, each in 0..=3 while the piece is active.
    pub position: (u8, u8),
    /// Presentation state; irrelevant to the rules.
    pub state: PieceState,
    /// True while the piece is on the board, false once captured.
    pub active: bool,
}

impl Piece {
    /// A fresh, active, idle piece.
    pub fn new(id: u8, side: Side, x: u8, y: u8) -> (r: Piece)
        ensures
            r == (Piece { id, side, position: (x, y), state: PieceState::Idle, active: true }),
    {
        Piece { id, side, position: (x, y), state: PieceState::Idle, active: true }
    }
}

/// The fixed 12-piece starting layout as a spec-level sequence: Black pieces
/// with ids 1..=6 along the bottom two rows, White with ids 7..=12 mirrored
/// along the top two rows.
pub open spec fn spec_initial_pieces() -> Seq<Piece> {
    seq![
        Piece { id: 1, side: Side::Black, position: (0, 0), state: PieceState::Idle, active: true },
        Piece { id: 2, side: Side::Black, position: (1, 0), state: PieceState::Idle, active: true },
        Piece { id: 3, side: Side::Black, position: (2, 0), state: PieceState::Idle, active: true },
        Piece { id: 4, side: Side::Black, position: (3, 0), state: PieceState::Idle, active: true },
        Piece { id: 5, side: Side::Black, position: (0, 1), state: PieceState::Idle, active: true },
        Piece { id: 6, side: Side::Black, position: (3, 1), state: PieceState::Idle, active: true },
        Piece { id: 7, side: Side::White, position: (0, 3), state: PieceState::Idle, active: true },
        Piece { id: 8, side: Side::White, position: (1, 3), state: PieceState::Idle, active: true },
        Piece { id: 9, side: Side::White, position: (2, 3), state: PieceState::Idle, active: true },
        Piece { id: 10, side: Side::White, position: (3, 3), state: PieceState::Idle, active: true },
        Piece { id: 11, side: Side::White, position: (0, 2), state: PieceState::Idle, active: true },
        Piece { id: 12, side: Side::White, position: (3, 2), state: PieceState::Idle, active: true },
    ]
}

/// The fixed 12-piece starting layout: 6 per side at the standard corners and
/// edges, ids 1..=12 in layout order.
pub fn initial_pieces() -> (r: Vec<Piece>)
    ensures
        r@ == spec_initial_pieces(),
{
    let mut pieces: Vec<Piece> = Vec::new();
    pieces.push(Piece::new(1, Side::Black, 0, 0));
    pieces.push(Piece::new(2, Side::Black, 1, 0));
    pieces.push(Piece::new(3, Side::Black, 2, 0));
    pieces.push(Piece::new(4, Side::Black, 3, 0));
    pieces.push(Piece::new(5, Side::Black, 0, 1));
    pieces.push(Piece::new(6, Side::Black, 3, 1));
    pieces.push(Piece::new(7, Side::White, 0, 3));
    pieces.push(Piece::new(8, Side::White, 1, 3));
    pieces.push(Piece::new(9, Side::White, 2, 3));
    pieces.push(Piece::new(10, Side::White, 3, 3));
    pieces.push(Piece::new(11, Side::White, 0, 2));
    pieces.push(Piece::new(12, Side::White, 3, 2));
    proof {
        assert(pieces@ =~= spec_initial_pieces());
    }
    pieces
}

/// The character for one decimal digit.
pub open spec fn dec_digit(n: int) -> char {
    if n == 0 {
        '0'
    } else if n == 1 {
        '1'
    } else if n == 2 {
        '2'
    } else if n == 3 {
        '3'
    } else if n == 4 {
        '4'
    } else if n == 5 {
        '5'
    } else if n == 6 {
        '6'
    } else if n == 7 {
        '7'
    } else if n == 8 {
        '8'
    } else {
        '9'
    }
}

/// The decimal digits of a number, most significant first.
pub open spec fn dec_str(n: int) -> Seq<char>
    decreases n,
{
    if n < 10 {
        seq![dec_digit(n)]
    } else {
        dec_str(n / 10) + seq![dec_digit(n % 10)]
    }
}

/// The display label of a side.
pub open spec fn side_label(s: Side) -> Seq<char> {
    match s {
        Side::Black => "Black"@,
        Side::White => "White"@,
    }
}

/// The one-character string for a decimal digit.
fn digit_str(d: u8) -> (r: &'static str)
    requires
        d <= 9,
    ensures
        r@ == seq![dec_digit(d as int)],
{
    proof {
        reveal_strlit("0");
        reveal_strlit("1");
        reveal_strlit("2");
        reveal_strlit("3");
        reveal_strlit("4");
        reveal_strlit("5");
        reveal_strlit("6");
        reveal_strlit("7");
        reveal_strlit("8");
        reveal_strlit("9");
    }
    let r = if d == 0 {
        "0"
    } else if d == 1 {
        "1"
    } else if d == 2 {
        "2"
    } else if d == 3 {
        "3"
    } else if d == 4 {
        "4"
    } else if d == 5 {
        "5"
    } else if d == 6 {
        "6"
    } else if d == 7 {
        "7"
    } else if d == 8 {
        "8"
    } else {
        "9"
    };
    proof {
        assert(r@ =~= seq![dec_digit(d as int)]);
    }
    r
}

impl Piece {
    /// A display name: the side's label followed by the piece's id in
    /// decimal.
    pub fn name(&self) -> (r: String)
        ensures
            r@ == side_label(self.side) + dec_str(self.id as int),
    {
        let mut s = match self.side {
            Side::Black => String::from_str("Black"),
            Side::White => String::from_str("White"),
        };
        let id = self.id;
        if id >= 100 {
            s.append(digit_str(id / 100));
            s.append(digit_str((id / 10) % 10));
            s.append(digit_str(id % 10));
            proof {
                reveal_with_fuel(dec_str, 3);
                vstd::arithmetic::div_mod::lemma_div_denominator(id as int, 10, 10);
                assert(id as int / 10 >= 10 && id as int / 100 < 10);
                assert(dec_str(id as int) =~= seq![
                    dec_digit(id as int / 100),
                    dec_digit((id as int / 10) % 10),
                    dec_digit(id as int % 10),
                ]);
                assert(s@ =~= side_label(self.side) + dec_str(self.id as int));
            }
        } else if id >= 10 {
            s.append(digit_str(id / 10));
            s.append(digit_str(id % 10));
            proof {
                reveal_with_fuel(dec_str, 2);
                assert(id as int / 10 < 10);
                assert(dec_str(id as int) =~= seq![
                    dec_digit(id as int / 10),
                    dec_digit(id as int % 10),
                ]);
                assert(s@ =~= side_label(self.side) + dec_str(self.id as int));
            }
        } else {
            s.append(digit_str(id));
            proof {
                assert(s@ =~= side_label(self.side) + dec_str(self.id as int));
            }
        }
        s
    }
}

} // verus!
