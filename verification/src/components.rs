//! The data model: squares, colours, piece kinds and pieces.

use vstd::prelude::*;

verus! {

/// A square of the board, addressed by file (`x`) and rank (`y`), both counted
/// from zero. A square is on the board when both coordinates are below eight.
#[derive(Clone, Copy, Debug, PartialEq, Eq, Structural, Hash)]
pub struct GridPosition {
    pub x: u32,
    pub y: u32,
}

impl View for GridPosition {
    type V = (int, int);

    open spec fn view(&self) -> (int, int) {
        (self.x as int, self.y as int)
    }
}

impl GridPosition {
    pub fn new(x: u32, y: u32) -> (pos: Self)
        ensures
            pos.x == x,
            pos.y == y,
    {
        Self { x, y }
    }

    /// Whether the square is one of the sixty-four squares of the board.
    pub fn is_on_board(&self) -> (r: bool)
        ensures
            r == (self.x < 8 && self.y < 8),
    {
        self.x < 8 && self.y < 8
    }
}

#[derive(Clone, Copy, Debug, PartialEq, Eq, Structural)]
pub enum PieceType {
    Pawn,
    Knight,
    Bishop,
    Rook,
    Queen,
    King,
}

#[derive(Clone, Copy, Debug, PartialEq, Eq, Structural)]
pub enum PieceColor {
    White,
    Black,
}

impl PieceColor {
    /// The other side.
    pub open spec fn other(self) -> PieceColor {
        match self {
            PieceColor::White => PieceColor::Black,
            PieceColor::Black => PieceColor::White,
        }
    }

    /// The rank step of this side's pawns: up the board for White, down for Black.
    pub open spec fn forward(self) -> int {
        match self {
            PieceColor::White => 1,
            PieceColor::Black => -1,
        }
    }

    /// The rank on which this side's king and rooks start.
    pub open spec fn home_rank(self) -> int {
        match self {
            PieceColor::White => 0,
            PieceColor::Black => 7,
        }
    }

    /// The rank on which this side's pawns are promoted.
    pub open spec fn far_rank(self) -> int {
        match self {
            PieceColor::White => 7,
            PieceColor::Black => 0,
        }
    }

    pub fn opponent(self) -> (c: PieceColor)
        ensures
            c == self.other(),
    {
        match self {
            PieceColor::White => PieceColor::Black,
            PieceColor::Black => PieceColor::White,
        }
    }
}

/// Where the game stands for the side that is to move.
#[derive(Clone, Copy, Debug, PartialEq, Eq, Structural)]
pub enum GameStatus {
    /// The side to move has a legal move and is not in check.
    InProgress,
    /// The named side is to move and in check, and has a legal move.
    Check(PieceColor),
    /// The side to move is in check and has no legal move; the named side has won.
    Checkmate(PieceColor),
    /// The side to move is not in check and has no legal move.
    Stalemate,
}

/// A piece as the board stores it. The square it stands on is the key under
/// which the board holds it, never a field of the piece.
#[derive(Clone, Copy, Debug, PartialEq, Eq, Structural)]
pub struct Piece {
    pub color: PieceColor,
    pub kind: PieceType,
    /// True until the piece is relocated for the first time.
    pub is_first_move: bool,
    /// True only right after this pawn advanced two ranks.
    pub just_double_jumped: bool,
}

impl Piece {
    pub fn new(color: PieceColor, kind: PieceType) -> (piece: Self)
        ensures
            piece == (Piece { color, kind, is_first_move: true, just_double_jumped: false }),
    {
        Self { color, kind, is_first_move: true, just_double_jumped: false }
    }
}

} // verus!
