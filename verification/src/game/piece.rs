//! Piece identity: color and kind, with their starting ranks and the
//! fixed relative material value of each kind.

use vstd::prelude::*;

verus! {

#[derive(Clone, Copy, PartialEq, Eq, Structural, Debug)]
pub enum PieceType {
    Pawn,
    Knight,
    Bishop,
    Rook,
    Queen,
    King,
}

#[derive(Clone, Copy, PartialEq, Eq, Structural, Debug)]
pub enum PieceColor {
    White,
    Black,
}

impl PieceColor {
    /// The other color.
    pub open spec fn opposite_spec(self) -> PieceColor {
        match self {
            PieceColor::White => PieceColor::Black,
            PieceColor::Black => PieceColor::White,
        }
    }

    #[verifier::when_used_as_spec(opposite_spec)]
    pub fn opposite(self) -> (r: PieceColor)
        ensures
            r == self.opposite_spec(),
    {
        match self {
            PieceColor::White => PieceColor::Black,
            PieceColor::Black => PieceColor::White,
        }
    }

    /// The rank a pawn of this color starts on.
    pub open spec fn pawn_starting_rank_spec(self) -> u8 {
        match self {
            PieceColor::White => 1,
            PieceColor::Black => 6,
        }
    }

    #[verifier::when_used_as_spec(pawn_starting_rank_spec)]
    pub fn pawn_starting_rank(self) -> (r: u8)
        ensures
            r == self.pawn_starting_rank_spec(),
    {
        match self {
            PieceColor::White => 1,
            PieceColor::Black => 6,
        }
    }

    /// The rank this color's back pieces (and king) start on.
    pub open spec fn piece_starting_rank_spec(self) -> u8 {
        match self {
            PieceColor::White => 0,
            PieceColor::Black => 7,
        }
    }

    #[verifier::when_used_as_spec(piece_starting_rank_spec)]
    pub fn piece_starting_rank(self) -> (r: u8)
        ensures
            r == self.piece_starting_rank_spec(),
    {
        match self {
            PieceColor::White => 0,
            PieceColor::Black => 7,
        }
    }

    /// The direction (as a rank delta) this color's pawns advance in.
    pub open spec fn pawn_dir(self) -> int {
        match self {
            PieceColor::White => 1,
            PieceColor::Black => -1,
        }
    }

    /// The rank a pawn of this color promotes on.
    pub open spec fn promotion_rank(self) -> u8 {
        match self {
            PieceColor::White => 7,
            PieceColor::Black => 0,
        }
    }
}

/// A piece on the board: its color and its kind.
#[derive(Clone, Copy, PartialEq, Eq, Structural, Debug)]
pub struct Piece {
    pub color: PieceColor,
    pub piece: PieceType,
}

} // verus!
