//! Square addressing and directional stepping on the 8x8 board.
//!
//! Every step off the board yields `None` rather than wrapping; these
//! primitives are the sole building block for all per-piece move shapes.

use vstd::prelude::*;

use crate::game::piece::PieceColor;

verus! {

/// A square of the 8x8 board, addressed by rank (row, from White's side)
/// and file (column).
#[derive(Clone, Copy, PartialEq, Eq, Structural, PartialOrd, Ord, Hash, Debug)]
pub struct Position {
    pub rank: u8,
    pub file: u8,
}

impl Position {
    /// The square lies on the 8x8 board.
    pub open spec fn valid(self) -> bool {
        self.rank < 8 && self.file < 8
    }

    /// The square's index in board order (rank-major).
    pub open spec fn idx(self) -> int {
        self.rank * 8 + self.file
    }

    /// Step by the given rank and file deltas, unless that leaves the board.
    pub open spec fn step_spec(self, dr: int, df: int) -> Option<Position> {
        let r = self.rank + dr;
        let f = self.file + df;
        if 0 <= r < 8 && 0 <= f < 8 {
            Some(Position { rank: r as u8, file: f as u8 })
        } else {
            None
        }
    }

    pub fn new(rank: u8, file: u8) -> (r: Position)
        requires
            rank < 8,
            file < 8,
        ensures
            r == (Position { rank, file }),
    {
        Position { rank, file }
    }

    pub fn rank(self) -> (r: u8)
        ensures
            r == self.rank,
    {
        self.rank
    }

    pub fn file(self) -> (r: u8)
        ensures
            r == self.file,
    {
        self.file
    }

    pub fn is_valid(self) -> (r: bool)
        ensures
            r == self.valid(),
    {
        self.rank < 8 && self.file < 8
    }

    /// Step by the given deltas, staying on the board.
    pub fn step(self, dr: i8, df: i8) -> (r: Option<Position>)
        requires
            self.valid(),
            -2 <= dr <= 2,
            -2 <= df <= 2,
        ensures
            r == self.step_spec(dr as int, df as int),
    {
        let nr: i8 = self.rank as i8 + dr;
        let nf: i8 = self.file as i8 + df;
        if 0 <= nr && nr < 8 && 0 <= nf && nf < 8 {
            Some(Position { rank: nr as u8, file: nf as u8 })
        } else {
            None
        }
    }

    pub fn up(self) -> (r: Option<Position>)
        requires
            self.valid(),
        ensures
            r == self.step_spec(1, 0),
    {
        self.step(1, 0)
    }

    pub fn down(self) -> (r: Option<Position>)
        requires
            self.valid(),
        ensures
            r == self.step_spec(-1, 0),
    {
        self.step(-1, 0)
    }

    pub fn left(self) -> (r: Option<Position>)
        requires
            self.valid(),
        ensures
            r == self.step_spec(0, -1),
    {
        self.step(0, -1)
    }

    pub fn right(self) -> (r: Option<Position>)
        requires
            self.valid(),
        ensures
            r == self.step_spec(0, 1),
    {
        self.step(0, 1)
    }

    /// Step one rank in the direction the given color's pawns advance.
    pub fn pawn(self, color: PieceColor) -> (r: Option<Position>)
        requires
            self.valid(),
        ensures
            r == self.step_spec(color.pawn_dir(), 0),
    {
        match color {
            PieceColor::White => self.step(1, 0),
            PieceColor::Black => self.step(-1, 0),
        }
    }
}

} // verus!
