//! Castling rights: a per-color monotonic state machine tracking whether
//! the king or either corner rook has moved. Rights only ever disappear;
//! the queries never inspect board occupancy or attacks.

use vstd::prelude::*;

use crate::game::piece::PieceColor;

verus! {

/// Castling state for one color: either the king has not moved yet (with a
/// flag per rook), or it has, which forfeits both rights for good.
#[derive(Clone, Copy, PartialEq, Eq, Structural, Debug)]
pub enum CastlingInfo {
    KingHasNotMoved {
        queenside_rook_has_not_moved: bool,
        kingside_rook_has_not_moved: bool,
    },
    KingHasMoved,
}

impl CastlingInfo {
    /// The initial per-color state, for use in contracts.
    pub open spec fn new_spec() -> CastlingInfo {
        CastlingInfo::KingHasNotMoved {
            queenside_rook_has_not_moved: true,
            kingside_rook_has_not_moved: true,
        }
    }

    pub open spec fn can_queenside(self) -> bool {
        match self {
            CastlingInfo::KingHasNotMoved { queenside_rook_has_not_moved, .. } =>
                queenside_rook_has_not_moved,
            CastlingInfo::KingHasMoved => false,
        }
    }

    pub open spec fn can_kingside(self) -> bool {
        match self {
            CastlingInfo::KingHasNotMoved { kingside_rook_has_not_moved, .. } =>
                kingside_rook_has_not_moved,
            CastlingInfo::KingHasMoved => false,
        }
    }

    /// The state after the king moves: terminal, both rights forfeited.
    pub open spec fn after_king_move(self) -> CastlingInfo {
        CastlingInfo::KingHasMoved
    }

    /// The state after the queenside rook moves from its corner.
    pub open spec fn after_queenside_rook_move(self) -> CastlingInfo {
        match self {
            CastlingInfo::KingHasNotMoved { kingside_rook_has_not_moved, .. } =>
                CastlingInfo::KingHasNotMoved {
                    queenside_rook_has_not_moved: false,
                    kingside_rook_has_not_moved,
                },
            CastlingInfo::KingHasMoved => CastlingInfo::KingHasMoved,
        }
    }

    /// The state after the kingside rook moves from its corner.
    pub open spec fn after_kingside_rook_move(self) -> CastlingInfo {
        match self {
            CastlingInfo::KingHasNotMoved { queenside_rook_has_not_moved, .. } =>
                CastlingInfo::KingHasNotMoved {
                    queenside_rook_has_not_moved,
                    kingside_rook_has_not_moved: false,
                },
            CastlingInfo::KingHasMoved => CastlingInfo::KingHasMoved,
        }
    }

    /// The initial state: both rights granted.
    pub fn new() -> (r: CastlingInfo)
        ensures
            r == (CastlingInfo::KingHasNotMoved {
                queenside_rook_has_not_moved: true,
                kingside_rook_has_not_moved: true,
            }),
    {
        CastlingInfo::KingHasNotMoved {
            queenside_rook_has_not_moved: true,
            kingside_rook_has_not_moved: true,
        }
    }

    pub fn move_king(&mut self)
        ensures
            *final(self) == old(self).after_king_move(),
    {
        *self = CastlingInfo::KingHasMoved;
    }

    pub fn move_queenside_rook(&mut self)
        ensures
            *final(self) == old(self).after_queenside_rook_move(),
    {
        if let CastlingInfo::KingHasNotMoved { queenside_rook_has_not_moved: _, kingside_rook_has_not_moved } = *self {
            *self = CastlingInfo::KingHasNotMoved {
                queenside_rook_has_not_moved: false,
                kingside_rook_has_not_moved,
            };
        }
    }

    pub fn move_kingside_rook(&mut self)
        ensures
            *final(self) == old(self).after_kingside_rook_move(),
    {
        if let CastlingInfo::KingHasNotMoved { queenside_rook_has_not_moved, kingside_rook_has_not_moved: _ } = *self {
            *self = CastlingInfo::KingHasNotMoved {
                queenside_rook_has_not_moved,
                kingside_rook_has_not_moved: false,
            };
        }
    }

    pub fn can_castle_queenside(&self) -> (r: bool)
        ensures
            r == self.can_queenside(),
    {
        matches!(
            self,
            CastlingInfo::KingHasNotMoved { queenside_rook_has_not_moved: true, .. }
        )
    }

    pub fn can_castle_kingside(&self) -> (r: bool)
        ensures
            r == self.can_kingside(),
    {
        matches!(
            self,
            CastlingInfo::KingHasNotMoved { kingside_rook_has_not_moved: true, .. }
        )
    }
}

/// A castling right, once forfeited, is never regained by any transition of
/// the rights state machine.
pub proof fn lemma_rights_monotonic(c: CastlingInfo)
    ensures
        !c.can_queenside() ==> !c.after_king_move().can_queenside()
            && !c.after_queenside_rook_move().can_queenside()
            && !c.after_kingside_rook_move().can_queenside(),
        !c.can_kingside() ==> !c.after_king_move().can_kingside()
            && !c.after_queenside_rook_move().can_kingside()
            && !c.after_kingside_rook_move().can_kingside(),
{
}

/// The castling rights of both players.
#[derive(Clone, Copy, PartialEq, Eq, Structural, Debug)]
pub struct Castling {
    pub white: CastlingInfo,
    pub black: CastlingInfo,
}

impl Castling {
    /// The rights of the given color.
    pub open spec fn of(self, color: PieceColor) -> CastlingInfo {
        match color {
            PieceColor::White => self.white,
            PieceColor::Black => self.black,
        }
    }

    /// These rights with one color's state replaced.
    pub open spec fn with(self, color: PieceColor, info: CastlingInfo) -> Castling {
        match color {
            PieceColor::White => Castling { white: info, ..self },
            PieceColor::Black => Castling { black: info, ..self },
        }
    }

    /// The initial rights: both colors may castle to either side.
    pub fn new() -> (r: Castling)
        ensures
            r.white == CastlingInfo::new_spec(),
            r.black == CastlingInfo::new_spec(),
    {
        let white = CastlingInfo::new();
        let black = CastlingInfo::new();
        Castling { white, black }
    }

    pub fn get(&self, color: PieceColor) -> (r: CastlingInfo)
        ensures
            r == self.of(color),
    {
        match color {
            PieceColor::White => self.white,
            PieceColor::Black => self.black,
        }
    }

    pub fn move_king(&mut self, color: PieceColor)
        ensures
            *final(self) == old(self).with(color, old(self).of(color).after_king_move()),
    {
        match color {
            PieceColor::White => self.white.move_king(),
            PieceColor::Black => self.black.move_king(),
        }
    }

    pub fn move_queenside_rook(&mut self, color: PieceColor)
        ensures
            *final(self) == old(self).with(color, old(self).of(color).after_queenside_rook_move()),
    {
        match color {
            PieceColor::White => self.white.move_queenside_rook(),
            PieceColor::Black => self.black.move_queenside_rook(),
        }
    }

    pub fn move_kingside_rook(&mut self, color: PieceColor)
        ensures
            *final(self) == old(self).with(color, old(self).of(color).after_kingside_rook_move()),
    {
        match color {
            PieceColor::White => self.white.move_kingside_rook(),
            PieceColor::Black => self.black.move_kingside_rook(),
        }
    }
}

} // verus!

