//! Piece placement and the raw move / promotion transformations, including
//! en-passant capture removal and castling rook relocation.
//!
//! A board maps each of the 64 squares to at most one piece. Transformations
//! never mutate: they return a fresh board value.

pub mod position;

use vstd::prelude::*;

use crate::game::piece::{Piece, PieceColor, PieceType};
use position::Position;

verus! {

/// The piece (if any) on square `p` of placement `b`.
pub open spec fn at(b: Seq<Option<Piece>>, p: Position) -> Option<Piece> {
    b[p.idx()]
}

/// The square with the given rank-major index.
pub open spec fn pos_of_idx(i: int) -> Position {
    Position { rank: (i / 8) as u8, file: (i % 8) as u8 }
}

/// The piece kind that starts on file `f` of each color's back rank.
pub open spec fn back_rank_piece(f: int) -> PieceType {
    if f == 0 || f == 7 {
        PieceType::Rook
    } else if f == 1 || f == 6 {
        PieceType::Knight
    } else if f == 2 || f == 5 {
        PieceType::Bishop
    } else if f == 3 {
        PieceType::Queen
    } else {
        PieceType::King
    }
}

/// The occupant of square (`r`, `f`) in the standard starting arrangement.
pub open spec fn init_square(r: int, f: int) -> Option<Piece> {
    if r == 0 {
        Some(Piece { color: PieceColor::White, piece: back_rank_piece(f) })
    } else if r == 1 {
        Some(Piece { color: PieceColor::White, piece: PieceType::Pawn })
    } else if r == 6 {
        Some(Piece { color: PieceColor::Black, piece: PieceType::Pawn })
    } else if r == 7 {
        Some(Piece { color: PieceColor::Black, piece: back_rank_piece(f) })
    } else {
        None
    }
}

/// The standard starting placement.
pub open spec fn init_board() -> Seq<Option<Piece>> {
    Seq::new(64, |i: int| init_square(i / 8, i % 8))
}

/// The placement after the piece at `from` relocates to `to`, capturing any
/// occupant; a pawn arriving diagonally on a vacant square additionally
/// removes the passed pawn (en passant), and a king moving two files drags
/// the corresponding corner rook to the square the king passed over
/// (castling), provided both rook squares lie on the board.
pub open spec fn moved_board(b: Seq<Option<Piece>>, from: Position, to: Position) -> Seq<
    Option<Piece>,
> {
    match at(b, from) {
        None => b,
        Some(piece) => {
            let b1 = b.update(from.idx(), None);
            let captured = b1[to.idx()];
            let b2 = b1.update(to.idx(), Some(piece));
            let b3 = if piece.piece == PieceType::Pawn && from.file != to.file && captured
                is None {
                b2.update(Position { rank: from.rank, file: to.file }.idx(), None)
            } else {
                b2
            };
            if piece.piece == PieceType::King && (from.file - to.file == 2 || to.file - from.file
                == 2) {
                let rf = if to.file < from.file {
                    to.file - 2
                } else {
                    to.file + 1
                };
                let rt = if to.file < from.file {
                    to.file + 1
                } else {
                    to.file - 1
                };
                if 0 <= rf < 8 && 0 <= rt < 8 {
                    let rook_from = Position { rank: to.rank, file: rf as u8 };
                    let rook_to = Position { rank: to.rank, file: rt as u8 };
                    let rook = b3[rook_from.idx()];
                    b3.update(rook_from.idx(), None).update(rook_to.idx(), rook)
                } else {
                    b3
                }
            } else {
                b3
            }
        },
    }
}

/// The placement after the pawn at `from` becomes `piece_type` at `to`.
pub open spec fn promoted_board(
    b: Seq<Option<Piece>>,
    from: Position,
    to: Position,
    piece_type: PieceType,
) -> Seq<Option<Piece>> {
    match at(b, from) {
        None => b,
        Some(piece) => b.update(from.idx(), None).update(
            to.idx(),
            Some(Piece { color: piece.color, piece: piece_type }),
        ),
    }
}

/// The pieces of `color` on the first `n` squares, in board order, each with
/// its square.
pub open spec fn pieces_upto(b: Seq<Option<Piece>>, color: PieceColor, n: int) -> Seq<
    (Position, Piece),
>
    decreases n,
{
    if n <= 0 {
        Seq::empty()
    } else {
        let rest = pieces_upto(b, color, n - 1);
        match b[n - 1] {
            Some(p) => if p.color == color {
                rest.push((pos_of_idx(n - 1), p))
            } else {
                rest
            },
            None => rest,
        }
    }
}

/// The pieces of `color` on the board, in board order, each with its square.
pub open spec fn pieces_of(b: Seq<Option<Piece>>, color: PieceColor) -> Seq<(Position, Piece)> {
    pieces_upto(b, color, 64)
}

/// How many of the first `n` squares hold exactly `target`.
pub open spec fn count_upto(b: Seq<Option<Piece>>, target: Piece, n: int) -> nat
    decreases n,
{
    if n <= 0 {
        0
    } else {
        count_upto(b, target, n - 1) + if b[n - 1] == Some(target) {
            1nat
        } else {
            0nat
        }
    }
}

/// How many squares hold exactly `target`.
pub open spec fn piece_count(b: Seq<Option<Piece>>, target: Piece) -> nat {
    count_upto(b, target, 64)
}

/// Updating one square adjusts the count of `target` by what leaves and
/// what arrives.
pub proof fn lemma_count_update(
    b: Seq<Option<Piece>>,
    target: Piece,
    idx: int,
    v: Option<Piece>,
    n: int,
)
    requires
        0 <= idx < n <= b.len(),
    ensures
        count_upto(b.update(idx, v), target, n) == count_upto(b, target, n) - (if b[idx] == Some(
            target,
        ) {
            1int
        } else {
            0int
        }) + (if v == Some(target) {
            1int
        } else {
            0int
        }),
    decreases n,
{
    if idx < n - 1 {
        lemma_count_update(b, target, idx, v, n - 1);
    } else {
        assert(count_upto(b.update(idx, v), target, n - 1) == count_upto(b, target, n - 1)) by {
            lemma_count_agree(b.update(idx, v), b, target, n - 1);
        }
    }
}

/// Two placements agreeing on the first `n` squares count alike there.
pub proof fn lemma_count_agree(b1: Seq<Option<Piece>>, b2: Seq<Option<Piece>>, target: Piece, n: int)
    requires
        0 <= n <= b1.len(),
        n <= b2.len(),
        forall|k: int| 0 <= k < n ==> b1[k] == b2[k],
    ensures
        count_upto(b1, target, n) == count_upto(b2, target, n),
    decreases n,
{
    if n > 0 {
        lemma_count_agree(b1, b2, target, n - 1);
    }
}

/// When exactly one of the first `n` squares holds `target`, the count over
/// them is one.
pub proof fn lemma_count_upto_unique(b: Seq<Option<Piece>>, target: Piece, ki: int, n: int)
    requires
        0 <= n <= b.len(),
        0 <= ki,
        forall|k: int| 0 <= k < n ==> ((b[k] == Some(target)) <==> k == ki),
    ensures
        count_upto(b, target, n) == if ki < n {
            1nat
        } else {
            0nat
        },
    decreases n,
{
    if n > 0 {
        lemma_count_upto_unique(b, target, ki, n - 1);
    }
}

/// Two distinct squares holding `target` push its count to at least two.
pub proof fn lemma_count_two_witnesses(
    b: Seq<Option<Piece>>,
    target: Piece,
    i: int,
    j: int,
    n: int,
)
    requires
        0 <= i < n <= b.len(),
        0 <= j < n,
        i != j,
        b[i] == Some(target),
        b[j] == Some(target),
    ensures
        count_upto(b, target, n) >= 2,
    decreases n,
{
    if i < n - 1 && j < n - 1 {
        lemma_count_two_witnesses(b, target, i, j, n - 1);
    } else {
        let other = if i < n - 1 {
            i
        } else {
            j
        };
        lemma_count_one_witness(b, target, other, n - 1);
    }
}

/// A square holding `target` pushes its count to at least one.
pub proof fn lemma_count_one_witness(b: Seq<Option<Piece>>, target: Piece, i: int, n: int)
    requires
        0 <= i < n <= b.len(),
        b[i] == Some(target),
    ensures
        count_upto(b, target, n) >= 1,
    decreases n,
{
    if i < n - 1 {
        lemma_count_one_witness(b, target, i, n - 1);
    }
}

/// A positive count guarantees that a first occurrence is found.
pub proof fn lemma_count_find(b: Seq<Option<Piece>>, target: Piece, n: int)
    requires
        count_upto(b, target, n) >= 1,
    ensures
        find_upto(b, target, n) is Some,
    decreases n,
{
    if n > 0 {
        if count_upto(b, target, n - 1) >= 1 {
            lemma_count_find(b, target, n - 1);
        }
    }
}

/// The first square among the first `n` (in board order) holding exactly
/// `target`, if any.
pub open spec fn find_upto(b: Seq<Option<Piece>>, target: Piece, n: int) -> Option<Position>
    decreases n,
{
    if n <= 0 {
        None
    } else {
        match find_upto(b, target, n - 1) {
            Some(p) => Some(p),
            None => if b[n - 1] == Some(target) {
                Some(pos_of_idx(n - 1))
            } else {
                None
            },
        }
    }
}

/// The first square (in board order) holding exactly `target`, if any.
pub open spec fn find_piece(b: Seq<Option<Piece>>, target: Piece) -> Option<Position> {
    find_upto(b, target, 64)
}

/// A square found by `find_upto` lies on the board, within the prefix, and
/// holds the sought piece.
pub proof fn lemma_find_upto_valid(b: Seq<Option<Piece>>, target: Piece, n: int)
    requires
        0 <= n <= 64,
        find_upto(b, target, n) is Some,
    ensures
        find_upto(b, target, n).unwrap().valid(),
        find_upto(b, target, n).unwrap().idx() < n,
        at(b, find_upto(b, target, n).unwrap()) == Some(target),
    decreases n,
{
    if n > 0 {
        if find_upto(b, target, n - 1) is Some {
            lemma_find_upto_valid(b, target, n - 1);
        }
    }
}

/// A found prefix stays found in any longer prefix.
pub proof fn lemma_find_upto_monotonic(b: Seq<Option<Piece>>, target: Piece, n: int, m: int)
    requires
        n <= m,
        find_upto(b, target, n) is Some,
    ensures
        find_upto(b, target, m) == find_upto(b, target, n),
    decreases m,
{
    if n < m {
        lemma_find_upto_monotonic(b, target, n, m - 1);
    }
}

/// Piece placement for the 64 squares, in rank-major order.
pub struct Board {
    squares: Vec<Option<Piece>>,
}

impl View for Board {
    type V = Seq<Option<Piece>>;

    closed spec fn view(&self) -> Seq<Option<Piece>> {
        self.squares@
    }
}

impl Board {
    /// The placement covers exactly the 64 squares.
    pub open spec fn wf(self) -> bool {
        self@.len() == 64
    }

    /// The standard starting arrangement.
    pub fn new() -> (r: Board)
        ensures
            r.wf(),
            r@ == init_board(),
    {
        let mut squares: Vec<Option<Piece>> = Vec::new();
        let mut i: usize = 0;
        while i < 64
            invariant
                i <= 64,
                squares@.len() == i,
                forall|j: int| 0 <= j < i ==> squares@[j] == init_square(j / 8, j % 8),
            decreases 64 - i,
        {
            squares.push(Self::start_square((i / 8) as u8, (i % 8) as u8));
            i = i + 1;
        }
        proof {
            assert(squares@ =~= init_board());
        }
        Board { squares }
    }

    fn start_square(r: u8, f: u8) -> (res: Option<Piece>)
        requires
            r < 8,
            f < 8,
        ensures
            res == init_square(r as int, f as int),
    {
        if r == 0 {
            Some(Piece { color: PieceColor::White, piece: Self::back_piece(f) })
        } else if r == 1 {
            Some(Piece { color: PieceColor::White, piece: PieceType::Pawn })
        } else if r == 6 {
            Some(Piece { color: PieceColor::Black, piece: PieceType::Pawn })
        } else if r == 7 {
            Some(Piece { color: PieceColor::Black, piece: Self::back_piece(f) })
        } else {
            None
        }
    }

    fn back_piece(f: u8) -> (res: PieceType)
        requires
            f < 8,
        ensures
            res == back_rank_piece(f as int),
    {
        if f == 0 || f == 7 {
            PieceType::Rook
        } else if f == 1 || f == 6 {
            PieceType::Knight
        } else if f == 2 || f == 5 {
            PieceType::Bishop
        } else if f == 3 {
            PieceType::Queen
        } else {
            PieceType::King
        }
    }

    /// The rank-major index of a square.
    pub(crate) fn index_of(p: Position) -> (r: usize)
        requires
            p.valid(),
        ensures
            r == p.idx(),
            r < 64,
    {
        (p.rank as usize) * 8 + (p.file as usize)
    }

    /// The square with the given rank-major index.
    pub(crate) fn pos_at(i: usize) -> (r: Position)
        requires
            i < 64,
        ensures
            r == pos_of_idx(i as int),
            r.valid(),
            r.idx() == i,
    {
        Position::new((i / 8) as u8, (i % 8) as u8)
    }

    /// The piece (if any) on the given square.
    pub fn get(&self, p: Position) -> (r: Option<Piece>)
        requires
            self.wf(),
            p.valid(),
        ensures
            r == at(self@, p),
    {
        let i = Self::index_of(p);
        self.squares[i]
    }

    /// Whether the given square is empty.
    pub fn is_vacant(&self, p: Position) -> (r: bool)
        requires
            self.wf(),
            p.valid(),
        ensures
            r == (at(self@, p) is None),
    {
        self.get(p).is_none()
    }

    fn copy_squares(&self) -> (r: Vec<Option<Piece>>)
        ensures
            r@ == self@,
    {
        let n = self.squares.len();
        let mut r: Vec<Option<Piece>> = Vec::new();
        let mut i: usize = 0;
        while i < n
            invariant
                i <= n,
                n == self.squares@.len(),
                r@ == self.squares@.subrange(0, i as int),
            decreases n - i,
        {
            r.push(self.squares[i]);
            proof {
                assert(self.squares@.subrange(0, i as int).push(self.squares@[i as int]) =~= self
                    .squares@.subrange(0, i as int + 1));
            }
            i = i + 1;
        }
        proof {
            assert(self.squares@.subrange(0, n as int) =~= self.squares@);
        }
        r
    }

    /// Relocate the piece at `from` to `to`, with the en-passant and castling
    /// side effects of `moved_board`. This total variant skips the rook
    /// relocation when a rook square would fall off the board.
    pub(crate) fn move_total(&self, from: Position, to: Position) -> (r: Board)
        requires
            self.wf(),
            from.valid(),
            to.valid(),
            at(self@, from) is Some,
        ensures
            r.wf(),
            r@ == moved_board(self@, from, to),
    {
        let mut squares = self.copy_squares();
        let fi = Self::index_of(from);
        let ti = Self::index_of(to);
        let piece = squares[fi].unwrap();
        squares[fi] = None;
        let captured = squares[ti];
        squares[ti] = Some(piece);
        if piece.piece == PieceType::Pawn && from.file != to.file && captured.is_none() {
            let ci = Self::index_of(Position::new(from.rank, to.file));
            squares[ci] = None;
        }
        if piece.piece == PieceType::King && (from.file as i8 - to.file as i8 == 2 || to.file as i8
            - from.file as i8 == 2) {
            let rf: i8 = if to.file < from.file {
                to.file as i8 - 2
            } else {
                to.file as i8 + 1
            };
            let rt: i8 = if to.file < from.file {
                to.file as i8 + 1
            } else {
                to.file as i8 - 1
            };
            if 0 <= rf && rf < 8 && 0 <= rt && rt < 8 {
                let rfi = Self::index_of(Position::new(to.rank, rf as u8));
                let rti = Self::index_of(Position::new(to.rank, rt as u8));
                let rook = squares[rfi];
                squares[rfi] = None;
                squares[rti] = rook;
            }
        }
        Board { squares }
    }

    /// Relocate the piece at `from` to `to`, capturing any occupant, with
    /// the en-passant and castling handling described by `moved_board`.
    /// A castling king move must leave both rook squares on the board.
    pub fn make_move(&self, from: Position, to: Position) -> (r: Board)
        requires
            self.wf(),
            from.valid(),
            to.valid(),
            at(self@, from) is Some,
            (at(self@, from).unwrap().piece == PieceType::King && (from.file - to.file == 2
                || to.file - from.file == 2)) ==> (if to.file < from.file {
                to.file >= 2
            } else {
                to.file <= 6
            }),
        ensures
            r.wf(),
            r@ == moved_board(self@, from, to),
    {
        self.move_total(from, to)
    }

    /// Replace the pawn at `from` with a `piece_type` of the same color at
    /// `to`.
    pub fn promote(&self, from: Position, to: Position, piece_type: PieceType) -> (r: Board)
        requires
            self.wf(),
            from.valid(),
            to.valid(),
            at(self@, from) is Some,
            at(self@, from).unwrap().piece == PieceType::Pawn,
        ensures
            r.wf(),
            r@ == promoted_board(self@, from, to, piece_type),
    {
        let mut squares = self.copy_squares();
        let fi = Self::index_of(from);
        let ti = Self::index_of(to);
        let piece = squares[fi].unwrap();
        squares[fi] = None;
        squares[ti] = Some(Piece { color: piece.color, piece: piece_type });
        Board { squares }
    }

    /// The pieces of `color`, in board order, each with its square.
    pub fn iter(&self, color: PieceColor) -> (r: Vec<(Position, Piece)>)
        requires
            self.wf(),
        ensures
            r@ == pieces_of(self@, color),
    {
        let mut r: Vec<(Position, Piece)> = Vec::new();
        let mut i: usize = 0;
        while i < 64
            invariant
                i <= 64,
                self.wf(),
                r@ == pieces_upto(self@, color, i as int),
            decreases 64 - i,
        {
            let p = Self::pos_at(i);
            match self.squares[i] {
                Some(piece) => {
                    if piece.color == color {
                        r.push((p, piece));
                    }
                },
                None => {},
            }
            i = i + 1;
        }
        r
    }

    /// The first square (in board order) holding exactly `piece`, if any.
    pub fn position_of(&self, piece: Piece) -> (r: Option<Position>)
        requires
            self.wf(),
        ensures
            r == find_piece(self@, piece),
    {
        let mut i: usize = 0;
        while i < 64
            invariant
                i <= 64,
                self.wf(),
                find_upto(self@, piece, i as int) is None,
            decreases 64 - i,
        {
            let hit = match self.squares[i] {
                Some(q) => q == piece,
                None => false,
            };
            if hit {
                let p = Self::pos_at(i);
                proof {
                    lemma_find_upto_monotonic(self@, piece, i as int + 1, 64);
                }
                return Some(p);
            }
            i = i + 1;
        }
        None
    }
}

} // verus!
