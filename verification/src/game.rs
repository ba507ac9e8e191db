//! The game state: turn, board, en-passant marker and castling rights,
//! with legal move generation, attack computation, check / checkmate /
//! stalemate detection, and successor-state transitions.
//!
//! Every transition returns a new, fully independent game value; nothing is
//! shared between successive states, so a search may hold many siblings.

pub mod board;
pub mod castling;
pub mod laws;
pub mod piece;

use vstd::prelude::*;

pub use board::position::Position;
pub use board::Board;
pub use castling::Castling;
pub use castling::CastlingInfo;
pub use piece::Piece;
pub use piece::PieceColor;
pub use piece::PieceType;

use board::{
    at, count_upto, find_piece, init_board, init_square, lemma_count_find,
    lemma_count_two_witnesses, lemma_count_update, lemma_count_upto_unique, lemma_find_upto_valid,
    moved_board, pieces_of, pieces_upto, piece_count, pos_of_idx, promoted_board,
};

verus! {

/// The king of the given color.
pub open spec fn king_of(color: PieceColor) -> Piece {
    Piece { color, piece: PieceType::King }
}

/// The absolute value of an integer.
pub open spec fn iabs(x: int) -> int {
    if x >= 0 {
        x
    } else {
        -x
    }
}

/// The sign of an integer: -1, 0 or 1.
pub open spec fn sgn(x: int) -> int {
    if x > 0 {
        1
    } else if x < 0 {
        -1
    } else {
        0
    }
}

/// The Chebyshev distance between two squares: the number of king steps.
pub open spec fn cheb(a: Position, b: Position) -> int {
    let dr = iabs(a.rank - b.rank);
    let df = iabs(a.file - b.file);
    if dr >= df {
        dr
    } else {
        df
    }
}

/// The two squares share a rank, a file, or a diagonal.
pub open spec fn aligned(a: Position, b: Position) -> bool {
    a.rank == b.rank || a.file == b.file || iabs(a.rank - b.rank) == iabs(a.file - b.file)
}

/// Walking one square at a time from `cur` toward `target` (each coordinate
/// stepping by the sign of its remaining difference), every square strictly
/// between is vacant and the walk stays on the board until `target` is
/// reached.
pub open spec fn clear_between(b: Seq<Option<Piece>>, cur: Position, target: Position) -> bool
    decreases cheb(cur, target),
{
    let nr = cur.rank + sgn(target.rank - cur.rank);
    let nf = cur.file + sgn(target.file - cur.file);
    if nr == target.rank && nf == target.file {
        true
    } else if 0 <= nr < 8 && 0 <= nf < 8 {
        let next = Position { rank: nr as u8, file: nf as u8 };
        if at(b, next) is Some {
            false
        } else {
            clear_between(b, next, target)
        }
    } else {
        false
    }
}

/// How many steps in direction (`dr`, `df`) stay on the board from `cur`:
/// a bound used to ground the sliding-walk recursion.
pub open spec fn edge_steps(cur: Position, dr: int, df: int) -> int {
    let mr = if dr > 0 {
        7 - cur.rank
    } else if dr < 0 {
        cur.rank as int
    } else {
        8
    };
    let mf = if df > 0 {
        7 - cur.file
    } else if df < 0 {
        cur.file as int
    } else {
        8
    };
    if mr <= mf {
        mr
    } else {
        mf
    }
}

/// The spec-level pairs of a generated move list: each origin square with
/// the mathematical sequence of its destinations.
pub open spec fn pair_view(s: Seq<(Position, Vec<Position>)>) -> Seq<(Position, Seq<Position>)> {
    s.map_values(|pr: (Position, Vec<Position>)| (pr.0, pr.1@))
}

/// The raw movement shape of `piece`, standing at `from` on placement `b`,
/// covers `target`: pawn diagonal capture squares, knight jumps, sliding
/// rays blocked by the first occupied square, king adjacency.
pub open spec fn piece_attacks(
    b: Seq<Option<Piece>>,
    from: Position,
    piece: Piece,
    target: Position,
) -> bool {
    match piece.piece {
        PieceType::Pawn => match from.step_spec(piece.color.pawn_dir(), 0) {
            Some(pm) => pm.rank == target.rank && iabs(pm.file - target.file) == 1,
            None => false,
        },
        PieceType::Knight => {
            let dr = iabs(from.rank - target.rank);
            let df = iabs(from.file - target.file);
            (dr == 1 && df == 2) || (dr == 2 && df == 1)
        },
        PieceType::Bishop => iabs(from.rank - target.rank) == iabs(from.file - target.file)
            && clear_between(b, from, target),
        PieceType::Rook => (from.rank == target.rank || from.file == target.file) && clear_between(
            b,
            from,
            target,
        ),
        PieceType::Queen => (iabs(from.rank - target.rank) == iabs(from.file - target.file)
            || from.rank == target.rank || from.file == target.file) && clear_between(
            b,
            from,
            target,
        ),
        PieceType::King => iabs(from.rank - target.rank) <= 1 && iabs(from.file - target.file)
            <= 1,
    }
}

/// Some piece of `color` on placement `b` attacks `target`.
pub open spec fn attacks_spec(b: Seq<Option<Piece>>, color: PieceColor, target: Position) -> bool {
    exists|pp: (Position, Piece)|
        #[trigger] pieces_of(b, color).contains(pp) && piece_attacks(b, pp.0, pp.1, target)
}

/// Every entry of `pieces_upto` names a board square of the requested color
/// and the piece standing there.
pub proof fn lemma_pieces_upto_sound(b: Seq<Option<Piece>>, color: PieceColor, n: int, i: int)
    requires
        0 <= n <= 64,
        0 <= i < pieces_upto(b, color, n).len(),
    ensures
        pieces_upto(b, color, n)[i].0.valid(),
        pieces_upto(b, color, n)[i].0.idx() < n,
        at(b, pieces_upto(b, color, n)[i].0) == Some(pieces_upto(b, color, n)[i].1),
        pieces_upto(b, color, n)[i].1.color == color,
    decreases n,
{
    if n > 0 {
        let rest = pieces_upto(b, color, n - 1);
        if i < rest.len() {
            lemma_pieces_upto_sound(b, color, n - 1, i);
        }
    }
}

/// Every board square holding a piece of the requested color appears in
/// `pieces_upto`.
pub proof fn lemma_pieces_upto_contains(
    b: Seq<Option<Piece>>,
    color: PieceColor,
    n: int,
    p: Position,
)
    requires
        0 <= n <= 64,
        p.valid(),
        p.idx() < n,
        at(b, p) is Some,
        at(b, p).unwrap().color == color,
    ensures
        pieces_upto(b, color, n).contains((p, at(b, p).unwrap())),
    decreases n,
{
    if p.idx() == n - 1 {
        assert(pos_of_idx(n - 1) == p);
        assert(pieces_upto(b, color, n)[pieces_upto(b, color, n).len() - 1] == (
            p,
            at(b, p).unwrap(),
        ));
    } else {
        lemma_pieces_upto_contains(b, color, n - 1, p);
        let rest = pieces_upto(b, color, n - 1);
        let j = choose|j: int| 0 <= j < rest.len() && rest[j] == (p, at(b, p).unwrap());
        assert(pieces_upto(b, color, n)[j] == (p, at(b, p).unwrap()));
    }
}

/// The game outcome once the side to move has no legal moves.
#[derive(Clone, Copy, PartialEq, Eq, Structural, Debug)]
pub enum Outcome {
    Win(PieceColor),
    Draw,
}

/// The promotion choices offered to a pawn reaching its last rank, in the
/// order the search explores them.
pub open spec fn promotions_spec() -> Seq<PieceType> {
    seq![PieceType::Queen, PieceType::Rook, PieceType::Bishop, PieceType::Knight]
}

/// The promotion choices, in search order.
pub fn promotions() -> (r: Vec<PieceType>)
    ensures
        r@ == promotions_spec(),
{
    let mut r: Vec<PieceType> = Vec::new();
    r.push(PieceType::Queen);
    r.push(PieceType::Rook);
    r.push(PieceType::Bishop);
    r.push(PieceType::Knight);
    proof {
        assert(r@ =~= promotions_spec());
    }
    r
}

/// The en-passant marker after the piece at `from` moves to `to`: set to
/// `to` exactly when a pawn advances two ranks, cleared otherwise.
pub open spec fn ep_after(b: Seq<Option<Piece>>, from: Position, to: Position) -> Option<
    Position,
> {
    match at(b, from) {
        Some(piece) => if piece.piece == PieceType::Pawn && (from.rank - to.rank == 2
            || to.rank - from.rank == 2) {
            Some(to)
        } else {
            None
        },
        None => None,
    }
}

/// The castling rights after `piece` moves away from `from`: a king or a
/// corner rook departing its starting square forfeits the matching right.
pub open spec fn castling_after(c: Castling, piece: Piece, from: Position) -> Castling {
    if from.rank == piece.color.piece_starting_rank_spec() {
        if piece.piece == PieceType::King && from.file == 4 {
            c.with(piece.color, c.of(piece.color).after_king_move())
        } else if piece.piece == PieceType::Rook && from.file == 0 {
            c.with(piece.color, c.of(piece.color).after_queenside_rook_move())
        } else if piece.piece == PieceType::Rook && from.file == 7 {
            c.with(piece.color, c.of(piece.color).after_kingside_rook_move())
        } else {
            c
        }
    } else {
        c
    }
}

/// Whether the walk from `position` straight toward `target` (one square at
/// a time) reaches `target` before hitting an occupied square.
fn sliding_attacks(board: &Board, position: Position, target: Position) -> (r: bool)
    requires
        board.wf(),
        position.valid(),
        target.valid(),
        aligned(position, target),
    ensures
        r == clear_between(board@, position, target),
{
    let dr: i8 = if target.rank > position.rank {
        1
    } else if target.rank < position.rank {
        -1
    } else {
        0
    };
    let df: i8 = if target.file > position.file {
        1
    } else if target.file < position.file {
        -1
    } else {
        0
    };
    let mut cur = position;
    loop
        invariant
            board.wf(),
            cur.valid(),
            target.valid(),
            aligned(cur, target),
            dr == sgn(target.rank - cur.rank),
            df == sgn(target.file - cur.file),
            clear_between(board@, cur, target) == clear_between(board@, position, target),
        decreases cheb(cur, target),
    {
        let nr: i8 = cur.rank as i8 + dr;
        let nf: i8 = cur.file as i8 + df;
        if nr == target.rank as i8 && nf == target.file as i8 {
            return true;
        }
        let next = Position::new(nr as u8, nf as u8);
        if !board.is_vacant(next) {
            return false;
        }
        cur = next;
    }
}

/// Whether the raw movement shape of `piece`, standing at `from`, covers
/// `target`.
fn piece_attacks_exec(board: &Board, from: Position, piece: Piece, target: Position) -> (r: bool)
    requires
        board.wf(),
        from.valid(),
        target.valid(),
    ensures
        r == piece_attacks(board@, from, piece, target),
{
    let dr: u8 = if from.rank > target.rank {
        from.rank - target.rank
    } else {
        target.rank - from.rank
    };
    let df: u8 = if from.file > target.file {
        from.file - target.file
    } else {
        target.file - from.file
    };
    match piece.piece {
        PieceType::Pawn => match from.pawn(piece.color) {
            Some(pm) => {
                let dpf: u8 = if pm.file > target.file {
                    pm.file - target.file
                } else {
                    target.file - pm.file
                };
                pm.rank == target.rank && dpf == 1
            },
            None => false,
        },
        PieceType::Knight => (dr == 1 && df == 2) || (dr == 2 && df == 1),
        PieceType::Bishop => dr == df && sliding_attacks(board, from, target),
        PieceType::Rook => (from.rank == target.rank || from.file == target.file)
            && sliding_attacks(board, from, target),
        PieceType::Queen => (dr == df || from.rank == target.rank || from.file == target.file)
            && sliding_attacks(board, from, target),
        PieceType::King => dr <= 1 && df <= 1,
    }
}

/// Whether some piece of `color` attacks `target` on this board.
pub(crate) fn board_attacks(board: &Board, color: PieceColor, target: Position) -> (r: bool)
    requires
        board.wf(),
        target.valid(),
    ensures
        r == attacks_spec(board@, color, target),
{
    let pieces = board.iter(color);
    let n = pieces.len();
    let mut i: usize = 0;
    while i < n
        invariant
            board.wf(),
            target.valid(),
            n == pieces@.len(),
            i <= n,
            pieces@ == pieces_of(board@, color),
            forall|j: int|
                0 <= j < i ==> !piece_attacks(board@, pieces@[j].0, pieces@[j].1, target),
        decreases n - i,
    {
        let (p, piece) = pieces[i];
        proof {
            lemma_pieces_upto_sound(board@, color, 64, i as int);
        }
        if piece_attacks_exec(board, p, piece, target) {
            proof {
                assert(pieces_of(board@, color).contains((p, piece)));
            }
            return true;
        }
        i = i + 1;
    }
    proof {
        assert forall|pp: (Position, Piece)| #[trigger]
            pieces_of(board@, color).contains(pp) implies !piece_attacks(
            board@,
            pp.0,
            pp.1,
            target,
        ) by {
            let j = choose|j: int|
                0 <= j < pieces_of(board@, color).len() && pieces_of(board@, color)[j] == pp;
            assert(!piece_attacks(board@, pieces@[j].0, pieces@[j].1, target));
        }
    }
    false
}

/// Each entry of `moves_upto` names a square holding a piece of the side to
/// move, paired with exactly that piece's destinations.
pub proof fn lemma_moves_upto_elem(g: Game, n: int, i: int)
    requires
        0 <= n <= 64,
        0 <= i < g.moves_upto(n).len(),
    ensures
        g.moves_upto(n)[i].0.valid(),
        g.moves_upto(n)[i].0.idx() < n,
        at(g.board@, g.moves_upto(n)[i].0) is Some,
        at(g.board@, g.moves_upto(n)[i].0).unwrap().color == g.turn,
        g.moves_upto(n)[i].1 == g.dests_spec(
            g.moves_upto(n)[i].0,
            at(g.board@, g.moves_upto(n)[i].0).unwrap(),
        ),
    decreases n,
{
    if n > 0 {
        let rest = g.moves_upto(n - 1);
        if i < rest.len() {
            lemma_moves_upto_elem(g, n - 1, i);
        } else {
            assert(pos_of_idx(n - 1).idx() == n - 1);
        }
    }
}

/// Every square a sliding walk yields lies on the board.
pub proof fn lemma_slide_valid(g: Game, from: Position, cur: Position, dr: int, df: int)
    ensures
        forall|j: int|
            0 <= j < g.slide_from(from, cur, dr, df).len() ==> (#[trigger] g.slide_from(
                from,
                cur,
                dr,
                df,
            )[j]).valid(),
    decreases edge_steps(cur, dr, df),
{
    if cur.valid() && !(dr == 0 && df == 0) {
        match cur.step_spec(dr, df) {
            None => {},
            Some(to) => {
                if at(g.board@, to) is None {
                    lemma_slide_valid(g, from, to, dr, df);
                    let rest = g.slide_from(from, to, dr, df);
                    let s = g.slide_from(from, cur, dr, df);
                    assert forall|j: int| 0 <= j < s.len() implies s[j].valid() by {
                        if g.move_is_safe(from, to) {
                            assert(s == Seq::empty().push(to) + rest);
                            if j > 0 {
                                assert(s[j] == rest[j - 1]);
                            }
                        } else {
                            assert(s == rest);
                        }
                    }
                }
            },
        }
    }
}

/// `offset_try` keeps a valid accumulator valid.
proof fn lemma_offset_try_valid(g: Game, from: Position, acc: Seq<Position>, dr: int, df: int)
    requires
        forall|j: int| 0 <= j < acc.len() ==> (#[trigger] acc[j]).valid(),
    ensures
        forall|j: int|
            0 <= j < g.offset_try(from, acc, dr, df).len() ==> (#[trigger] g.offset_try(
                from,
                acc,
                dr,
                df,
            )[j]).valid(),
{
}

/// `king_try` keeps a valid accumulator valid.
proof fn lemma_king_try_valid(g: Game, from: Position, acc: Seq<Position>, dr: int, df: int)
    requires
        forall|j: int| 0 <= j < acc.len() ==> (#[trigger] acc[j]).valid(),
    ensures
        forall|j: int|
            0 <= j < g.king_try(from, acc, dr, df).len() ==> (#[trigger] g.king_try(
                from,
                acc,
                dr,
                df,
            )[j]).valid(),
{
}

/// Every destination a pawn generates lies on the board.
proof fn lemma_pawn_dests_valid(c: GameState, from: Position)
    requires
        from.valid(),
    ensures
        forall|j: int|
            0 <= j < c.pawn_dests_spec(from).len() ==> (#[trigger] c.pawn_dests_spec(
                from,
            )[j]).valid(),
{
}

/// Every destination the generator yields lies on the board.
pub proof fn lemma_dests_valid(g: Game, from: Position, piece: Piece)
    requires
        from.valid(),
    ensures
        forall|j: int|
            0 <= j < g.dests_spec(from, piece).len() ==> (#[trigger] g.dests_spec(
                from,
                piece,
            )[j]).valid(),
{
    let c = g.state();
    match piece.piece {
        PieceType::Pawn => {
            lemma_pawn_dests_valid(c, from);
            assert forall|j: int|
                0 <= j < g.dests_spec(from, piece).len() implies (#[trigger] g.dests_spec(
                from,
                piece,
            )[j]).valid() by {
                assert(g.dests_spec(from, piece) == c.pawn_dests_spec(from));
                assert(c.pawn_dests_spec(from)[j].valid());
            }
        },
        PieceType::Knight => {
            let s1 = g.offset_try(from, Seq::empty(), 2, -1);
            let s2 = g.offset_try(from, s1, 2, 1);
            let s3 = g.offset_try(from, s2, 1, -2);
            let s4 = g.offset_try(from, s3, -1, -2);
            let s5 = g.offset_try(from, s4, -2, -1);
            let s6 = g.offset_try(from, s5, -2, 1);
            let s7 = g.offset_try(from, s6, 1, 2);
            let s8 = g.offset_try(from, s7, -1, 2);
            lemma_offset_try_valid(g, from, Seq::empty(), 2, -1);
            lemma_offset_try_valid(g, from, s1, 2, 1);
            lemma_offset_try_valid(g, from, s2, 1, -2);
            lemma_offset_try_valid(g, from, s3, -1, -2);
            lemma_offset_try_valid(g, from, s4, -2, -1);
            lemma_offset_try_valid(g, from, s5, -2, 1);
            lemma_offset_try_valid(g, from, s6, 1, 2);
            lemma_offset_try_valid(g, from, s7, -1, 2);
            assert forall|j: int|
                0 <= j < g.dests_spec(from, piece).len() implies (#[trigger] g.dests_spec(
                from,
                piece,
            )[j]).valid() by {
                assert(g.dests_spec(from, piece) == s8);
                assert(s8[j].valid());
            }
        },
        PieceType::King => {
            let s1 = g.king_try(from, Seq::empty(), 1, 0);
            let s2 = g.king_try(from, s1, 1, 1);
            let s3 = g.king_try(from, s2, 0, 1);
            let s4 = g.king_try(from, s3, -1, 1);
            let s5 = g.king_try(from, s4, -1, 0);
            let s6 = g.king_try(from, s5, -1, -1);
            let s7 = g.king_try(from, s6, 0, -1);
            let s8 = g.king_try(from, s7, 1, -1);
            lemma_king_try_valid(g, from, Seq::empty(), 1, 0);
            lemma_king_try_valid(g, from, s1, 1, 1);
            lemma_king_try_valid(g, from, s2, 0, 1);
            lemma_king_try_valid(g, from, s3, -1, 1);
            lemma_king_try_valid(g, from, s4, -1, 0);
            lemma_king_try_valid(g, from, s5, -1, -1);
            lemma_king_try_valid(g, from, s6, 0, -1);
            lemma_king_try_valid(g, from, s7, 1, -1);
            let s9 = match g.queenside_castle_dest(from) {
                Some(t) => s8.push(t),
                None => s8,
            };
            let s10 = match g.kingside_castle_dest(from) {
                Some(t) => s9.push(t),
                None => s9,
            };
            assert forall|j: int|
                0 <= j < g.dests_spec(from, piece).len() implies (#[trigger] g.dests_spec(
                from,
                piece,
            )[j]).valid() by {
                assert(g.dests_spec(from, piece) == s10);
                match g.queenside_castle_dest(from) {
                    Some(t) => {
                        assert(t.valid());
                    },
                    None => {},
                }
                match g.kingside_castle_dest(from) {
                    Some(t) => {
                        assert(t.valid());
                    },
                    None => {},
                }
                assert(s10[j].valid());
            }
        },
        PieceType::Bishop => {
            lemma_dests_valid_slides(
                g,
                from,
                piece,
                g.slide_from(from, from, 1, -1),
                g.slide_from(from, from, 1, 1),
                g.slide_from(from, from, -1, -1),
                g.slide_from(from, from, -1, 1),
                1,
                -1,
                1,
                1,
                -1,
                -1,
                -1,
                1,
            );
        },
        PieceType::Rook => {
            lemma_dests_valid_slides(
                g,
                from,
                piece,
                g.slide_from(from, from, 1, 0),
                g.slide_from(from, from, 0, -1),
                g.slide_from(from, from, -1, 0),
                g.slide_from(from, from, 0, 1),
                1,
                0,
                0,
                -1,
                -1,
                0,
                0,
                1,
            );
        },
        PieceType::Queen => {
            let a = g.slide_from(from, from, 1, 0);
            let b = g.slide_from(from, from, 0, -1);
            let cc = g.slide_from(from, from, -1, 0);
            let d = g.slide_from(from, from, 0, 1);
            let e = g.slide_from(from, from, 1, -1);
            let f = g.slide_from(from, from, 1, 1);
            let h = g.slide_from(from, from, -1, -1);
            let k = g.slide_from(from, from, -1, 1);
            lemma_slide_valid(g, from, from, 1, 0);
            lemma_slide_valid(g, from, from, 0, -1);
            lemma_slide_valid(g, from, from, -1, 0);
            lemma_slide_valid(g, from, from, 0, 1);
            lemma_slide_valid(g, from, from, 1, -1);
            lemma_slide_valid(g, from, from, 1, 1);
            lemma_slide_valid(g, from, from, -1, -1);
            lemma_slide_valid(g, from, from, -1, 1);
            assert forall|j: int|
                0 <= j < g.dests_spec(from, piece).len() implies (#[trigger] g.dests_spec(
                from,
                piece,
            )[j]).valid() by {
                assert(g.dests_spec(from, piece) == a + b + cc + d + e + f + h + k);
            }
        },
    }
}

/// The four-direction slider case of `lemma_dests_valid`.
proof fn lemma_dests_valid_slides(
    g: Game,
    from: Position,
    piece: Piece,
    a: Seq<Position>,
    b: Seq<Position>,
    c: Seq<Position>,
    d: Seq<Position>,
    r1: int,
    f1: int,
    r2: int,
    f2: int,
    r3: int,
    f3: int,
    r4: int,
    f4: int,
)
    requires
        from.valid(),
        g.dests_spec(from, piece) == a + b + c + d,
        a == g.slide_from(from, from, r1, f1),
        b == g.slide_from(from, from, r2, f2),
        c == g.slide_from(from, from, r3, f3),
        d == g.slide_from(from, from, r4, f4),
    ensures
        forall|j: int|
            0 <= j < g.dests_spec(from, piece).len() ==> (#[trigger] g.dests_spec(
                from,
                piece,
            )[j]).valid(),
{
    lemma_slide_valid(g, from, from, r1, f1);
    lemma_slide_valid(g, from, from, r2, f2);
    lemma_slide_valid(g, from, from, r3, f3);
    lemma_slide_valid(g, from, from, r4, f4);
    assert forall|j: int|
        0 <= j < g.dests_spec(from, piece).len() implies (#[trigger] g.dests_spec(
        from,
        piece,
    )[j]).valid() by {
        assert(g.dests_spec(from, piece) == a + b + c + d);
    }
}

/// The mathematical state of a game: the side to move, the placement as a
/// sequence of squares, the en-passant marker and the castling rights. The
/// move generator, the outcome and the search value are all specified over
/// this state, so that successor states can be written down in spec code.
pub struct GameState {
    pub turn: PieceColor,
    pub board: Seq<Option<Piece>>,
    pub just_advanced_two: Option<Position>,
    pub castling: Castling,
}

impl GameState {
    /// Structural well-formedness: 64 squares, and the en-passant marker,
    /// if set, names a square on the board.
    pub open spec fn wf0(self) -> bool {
        &&& self.board.len() == 64
        &&& match self.just_advanced_two {
            Some(p) => p.valid(),
            None => true,
        }
    }

    /// The full game invariant of a position in play: each color has exactly
    /// one king; no pawn sits on a first or last rank; the en-passant marker,
    /// if set, holds the enemy pawn that just advanced two ranks, with the
    /// square it skipped vacant; and a color still holding a castling right
    /// has its king on its starting square.
    pub open spec fn wf(self) -> bool {
        &&& self.wf0()
        &&& piece_count(self.board, king_of(PieceColor::White)) == 1
        &&& piece_count(self.board, king_of(PieceColor::Black)) == 1
        &&& forall|p: Position|
            p.valid() ==> ((#[trigger] at(self.board, p)) matches Some(pc) && pc.piece
                == PieceType::Pawn ==> 0 < p.rank < 7)
        &&& match self.just_advanced_two {
            Some(ep) => at(self.board, ep) == Some(
                Piece { color: self.turn.opposite_spec(), piece: PieceType::Pawn },
            ) && (ep.step_spec(self.turn.pawn_dir(), 0) matches Some(sk) && at(self.board, sk)
                is None),
            None => true,
        }
        &&& self.castle_squares_ok(PieceColor::White)
        &&& self.castle_squares_ok(PieceColor::Black)
    }

    /// A color that still holds a castling right has its king on its
    /// starting square.
    pub open spec fn castle_squares_ok(self, color: PieceColor) -> bool {
        (self.castling.of(color).can_queenside() || self.castling.of(color).can_kingside()) ==> at(
            self.board,
            Position { rank: color.piece_starting_rank_spec(), file: 4 },
        ) == Some(king_of(color))
    }

    /// The side to move's king square: the first king of that color in
    /// board order.
    pub open spec fn king_square(self) -> Option<Position> {
        find_piece(self.board, king_of(self.turn))
    }

    /// The placement after simulating the move of the piece at `from` to
    /// `to` for check testing, auto-promoting a promoting pawn to a queen
    /// (the choice cannot affect whether the mover's king is safe).
    pub open spec fn board_after_sim(self, from: Position, to: Position) -> Seq<Option<Piece>> {
        if self.is_promotion_spec(from, to) {
            promoted_board(self.board, from, to, PieceType::Queen)
        } else {
            moved_board(self.board, from, to)
        }
    }

    /// A candidate move of a non-king piece leaves the mover's king (the
    /// first one in board order, if any) unattacked.
    pub open spec fn move_is_safe(self, from: Position, to: Position) -> bool {
        match self.king_square() {
            Some(k) => !attacks_spec(
                self.board_after_sim(from, to),
                self.turn.opposite_spec(),
                k,
            ),
            None => true,
        }
    }

    /// A king step to `to` leaves `to` unattacked after the move.
    pub open spec fn king_move_is_safe(self, from: Position, to: Position) -> bool {
        !attacks_spec(moved_board(self.board, from, to), self.turn.opposite_spec(), to)
    }

    /// The given square is vacant.
    pub open spec fn vacant(self, p: Position) -> bool {
        at(self.board, p) is None
    }

    /// The given square holds a piece of the side not to move.
    pub open spec fn enemy_at(self, p: Position) -> bool {
        match at(self.board, p) {
            Some(pc) => pc.color == self.turn.opposite_spec(),
            None => false,
        }
    }

    /// The given square does not hold a piece of the side to move.
    pub open spec fn not_own_at(self, p: Position) -> bool {
        match at(self.board, p) {
            Some(pc) => pc.color != self.turn,
            None => true,
        }
    }

    /// The en-passant marker sits one file to the given side of `from` and
    /// holds an enemy piece.
    pub open spec fn ep_capture_ok(self, from: Position, side: int) -> bool {
        match self.just_advanced_two {
            Some(pos) => Some(pos) == from.step_spec(0, side) && (match at(self.board, pos) {
                Some(pc) => pc.color == self.turn.opposite_spec(),
                None => false,
            }),
            None => false,
        }
    }

    /// A pawn's destinations from `from`: single push onto a vacant square,
    /// double push from the starting rank through vacant squares, diagonal
    /// captures of enemy pieces or of the en-passant marker's pawn — each
    /// kept only if the mover's king stays safe.
    pub open spec fn pawn_dests_spec(self, from: Position) -> Seq<Position> {
        match from.step_spec(self.turn.pawn_dir(), 0) {
            None => Seq::empty(),
            Some(forward) => {
                let s1 = if self.vacant(forward) && self.move_is_safe(from, forward) {
                    Seq::empty().push(forward)
                } else {
                    Seq::empty()
                };
                let s2 = match forward.step_spec(self.turn.pawn_dir(), 0) {
                    Some(f2) => if from.rank == self.turn.pawn_starting_rank_spec()
                        && self.vacant(forward) && self.vacant(f2) && self.move_is_safe(from, f2) {
                        s1.push(f2)
                    } else {
                        s1
                    },
                    None => s1,
                };
                let s3 = match forward.step_spec(0, -1) {
                    Some(cl) => if (self.enemy_at(cl) || self.ep_capture_ok(from, -1))
                        && self.move_is_safe(from, cl) {
                        s2.push(cl)
                    } else {
                        s2
                    },
                    None => s2,
                };
                match forward.step_spec(0, 1) {
                    Some(cr) => if (self.enemy_at(cr) || self.ep_capture_ok(from, 1))
                        && self.move_is_safe(from, cr) {
                        s3.push(cr)
                    } else {
                        s3
                    },
                    None => s3,
                }
            },
        }
    }

    /// Append the offset square if it is on the board, not own-occupied, and
    /// the move keeps the mover's king safe.
    pub open spec fn offset_try(self, from: Position, acc: Seq<Position>, dr: int, df: int) -> Seq<
        Position,
    > {
        match from.step_spec(dr, df) {
            Some(to) => if self.not_own_at(to) && self.move_is_safe(from, to) {
                acc.push(to)
            } else {
                acc
            },
            None => acc,
        }
    }

    /// A knight's destinations: the eight jumps, filtered as `offset_try`.
    pub open spec fn knight_dests_spec(self, from: Position) -> Seq<Position> {
        let s1 = self.offset_try(from, Seq::empty(), 2, -1);
        let s2 = self.offset_try(from, s1, 2, 1);
        let s3 = self.offset_try(from, s2, 1, -2);
        let s4 = self.offset_try(from, s3, -1, -2);
        let s5 = self.offset_try(from, s4, -2, -1);
        let s6 = self.offset_try(from, s5, -2, 1);
        let s7 = self.offset_try(from, s6, 1, 2);
        self.offset_try(from, s7, -1, 2)
    }

    /// Append the adjacent square if it is on the board, not own-occupied,
    /// and the king is not attacked on it after the move.
    pub open spec fn king_try(self, from: Position, acc: Seq<Position>, dr: int, df: int) -> Seq<
        Position,
    > {
        match from.step_spec(dr, df) {
            Some(to) => if self.not_own_at(to) && self.king_move_is_safe(from, to) {
                acc.push(to)
            } else {
                acc
            },
            None => acc,
        }
    }

    /// The queenside castling destination, if castling that way is allowed:
    /// the right is held, the three squares toward the rook are vacant, and
    /// neither the king's square nor the two squares it crosses are attacked.
    pub open spec fn queenside_castle_dest(self, from: Position) -> Option<Position> {
        if self.castling.of(self.turn).can_queenside() {
            match (from.step_spec(0, -1), from.step_spec(0, -2), from.step_spec(0, -3)) {
                (Some(l1), Some(l2), Some(l3)) => if self.vacant(l1) && self.vacant(l2)
                    && self.vacant(l3) && !attacks_spec(
                    self.board,
                    self.turn.opposite_spec(),
                    from,
                ) && !attacks_spec(self.board, self.turn.opposite_spec(), l1) && !attacks_spec(
                    self.board,
                    self.turn.opposite_spec(),
                    l2,
                ) {
                    Some(l2)
                } else {
                    None
                },
                _ => None,
            }
        } else {
            None
        }
    }

    /// The kingside castling destination, if castling that way is allowed.
    pub open spec fn kingside_castle_dest(self, from: Position) -> Option<Position> {
        if self.castling.of(self.turn).can_kingside() {
            match (from.step_spec(0, 1), from.step_spec(0, 2)) {
                (Some(r1), Some(r2)) => if self.vacant(r1) && self.vacant(r2) && !attacks_spec(
                    self.board,
                    self.turn.opposite_spec(),
                    from,
                ) && !attacks_spec(self.board, self.turn.opposite_spec(), r1) && !attacks_spec(
                    self.board,
                    self.turn.opposite_spec(),
                    r2,
                ) {
                    Some(r2)
                } else {
                    None
                },
                _ => None,
            }
        } else {
            None
        }
    }

    /// A king's plain destinations: the eight adjacent squares, filtered as
    /// `king_try`.
    pub open spec fn king_steps_spec(self, from: Position) -> Seq<Position> {
        let s1 = self.king_try(from, Seq::empty(), 1, 0);
        let s2 = self.king_try(from, s1, 1, 1);
        let s3 = self.king_try(from, s2, 0, 1);
        let s4 = self.king_try(from, s3, -1, 1);
        let s5 = self.king_try(from, s4, -1, 0);
        let s6 = self.king_try(from, s5, -1, -1);
        let s7 = self.king_try(from, s6, 0, -1);
        self.king_try(from, s7, 1, -1)
    }

    /// A king's destinations: the eight adjacent squares, then the castling
    /// destinations.
    pub open spec fn king_dests_spec(self, from: Position) -> Seq<Position> {
        let s8 = self.king_steps_spec(from);
        let s9 = match self.queenside_castle_dest(from) {
            Some(t) => s8.push(t),
            None => s8,
        };
        match self.kingside_castle_dest(from) {
            Some(t) => s9.push(t),
            None => s9,
        }
    }

    /// Walking from `cur` one step at a time in direction (`dr`, `df`): the
    /// empty squares passed (each kept only if the mover's king stays safe),
    /// stopping at the first occupied square, which is kept only if enemy.
    pub open spec fn slide_from(self, from: Position, cur: Position, dr: int, df: int) -> Seq<
        Position,
    >
        decreases edge_steps(cur, dr, df),
    {
        if !cur.valid() || (dr == 0 && df == 0) {
            Seq::empty()
        } else {
            match cur.step_spec(dr, df) {
                None => Seq::empty(),
                Some(to) => match at(self.board, to) {
                    Some(other) => if other.color != self.turn && self.move_is_safe(from, to) {
                        Seq::empty().push(to)
                    } else {
                        Seq::empty()
                    },
                    None => {
                        let rest = self.slide_from(from, to, dr, df);
                        if self.move_is_safe(from, to) {
                            Seq::empty().push(to) + rest
                        } else {
                            rest
                        }
                    },
                },
            }
        }
    }

    /// The destinations of the piece `piece` standing at `from`, in the
    /// order generation visits them.
    pub open spec fn dests_spec(self, from: Position, piece: Piece) -> Seq<Position> {
        match piece.piece {
            PieceType::Pawn => self.pawn_dests_spec(from),
            PieceType::Knight => self.knight_dests_spec(from),
            PieceType::Bishop => self.slide_from(from, from, 1, -1) + self.slide_from(
                from,
                from,
                1,
                1,
            ) + self.slide_from(from, from, -1, -1) + self.slide_from(from, from, -1, 1),
            PieceType::Rook => self.slide_from(from, from, 1, 0) + self.slide_from(
                from,
                from,
                0,
                -1,
            ) + self.slide_from(from, from, -1, 0) + self.slide_from(from, from, 0, 1),
            PieceType::Queen => self.slide_from(from, from, 1, 0) + self.slide_from(
                from,
                from,
                0,
                -1,
            ) + self.slide_from(from, from, -1, 0) + self.slide_from(from, from, 0, 1)
                + self.slide_from(from, from, 1, -1) + self.slide_from(from, from, 1, 1)
                + self.slide_from(from, from, -1, -1) + self.slide_from(from, from, -1, 1),
            PieceType::King => self.king_dests_spec(from),
        }
    }

    /// The legal moves arising from the first `n` squares: each own piece in
    /// board order, paired with its destinations.
    pub open spec fn moves_upto(self, n: int) -> Seq<(Position, Seq<Position>)>
        decreases n,
    {
        if n <= 0 {
            Seq::empty()
        } else {
            let rest = self.moves_upto(n - 1);
            match self.board[n - 1] {
                Some(p) => if p.color == self.turn {
                    rest.push((pos_of_idx(n - 1), self.dests_spec(pos_of_idx(n - 1), p)))
                } else {
                    rest
                },
                None => rest,
            }
        }
    }

    /// The legal moves of the side to move: each own piece in board order,
    /// paired with its destinations in generation order.
    pub open spec fn moves_spec(self) -> Seq<(Position, Seq<Position>)> {
        self.moves_upto(64)
    }

    /// The side to move has no legal move at all.
    pub open spec fn moves_all_empty(self) -> bool {
        forall|i: int|
            0 <= i < self.moves_spec().len() ==> (#[trigger] self.moves_spec()[i]).1.len() == 0
    }

    /// The side to move's king (the first in board order) is attacked.
    pub open spec fn in_check_spec(self) -> bool {
        match self.king_square() {
            Some(k) => attacks_spec(self.board, self.turn.opposite_spec(), k),
            None => false,
        }
    }

    /// The outcome: `Win` for the opponent on checkmate, `Draw` on
    /// stalemate, nothing while the side to move still has a legal move.
    pub open spec fn status_spec(self) -> Option<Outcome> {
        if self.moves_all_empty() {
            if self.in_check_spec() {
                Some(Outcome::Win(self.turn.opposite_spec()))
            } else {
                Some(Outcome::Draw)
            }
        } else {
            None
        }
    }

    /// Whether moving the piece at `from` to `to` is a promotion: a pawn
    /// arriving on its color's last rank.
    pub open spec fn is_promotion_spec(self, from: Position, to: Position) -> bool {
        match at(self.board, from) {
            Some(pc) => pc.piece == PieceType::Pawn && to.rank == pc.color.promotion_rank(),
            None => false,
        }
    }

}

/// A game in progress: whose turn it is, the piece placement, the en-passant
/// marker (the square a pawn just advanced two ranks onto, if any), and both
/// players' castling rights.
pub struct Game {
    pub turn: PieceColor,
    pub board: Board,
    pub just_advanced_two: Option<Position>,
    pub castling: Castling,
}

impl Game {
    /// The mathematical state of this game.
    pub open spec fn state(self) -> GameState {
        GameState {
            turn: self.turn,
            board: self.board@,
            just_advanced_two: self.just_advanced_two,
            castling: self.castling,
        }
    }

    /// Structural well-formedness: 64 squares, and the en-passant marker,
    /// if set, names a square on the board.
    pub open spec fn wf0(self) -> bool {
        self.state().wf0()
    }

    /// The full game invariant of a position in play; see `GameState::wf`.
    pub open spec fn wf(self) -> bool {
        self.state().wf()
    }

    pub open spec fn castle_squares_ok(self, color: PieceColor) -> bool {
        self.state().castle_squares_ok(color)
    }

    pub open spec fn king_square(self) -> Option<Position> {
        self.state().king_square()
    }

    pub open spec fn board_after_sim(self, from: Position, to: Position) -> Seq<Option<Piece>> {
        self.state().board_after_sim(from, to)
    }

    pub open spec fn move_is_safe(self, from: Position, to: Position) -> bool {
        self.state().move_is_safe(from, to)
    }

    pub open spec fn king_move_is_safe(self, from: Position, to: Position) -> bool {
        self.state().king_move_is_safe(from, to)
    }

    pub open spec fn vacant(self, p: Position) -> bool {
        self.state().vacant(p)
    }

    pub open spec fn enemy_at(self, p: Position) -> bool {
        self.state().enemy_at(p)
    }

    pub open spec fn not_own_at(self, p: Position) -> bool {
        self.state().not_own_at(p)
    }

    pub open spec fn ep_capture_ok(self, from: Position, side: int) -> bool {
        self.state().ep_capture_ok(from, side)
    }

    pub open spec fn pawn_dests_spec(self, from: Position) -> Seq<Position> {
        self.state().pawn_dests_spec(from)
    }

    pub open spec fn offset_try(self, from: Position, acc: Seq<Position>, dr: int, df: int) -> Seq<
        Position,
    > {
        self.state().offset_try(from, acc, dr, df)
    }

    pub open spec fn knight_dests_spec(self, from: Position) -> Seq<Position> {
        self.state().knight_dests_spec(from)
    }

    pub open spec fn king_try(self, from: Position, acc: Seq<Position>, dr: int, df: int) -> Seq<
        Position,
    > {
        self.state().king_try(from, acc, dr, df)
    }

    pub open spec fn queenside_castle_dest(self, from: Position) -> Option<Position> {
        self.state().queenside_castle_dest(from)
    }

    pub open spec fn kingside_castle_dest(self, from: Position) -> Option<Position> {
        self.state().kingside_castle_dest(from)
    }

    pub open spec fn king_steps_spec(self, from: Position) -> Seq<Position> {
        self.state().king_steps_spec(from)
    }

    pub open spec fn king_dests_spec(self, from: Position) -> Seq<Position> {
        self.state().king_dests_spec(from)
    }

    pub open spec fn slide_from(self, from: Position, cur: Position, dr: int, df: int) -> Seq<
        Position,
    > {
        self.state().slide_from(from, cur, dr, df)
    }

    pub open spec fn dests_spec(self, from: Position, piece: Piece) -> Seq<Position> {
        self.state().dests_spec(from, piece)
    }

    pub open spec fn moves_upto(self, n: int) -> Seq<(Position, Seq<Position>)> {
        self.state().moves_upto(n)
    }

    pub open spec fn moves_spec(self) -> Seq<(Position, Seq<Position>)> {
        self.state().moves_spec()
    }

    pub open spec fn moves_all_empty(self) -> bool {
        self.state().moves_all_empty()
    }

    pub open spec fn in_check_spec(self) -> bool {
        self.state().in_check_spec()
    }

    pub open spec fn status_spec(self) -> Option<Outcome> {
        self.state().status_spec()
    }

    pub open spec fn is_promotion_spec(self, from: Position, to: Position) -> bool {
        self.state().is_promotion_spec(from, to)
    }

    /// The standard starting position, White to move.
    pub fn new() -> (r: Game)
        ensures
            r.turn == PieceColor::White,
            r.board@ == init_board(),
            r.just_advanced_two is None,
            r.castling.white == CastlingInfo::new_spec(),
            r.castling.black == CastlingInfo::new_spec(),
            r.wf(),
    {
        let turn = PieceColor::White;
        let board = Board::new();
        let just_advanced_two: Option<Position> = None;
        let castling = Castling::new();
        let g = Game { turn, board, just_advanced_two, castling };
        proof {
            laws::lemma_init_wf(g);
        }
        g
    }

    /// The side to move.
    pub fn turn(&self) -> (r: PieceColor)
        ensures
            r == self.turn,
    {
        self.turn
    }

    /// The piece (if any) on the given square.
    pub fn get(&self, p: Position) -> (r: Option<Piece>)
        requires
            self.wf0(),
            p.valid(),
        ensures
            r == at(self.board@, p),
    {
        self.board.get(p)
    }

    /// The pieces of `color`, in board order, each with its square.
    pub fn iter(&self, color: PieceColor) -> (r: Vec<(Position, Piece)>)
        requires
            self.wf0(),
        ensures
            r@ == pieces_of(self.board@, color),
    {
        self.board.iter(color)
    }

    /// Whether moving the piece at `from` to `to` would be a promotion.
    pub fn is_promotion(&self, from: Position, to: Position) -> (r: bool)
        requires
            self.wf0(),
            from.valid(),
            to.valid(),
        ensures
            r == self.is_promotion_spec(from, to),
    {
        match self.board.get(from) {
            Some(pc) => {
                let last: u8 = match pc.color {
                    PieceColor::White => 7,
                    PieceColor::Black => 0,
                };
                pc.piece == PieceType::Pawn && to.rank == last
            },
            None => false,
        }
    }

    /// Whether some piece of `color` attacks `target`. This raw movement
    /// coverage is deliberately independent of legal move generation, so
    /// check detection never recurses through move filtering.
    pub fn attacks(&self, color: PieceColor, target: Position) -> (r: bool)
        requires
            self.wf(),
            target.valid(),
        ensures
            r == attacks_spec(self.board@, color, target),
    {
        board_attacks(&self.board, color, target)
    }

    /// Whether the en-passant marker sits one file to `side` of `from` and
    /// holds an enemy piece.
    fn ep_capture_exec(&self, from: Position, side: i8) -> (r: bool)
        requires
            self.wf0(),
            from.valid(),
            -1 <= side <= 1,
        ensures
            r == self.ep_capture_ok(from, side as int),
    {
        match self.just_advanced_two {
            Some(pos) => {
                let adjacent = match from.step(0, side) {
                    Some(a) => a == pos,
                    None => false,
                };
                adjacent && (match self.board.get(pos) {
                    Some(pc) => pc.color == self.turn.opposite(),
                    None => false,
                })
            },
            None => false,
        }
    }

    /// Whether simulating the non-king move `from` to `to` leaves the
    /// mover's king unattacked.
    fn is_safe_move(&self, from: Position, to: Position, kp: Option<Position>) -> (r: bool)
        requires
            self.wf0(),
            from.valid(),
            to.valid(),
            at(self.board@, from) is Some,
            at(self.board@, from).unwrap().piece != PieceType::King,
            kp == self.king_square(),
            kp matches Some(k) ==> k.valid(),
        ensures
            r == self.move_is_safe(from, to),
    {
        match kp {
            Some(k) => {
                let after: Board = if self.is_promotion(from, to) {
                    self.board.promote(from, to, PieceType::Queen)
                } else {
                    self.board.move_total(from, to)
                };
                !board_attacks(&after, self.turn.opposite(), k)
            },
            None => true,
        }
    }

    /// Whether the king, after stepping from `from` to `to`, is unattacked
    /// on `to`.
    fn is_safe_king_move(&self, from: Position, to: Position) -> (r: bool)
        requires
            self.wf0(),
            from.valid(),
            to.valid(),
            at(self.board@, from) is Some,
        ensures
            r == self.king_move_is_safe(from, to),
    {
        let after = self.board.move_total(from, to);
        !board_attacks(&after, self.turn.opposite(), to)
    }

    /// A pawn's destinations, per `pawn_dests_spec`.
    fn pawn_dests(&self, from: Position, kp: Option<Position>) -> (r: Vec<Position>)
        requires
            self.wf0(),
            from.valid(),
            at(self.board@, from) is Some,
            at(self.board@, from).unwrap().piece == PieceType::Pawn,
            kp == self.king_square(),
            kp matches Some(k) ==> k.valid(),
        ensures
            r@ == self.pawn_dests_spec(from),
    {
        let mut moves: Vec<Position> = Vec::new();
        let color = self.turn;
        match from.pawn(color) {
            None => {},
            Some(forward) => {
                if self.board.is_vacant(forward) && self.is_safe_move(from, forward, kp) {
                    moves.push(forward);
                }
                match forward.pawn(color) {
                    Some(f2) => {
                        if from.rank == color.pawn_starting_rank() && self.board.is_vacant(forward)
                            && self.board.is_vacant(f2) && self.is_safe_move(from, f2, kp) {
                            moves.push(f2);
                        }
                    },
                    None => {},
                }
                match forward.left() {
                    Some(cl) => {
                        let cap = match self.board.get(cl) {
                            Some(o) => o.color == color.opposite(),
                            None => false,
                        };
                        if (cap || self.ep_capture_exec(from, -1)) && self.is_safe_move(
                            from,
                            cl,
                            kp,
                        ) {
                            moves.push(cl);
                        }
                    },
                    None => {},
                }
                match forward.right() {
                    Some(cr) => {
                        let cap = match self.board.get(cr) {
                            Some(o) => o.color == color.opposite(),
                            None => false,
                        };
                        if (cap || self.ep_capture_exec(from, 1)) && self.is_safe_move(
                            from,
                            cr,
                            kp,
                        ) {
                            moves.push(cr);
                        }
                    },
                    None => {},
                }
            },
        }
        moves
    }

    /// Append the offset square per `offset_try`.
    fn try_offset(
        &self,
        from: Position,
        dr: i8,
        df: i8,
        kp: Option<Position>,
        moves: &mut Vec<Position>,
    )
        requires
            self.wf0(),
            from.valid(),
            at(self.board@, from) is Some,
            at(self.board@, from).unwrap().piece != PieceType::King,
            kp == self.king_square(),
            kp matches Some(k) ==> k.valid(),
            -2 <= dr <= 2,
            -2 <= df <= 2,
        ensures
            final(moves)@ == self.offset_try(from, old(moves)@, dr as int, df as int),
    {
        match from.step(dr, df) {
            Some(to) => {
                let ok = match self.board.get(to) {
                    Some(o) => o.color != self.turn,
                    None => true,
                };
                if ok && self.is_safe_move(from, to, kp) {
                    moves.push(to);
                }
            },
            None => {},
        }
    }

    /// A knight's destinations, per `knight_dests_spec`.
    fn knight_dests(&self, from: Position, kp: Option<Position>) -> (r: Vec<Position>)
        requires
            self.wf0(),
            from.valid(),
            at(self.board@, from) is Some,
            at(self.board@, from).unwrap().piece != PieceType::King,
            kp == self.king_square(),
            kp matches Some(k) ==> k.valid(),
        ensures
            r@ == self.knight_dests_spec(from),
    {
        let mut moves: Vec<Position> = Vec::new();
        self.try_offset(from, 2, -1, kp, &mut moves);
        self.try_offset(from, 2, 1, kp, &mut moves);
        self.try_offset(from, 1, -2, kp, &mut moves);
        self.try_offset(from, -1, -2, kp, &mut moves);
        self.try_offset(from, -2, -1, kp, &mut moves);
        self.try_offset(from, -2, 1, kp, &mut moves);
        self.try_offset(from, 1, 2, kp, &mut moves);
        self.try_offset(from, -1, 2, kp, &mut moves);
        moves
    }

    /// Append the adjacent square per `king_try`.
    fn try_king_step(&self, from: Position, dr: i8, df: i8, moves: &mut Vec<Position>)
        requires
            self.wf0(),
            from.valid(),
            at(self.board@, from) is Some,
            -1 <= dr <= 1,
            -1 <= df <= 1,
        ensures
            final(moves)@ == self.king_try(from, old(moves)@, dr as int, df as int),
    {
        match from.step(dr, df) {
            Some(to) => {
                let ok = match self.board.get(to) {
                    Some(o) => o.color != self.turn,
                    None => true,
                };
                if ok && self.is_safe_king_move(from, to) {
                    moves.push(to);
                }
            },
            None => {},
        }
    }

    /// A king's destinations, per `king_dests_spec`: the eight steps, then
    /// castling, whose safety is gated on current attacks rather than a
    /// simulated successor, to avoid recursing through move generation.
    fn king_dests(&self, from: Position) -> (r: Vec<Position>)
        requires
            self.wf0(),
            from.valid(),
            at(self.board@, from) is Some,
        ensures
            r@ == self.king_dests_spec(from),
    {
        let mut moves: Vec<Position> = Vec::new();
        self.try_king_step(from, 1, 0, &mut moves);
        self.try_king_step(from, 1, 1, &mut moves);
        self.try_king_step(from, 0, 1, &mut moves);
        self.try_king_step(from, -1, 1, &mut moves);
        self.try_king_step(from, -1, 0, &mut moves);
        self.try_king_step(from, -1, -1, &mut moves);
        self.try_king_step(from, 0, -1, &mut moves);
        self.try_king_step(from, 1, -1, &mut moves);
        let opponent = self.turn.opposite();
        if self.castling.get(self.turn).can_castle_queenside() {
            match from.left() {
                Some(l1) => match l1.left() {
                    Some(l2) => match l2.left() {
                        Some(l3) => {
                            if self.board.is_vacant(l1) && self.board.is_vacant(l2)
                                && self.board.is_vacant(l3) && !board_attacks(
                                &self.board,
                                opponent,
                                from,
                            ) && !board_attacks(&self.board, opponent, l1) && !board_attacks(
                                &self.board,
                                opponent,
                                l2,
                            ) {
                                moves.push(l2);
                            }
                        },
                        None => {},
                    },
                    None => {},
                },
                None => {},
            }
        }
        proof {
            assert(moves@ == (match self.queenside_castle_dest(from) {
                Some(t) => self.king_steps_spec(from).push(t),
                None => self.king_steps_spec(from),
            }));
        }
        if self.castling.get(self.turn).can_castle_kingside() {
            match from.right() {
                Some(r1) => match r1.right() {
                    Some(r2) => {
                        if self.board.is_vacant(r1) && self.board.is_vacant(r2) && !board_attacks(
                            &self.board,
                            opponent,
                            from,
                        ) && !board_attacks(&self.board, opponent, r1) && !board_attacks(
                            &self.board,
                            opponent,
                            r2,
                        ) {
                            moves.push(r2);
                        }
                    },
                    None => {},
                },
                None => {},
            }
        }
        moves
    }

    /// Walk one sliding direction, appending per `slide_from`.
    fn slide_dests(
        &self,
        from: Position,
        dr: i8,
        df: i8,
        kp: Option<Position>,
        moves: &mut Vec<Position>,
    )
        requires
            self.wf0(),
            from.valid(),
            at(self.board@, from) is Some,
            at(self.board@, from).unwrap().piece != PieceType::King,
            kp == self.king_square(),
            kp matches Some(k) ==> k.valid(),
            -1 <= dr <= 1,
            -1 <= df <= 1,
        ensures
            final(moves)@ == old(moves)@ + self.slide_from(from, from, dr as int, df as int),
    {
        if dr == 0 && df == 0 {
            proof {
                assert(old(moves)@ + self.slide_from(from, from, 0, 0) =~= old(moves)@);
            }
            return ;
        }
        let mut cur = from;
        let mut done: bool = false;
        while !done
            invariant
                self.wf0(),
                from.valid(),
                cur.valid(),
                at(self.board@, from) is Some,
                at(self.board@, from).unwrap().piece != PieceType::King,
                kp == self.king_square(),
                kp matches Some(k) ==> k.valid(),
                -1 <= dr <= 1,
                -1 <= df <= 1,
                !(dr == 0 && df == 0),
                !done ==> old(moves)@ + self.slide_from(from, from, dr as int, df as int) == moves@
                    + self.slide_from(from, cur, dr as int, df as int),
                done ==> moves@ == old(moves)@ + self.slide_from(
                    from,
                    from,
                    dr as int,
                    df as int,
                ),
            decreases (if done {
                0int
            } else {
                edge_steps(cur, dr as int, df as int) + 1
            }),
        {
            match cur.step(dr, df) {
                None => {
                    proof {
                        assert(self.slide_from(from, cur, dr as int, df as int) =~= Seq::<
                            Position,
                        >::empty());
                        assert(moves@ + Seq::<Position>::empty() =~= moves@);
                    }
                    done = true;
                },
                Some(to) => {
                    match self.board.get(to) {
                        Some(other) => {
                            if other.color != self.turn && self.is_safe_move(from, to, kp) {
                                proof {
                                    assert(self.slide_from(from, cur, dr as int, df as int)
                                        =~= Seq::empty().push(to));
                                    assert(moves@ + Seq::empty().push(to) =~= moves@.push(to));
                                }
                                moves.push(to);
                            } else {
                                proof {
                                    assert(self.slide_from(from, cur, dr as int, df as int)
                                        =~= Seq::<Position>::empty());
                                    assert(moves@ + Seq::<Position>::empty() =~= moves@);
                                }
                            }
                            done = true;
                        },
                        None => {
                            let ghost rest = self.slide_from(from, to, dr as int, df as int);
                            if self.is_safe_move(from, to, kp) {
                                proof {
                                    assert(self.slide_from(from, cur, dr as int, df as int)
                                        =~= Seq::empty().push(to) + rest);
                                    assert(moves@ + (Seq::empty().push(to) + rest) =~= moves@.push(
                                        to,
                                    ) + rest);
                                }
                                moves.push(to);
                            } else {
                                proof {
                                    assert(self.slide_from(from, cur, dr as int, df as int)
                                        =~= rest);
                                }
                            }
                            cur = to;
                        },
                    }
                },
            }
        }
    }

    /// The destinations of `piece` at `from`, per `dests_spec`.
    fn dests_for(&self, from: Position, piece: Piece, kp: Option<Position>) -> (r: Vec<Position>)
        requires
            self.wf0(),
            from.valid(),
            at(self.board@, from) == Some(piece),
            piece.color == self.turn,
            kp == self.king_square(),
            kp matches Some(k) ==> k.valid(),
        ensures
            r@ == self.dests_spec(from, piece),
    {
        match piece.piece {
            PieceType::Pawn => self.pawn_dests(from, kp),
            PieceType::Knight => self.knight_dests(from, kp),
            PieceType::Bishop => {
                let mut m: Vec<Position> = Vec::new();
                self.slide_dests(from, 1, -1, kp, &mut m);
                self.slide_dests(from, 1, 1, kp, &mut m);
                self.slide_dests(from, -1, -1, kp, &mut m);
                self.slide_dests(from, -1, 1, kp, &mut m);
                proof {
                    assert(m@ =~= self.dests_spec(from, piece));
                }
                m
            },
            PieceType::Rook => {
                let mut m: Vec<Position> = Vec::new();
                self.slide_dests(from, 1, 0, kp, &mut m);
                self.slide_dests(from, 0, -1, kp, &mut m);
                self.slide_dests(from, -1, 0, kp, &mut m);
                self.slide_dests(from, 0, 1, kp, &mut m);
                proof {
                    assert(m@ =~= self.dests_spec(from, piece));
                }
                m
            },
            PieceType::Queen => {
                let mut m: Vec<Position> = Vec::new();
                self.slide_dests(from, 1, 0, kp, &mut m);
                self.slide_dests(from, 0, -1, kp, &mut m);
                self.slide_dests(from, -1, 0, kp, &mut m);
                self.slide_dests(from, 0, 1, kp, &mut m);
                self.slide_dests(from, 1, -1, kp, &mut m);
                self.slide_dests(from, 1, 1, kp, &mut m);
                self.slide_dests(from, -1, -1, kp, &mut m);
                self.slide_dests(from, -1, 1, kp, &mut m);
                proof {
                    assert(m@ =~= self.dests_spec(from, piece));
                }
                m
            },
            PieceType::King => self.king_dests(from),
        }
    }

    /// The legal moves of the side to move, without any well-formedness
    /// demands beyond square bounds; public callers go through `moves`.
    pub(crate) fn moves_inner(&self) -> (r: Vec<(Position, Vec<Position>)>)
        requires
            self.wf0(),
        ensures
            pair_view(r@) == self.moves_spec(),
    {
        let kp = self.board.position_of(Piece { color: self.turn, piece: PieceType::King });
        proof {
            if kp is Some {
                board::lemma_find_upto_valid(self.board@, king_of(self.turn), 64);
            }
        }
        let mut r: Vec<(Position, Vec<Position>)> = Vec::new();
        let mut i: usize = 0;
        while i < 64
            invariant
                self.wf0(),
                i <= 64,
                kp == self.king_square(),
                kp matches Some(k) ==> k.valid(),
                pair_view(r@) == self.moves_upto(i as int),
            decreases 64 - i,
        {
            let p = Board::pos_at(i);
            match self.board.get(p) {
                Some(piece) => {
                    if piece.color == self.turn {
                        let dests = self.dests_for(p, piece, kp);
                        r.push((p, dests));
                        proof {
                            assert(pair_view(r@) =~= self.moves_upto(i as int + 1));
                        }
                    } else {
                        proof {
                            assert(pair_view(r@) =~= self.moves_upto(i as int + 1));
                        }
                    }
                },
                None => {
                    proof {
                        assert(pair_view(r@) =~= self.moves_upto(i as int + 1));
                    }
                },
            }
            i = i + 1;
        }
        r
    }

    /// The legal moves of the side to move: each own piece in board order,
    /// paired with the destinations it may legally move to, in generation
    /// order.
    pub fn moves(&self) -> (r: Vec<(Position, Vec<Position>)>)
        requires
            self.wf(),
        ensures
            pair_view(r@) == self.moves_spec(),
    {
        self.moves_inner()
    }

    fn in_check_inner(&self) -> (r: bool)
        requires
            self.wf0(),
        ensures
            r == self.in_check_spec(),
    {
        let kp = self.board.position_of(Piece { color: self.turn, piece: PieceType::King });
        match kp {
            Some(k) => {
                proof {
                    board::lemma_find_upto_valid(self.board@, king_of(self.turn), 64);
                }
                board_attacks(&self.board, self.turn.opposite(), k)
            },
            None => false,
        }
    }

    /// Whether the side to move is in check: its king is attacked.
    pub fn check(&self) -> (r: bool)
        requires
            self.wf(),
        ensures
            r == self.in_check_spec(),
    {
        self.in_check_inner()
    }

    fn mate_inner(&self) -> (r: bool)
        requires
            self.wf0(),
        ensures
            r == self.moves_all_empty(),
    {
        let ms = self.moves_inner();
        let n = ms.len();
        let mut i: usize = 0;
        while i < n
            invariant
                i <= n,
                n == ms@.len(),
                pair_view(ms@) == self.moves_spec(),
                forall|j: int| 0 <= j < i ==> (#[trigger] self.moves_spec()[j]).1.len() == 0,
            decreases n - i,
        {
            if ms[i].1.len() > 0 {
                proof {
                    assert(self.moves_spec()[i as int].1.len() > 0);
                }
                return false;
            }
            proof {
                assert(self.moves_spec()[i as int] == pair_view(ms@)[i as int]);
            }
            i = i + 1;
        }
        true
    }

    pub(crate) fn status_inner(&self) -> (r: Option<Outcome>)
        requires
            self.wf0(),
        ensures
            r == self.status_spec(),
    {
        if self.mate_inner() {
            if self.in_check_inner() {
                Some(Outcome::Win(self.turn.opposite()))
            } else {
                Some(Outcome::Draw)
            }
        } else {
            None
        }
    }

    /// The outcome, or nothing while the game is still in progress:
    /// `Win` for the opponent exactly when the side to move has no legal
    /// move and is in check, `Draw` exactly when it has no legal move and
    /// is not in check.
    pub fn status(&self) -> (r: Option<Outcome>)
        requires
            self.wf(),
        ensures
            r == self.status_spec(),
    {
        self.status_inner()
    }

    /// Apply a (non-promotion) relocation, yielding the successor game:
    /// the turn flips, the board updates per `moved_board`, the en-passant
    /// marker is set exactly by a two-square pawn advance, and castling
    /// rights update if a king or corner rook departs its starting square.
    pub(crate) fn apply_move(&self, from: Position, to: Position) -> (r: Game)
        requires
            self.wf0(),
            from.valid(),
            to.valid(),
            at(self.board@, from) is Some,
        ensures
            r.turn == self.turn.opposite_spec(),
            r.board@ == moved_board(self.board@, from, to),
            r.just_advanced_two == ep_after(self.board@, from, to),
            r.castling == castling_after(self.castling, at(self.board@, from).unwrap(), from),
            r.wf0(),
    {
        let piece = self.board.get(from).unwrap();
        let turn = self.turn.opposite();
        let board = self.board.move_total(from, to);
        let just_advanced_two: Option<Position> = if piece.piece == PieceType::Pawn && (from.rank
            as i8 - to.rank as i8 == 2 || to.rank as i8 - from.rank as i8 == 2) {
            Some(to)
        } else {
            None
        };
        let mut castling = self.castling;
        if from.rank == piece.color.piece_starting_rank() {
            if piece.piece == PieceType::King && from.file == 4 {
                castling.move_king(piece.color);
            } else if piece.piece == PieceType::Rook && from.file == 0 {
                castling.move_queenside_rook(piece.color);
            } else if piece.piece == PieceType::Rook && from.file == 7 {
                castling.move_kingside_rook(piece.color);
            }
        }
        Game { turn, board, just_advanced_two, castling }
    }

    /// Apply a non-promotion move of the piece at `from` to `to`, yielding
    /// the successor game. A castling king move must leave both rook squares
    /// on the board, which any position satisfying `wf` guarantees.
    pub fn make_move(&self, from: Position, to: Position) -> (r: Game)
        requires
            self.wf0(),
            from.valid(),
            to.valid(),
            at(self.board@, from) is Some,
            !self.is_promotion_spec(from, to),
            (at(self.board@, from).unwrap().piece == PieceType::King && (from.file - to.file == 2
                || to.file - from.file == 2)) ==> (if to.file < from.file {
                to.file >= 2
            } else {
                to.file <= 6
            }),
        ensures
            r.turn == self.turn.opposite_spec(),
            r.board@ == moved_board(self.board@, from, to),
            r.just_advanced_two == ep_after(self.board@, from, to),
            r.castling == castling_after(self.castling, at(self.board@, from).unwrap(), from),
            r.wf0(),
    {
        self.apply_move(from, to)
    }

    /// Apply a promotion: the pawn at `from` becomes `piece_type` at `to`,
    /// the turn flips, the en-passant marker clears, and castling rights are
    /// unchanged.
    pub fn promote(&self, from: Position, to: Position, piece_type: PieceType) -> (r: Game)
        requires
            self.wf0(),
            from.valid(),
            to.valid(),
            self.is_promotion_spec(from, to),
            promotions_spec().contains(piece_type),
        ensures
            r.turn == self.turn.opposite_spec(),
            r.board@ == promoted_board(self.board@, from, to, piece_type),
            r.just_advanced_two is None,
            r.castling == self.castling,
            r.wf0(),
    {
        let turn = self.turn.opposite();
        let board = self.board.promote(from, to, piece_type);
        let just_advanced_two: Option<Position> = None;
        let castling = self.castling;
        Game { turn, board, just_advanced_two, castling }
    }
}

} // verus!
