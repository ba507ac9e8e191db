//! The laws of the rules engine, each stated and proved over the move
//! generator's and the transitions' specifications: what a legal move may
//! capture, when it attacks, when en passant exists, how castling rights
//! decay, and how the game invariant carries across legal play.

use vstd::prelude::*;

use crate::game::board::position::Position;
use crate::game::board::{
    at, count_upto, find_piece, init_board, init_square, lemma_count_find, lemma_count_two_witnesses,
    lemma_count_update, lemma_count_upto_unique, lemma_find_upto_valid, moved_board, pieces_of,
    pieces_upto, piece_count, pos_of_idx, promoted_board,
};
use crate::game::castling::Castling;
use crate::game::piece::{Piece, PieceColor, PieceType};
use crate::game::{
    attacks_spec, castling_after, cheb, clear_between, edge_steps, ep_after, iabs, king_of,
    lemma_dests_valid, lemma_moves_upto_elem, lemma_pieces_upto_contains, lemma_pieces_upto_sound,
    piece_attacks, sgn, Game, promotions_spec,
};

verus! {

/// `cur` lies on the ray leaving `from` in direction (`dr`, `df`).
pub open spec fn on_ray(from: Position, cur: Position, dr: int, df: int) -> bool {
    if cur == from {
        true
    } else {
        &&& ((dr == 0 && cur.rank == from.rank) || (dr == 1 && cur.rank > from.rank) || (dr == -1
            && cur.rank < from.rank))
        &&& ((df == 0 && cur.file == from.file) || (df == 1 && cur.file > from.file) || (df == -1
            && cur.file < from.file))
        &&& (dr != 0 && df != 0 ==> iabs(cur.rank - from.rank) == iabs(cur.file - from.file))
    }
}

/// A clear straight path from `x` to `cur` extends one further step along
/// the same direction, as long as `cur` itself is vacant.
pub proof fn lemma_clear_extend(
    b: Seq<Option<Piece>>,
    x: Position,
    cur: Position,
    dr: int,
    df: int,
)
    requires
        -1 <= dr <= 1,
        -1 <= df <= 1,
        !(dr == 0 && df == 0),
        x.valid(),
        cur.valid(),
        on_ray(x, cur, dr, df),
        cur == x || (clear_between(b, x, cur) && at(b, cur) is None),
        0 <= cur.rank + dr < 8,
        0 <= cur.file + df < 8,
    ensures
        clear_between(
            b,
            x,
            Position { rank: (cur.rank + dr) as u8, file: (cur.file + df) as u8 },
        ),
    decreases cheb(x, cur),
{
    let nxt = Position { rank: (cur.rank + dr) as u8, file: (cur.file + df) as u8 };
    if cur == x {
        assert(clear_between(b, x, nxt));
    } else {
        let y = Position { rank: (x.rank + dr) as u8, file: (x.file + df) as u8 };
        assert(sgn(cur.rank - x.rank) == dr && sgn(cur.file - x.file) == df);
        if y == cur {
            assert(clear_between(b, cur, nxt));
            assert(clear_between(b, x, nxt));
        } else {
            assert(clear_between(b, y, cur) && at(b, y) is None);
            lemma_clear_extend(b, y, cur, dr, df);
            assert(sgn(nxt.rank - x.rank) == dr && sgn(nxt.file - x.file) == df);
            assert(clear_between(b, x, nxt));
        }
    }
}

/// Every square a sliding walk yields is free of own pieces, and an
/// occupied one is reached by a clear straight path from the origin.
pub proof fn lemma_slide_props(g: Game, from: Position, cur: Position, dr: int, df: int, j: int)
    requires
        -1 <= dr <= 1,
        -1 <= df <= 1,
        !(dr == 0 && df == 0),
        from.valid(),
        cur.valid(),
        on_ray(from, cur, dr, df),
        cur == from || (clear_between(g.board@, from, cur) && at(g.board@, cur) is None),
        0 <= j < g.slide_from(from, cur, dr, df).len(),
    ensures
        ({
            let to = g.slide_from(from, cur, dr, df)[j];
            to.valid() && to != from && g.not_own_at(to) && g.move_is_safe(from, to) && (at(
                g.board@,
                to,
            ) is Some ==> clear_between(g.board@, from, to) && on_ray(from, to, dr, df))
        }),
    decreases edge_steps(cur, dr, df),
{
    match cur.step_spec(dr, df) {
        None => {},
        Some(to2) => {
            lemma_clear_extend(g.board@, from, cur, dr, df);
            assert(on_ray(from, to2, dr, df));
            match at(g.board@, to2) {
                Some(other) => {},
                None => {
                    let rest = g.slide_from(from, to2, dr, df);
                    let s = g.slide_from(from, cur, dr, df);
                    if g.move_is_safe(from, to2) {
                        assert(s == Seq::empty().push(to2) + rest);
                        if j > 0 {
                            assert(s[j] == rest[j - 1]);
                            lemma_slide_props(g, from, to2, dr, df, j - 1);
                        }
                    } else {
                        assert(s == rest);
                        lemma_slide_props(g, from, to2, dr, df, j);
                    }
                },
            }
        },
    }
}

/// Each destination `offset_try` adds is free of own pieces and one knight
/// jump away from the origin.
proof fn lemma_offset_try_props(g: Game, from: Position, acc: Seq<Position>, dr: int, df: int)
    requires
        (iabs(dr) == 1 && iabs(df) == 2) || (iabs(dr) == 2 && iabs(df) == 1),
        forall|j: int|
            0 <= j < acc.len() ==> (#[trigger] acc[j]).valid() && g.not_own_at(acc[j])
                && g.move_is_safe(from, acc[j]) && {
                let a = iabs(from.rank - acc[j].rank);
                let b = iabs(from.file - acc[j].file);
                (a == 1 && b == 2) || (a == 2 && b == 1)
            },
    ensures
        forall|j: int|
            0 <= j < g.offset_try(from, acc, dr, df).len() ==> {
                let to = #[trigger] g.offset_try(from, acc, dr, df)[j];
                to.valid() && g.not_own_at(to) && g.move_is_safe(from, to) && {
                    let a = iabs(from.rank - to.rank);
                    let b = iabs(from.file - to.file);
                    (a == 1 && b == 2) || (a == 2 && b == 1)
                }
            },
{
}

/// Each destination `king_try` adds is free of own pieces and adjacent to
/// the origin.
proof fn lemma_king_try_props(g: Game, from: Position, acc: Seq<Position>, dr: int, df: int)
    requires
        -1 <= dr <= 1,
        -1 <= df <= 1,
        !(dr == 0 && df == 0),
        forall|j: int|
            0 <= j < acc.len() ==> (#[trigger] acc[j]).valid() && acc[j] != from && g.not_own_at(
                acc[j],
            ) && g.king_move_is_safe(from, acc[j]) && iabs(from.rank - acc[j].rank) <= 1 && iabs(
                from.file - acc[j].file,
            ) <= 1,
    ensures
        forall|j: int|
            0 <= j < g.king_try(from, acc, dr, df).len() ==> {
                let to = #[trigger] g.king_try(from, acc, dr, df)[j];
                to.valid() && to != from && g.not_own_at(to) && g.king_move_is_safe(from, to)
                    && iabs(from.rank - to.rank) <= 1 && iabs(from.file - to.file) <= 1
            },
{
}

/// Each destination a pawn generates is free of own pieces; an occupied one
/// lies on the pawn's capture diagonal; a vacant diagonal one is an
/// en-passant capture, possible only with the marker set beside the pawn.
proof fn lemma_pawn_dest_props(g: Game, from: Position, j: int)
    requires
        g.wf(),
        from.valid(),
        at(g.board@, from) == Some(Piece { color: g.turn, piece: PieceType::Pawn }),
        0 <= j < g.pawn_dests_spec(from).len(),
    ensures
        ({
            let to = g.pawn_dests_spec(from)[j];
            to.valid() && to != from && g.not_own_at(to) && g.move_is_safe(from, to) && (at(
                g.board@,
                to,
            ) is Some ==> piece_attacks(
                g.board@,
                from,
                Piece { color: g.turn, piece: PieceType::Pawn },
                to,
            )) && (at(g.board@, to) is None && to.file != from.file ==> g.just_advanced_two
                == Some(Position { rank: from.rank, file: to.file })) && (g.turn
                == PieceColor::White ==> from.rank < to.rank <= from.rank + 2) && (g.turn
                == PieceColor::Black ==> from.rank - 2 <= to.rank < from.rank) && (iabs(
                to.rank - from.rank,
            ) == 2 ==> to.file == from.file && at(
                g.board@,
                Position { rank: ((from.rank + to.rank) / 2) as u8, file: from.file },
            ) is None)
        }),
{
    match from.step_spec(g.turn.pawn_dir(), 0) {
        None => {},
        Some(forward) => {
            match forward.step_spec(0, -1) {
                Some(cl) => {
                    if at(g.board@, cl) is Some && !g.enemy_at(cl) && g.ep_capture_ok(from, -1) {
                        // the square skipped by the marked double advance is vacant
                        let pos = g.just_advanced_two.unwrap();
                        assert(pos.step_spec(g.turn.pawn_dir(), 0) == Some(cl));
                        assert(false);
                    }
                },
                None => {},
            }
            match forward.step_spec(0, 1) {
                Some(cr) => {
                    if at(g.board@, cr) is Some && !g.enemy_at(cr) && g.ep_capture_ok(from, 1) {
                        let pos = g.just_advanced_two.unwrap();
                        assert(pos.step_spec(g.turn.pawn_dir(), 0) == Some(cr));
                        assert(false);
                    }
                },
                None => {},
            }
        },
    }
}

/// Each destination a knight generates is free of own pieces and covered by
/// the knight's movement shape.
proof fn lemma_knight_dest_props(g: Game, from: Position, j: int)
    requires
        from.valid(),
        0 <= j < g.knight_dests_spec(from).len(),
    ensures
        ({
            let to = g.knight_dests_spec(from)[j];
            to.valid() && to != from && g.not_own_at(to) && g.move_is_safe(from, to)
                && piece_attacks(
                g.board@,
                from,
                Piece { color: g.turn, piece: PieceType::Knight },
                to,
            )
        }),
{
    let s0 = Seq::<Position>::empty();
    let s1 = g.offset_try(from, s0, 2, -1);
    let s2 = g.offset_try(from, s1, 2, 1);
    let s3 = g.offset_try(from, s2, 1, -2);
    let s4 = g.offset_try(from, s3, -1, -2);
    let s5 = g.offset_try(from, s4, -2, -1);
    let s6 = g.offset_try(from, s5, -2, 1);
    let s7 = g.offset_try(from, s6, 1, 2);
    lemma_offset_try_props(g, from, s0, 2, -1);
    lemma_offset_try_props(g, from, s1, 2, 1);
    lemma_offset_try_props(g, from, s2, 1, -2);
    lemma_offset_try_props(g, from, s3, -1, -2);
    lemma_offset_try_props(g, from, s4, -2, -1);
    lemma_offset_try_props(g, from, s5, -2, 1);
    lemma_offset_try_props(g, from, s6, 1, 2);
    lemma_offset_try_props(g, from, s7, -1, 2);
}

/// Each destination a king generates is free of own pieces, and an occupied
/// one is adjacent to the king (castling destinations are vacant).
#[verifier::rlimit(60)]
proof fn lemma_king_dest_props(g: Game, from: Position, j: int)
    requires
        from.valid(),
        0 <= j < g.king_dests_spec(from).len(),
    ensures
        ({
            let to = g.king_dests_spec(from)[j];
            to.valid() && to != from && g.not_own_at(to) && (at(g.board@, to) is Some
                ==> piece_attacks(
                g.board@,
                from,
                Piece { color: g.turn, piece: PieceType::King },
                to,
            )) && (iabs(from.file - to.file) <= 1 ==> g.king_move_is_safe(from, to)) && (iabs(
                from.file - to.file,
            ) == 2 ==> !attacks_spec(g.board@, g.turn.opposite_spec(), from) && !attacks_spec(
                g.board@,
                g.turn.opposite_spec(),
                Position { rank: from.rank, file: ((from.file + to.file) / 2) as u8 },
            ) && !attacks_spec(g.board@, g.turn.opposite_spec(), to))
        }),
{
    let s0 = Seq::<Position>::empty();
    let s1 = g.king_try(from, s0, 1, 0);
    let s2 = g.king_try(from, s1, 1, 1);
    let s3 = g.king_try(from, s2, 0, 1);
    let s4 = g.king_try(from, s3, -1, 1);
    let s5 = g.king_try(from, s4, -1, 0);
    let s6 = g.king_try(from, s5, -1, -1);
    let s7 = g.king_try(from, s6, 0, -1);
    let s8 = g.king_try(from, s7, 1, -1);
    lemma_king_try_props(g, from, s0, 1, 0);
    lemma_king_try_props(g, from, s1, 1, 1);
    lemma_king_try_props(g, from, s2, 0, 1);
    lemma_king_try_props(g, from, s3, -1, 1);
    lemma_king_try_props(g, from, s4, -1, 0);
    lemma_king_try_props(g, from, s5, -1, -1);
    lemma_king_try_props(g, from, s6, 0, -1);
    lemma_king_try_props(g, from, s7, 1, -1);
    let s9 = match g.queenside_castle_dest(from) {
        Some(t) => s8.push(t),
        None => s8,
    };
    assert(forall|k: int|
        0 <= k < s9.len() ==> {
            let to = #[trigger] s9[k];
            to.valid() && to != from && g.not_own_at(to) && (at(g.board@, to) is Some
                ==> piece_attacks(
                g.board@,
                from,
                Piece { color: g.turn, piece: PieceType::King },
                to,
            )) && (iabs(from.file - to.file) <= 1 ==> g.king_move_is_safe(from, to)) && (iabs(
                from.file - to.file,
            ) == 2 ==> !attacks_spec(g.board@, g.turn.opposite_spec(), from) && !attacks_spec(
                g.board@,
                g.turn.opposite_spec(),
                Position { rank: from.rank, file: ((from.file + to.file) / 2) as u8 },
            ) && !attacks_spec(g.board@, g.turn.opposite_spec(), to))
        });
}

/// Each destination the generator yields is free of own pieces; an occupied
/// one is covered by the moving piece's movement shape.
proof fn lemma_dest_props(g: Game, from: Position, piece: Piece, j: int)
    requires
        g.wf(),
        from.valid(),
        at(g.board@, from) == Some(piece),
        piece.color == g.turn,
        0 <= j < g.dests_spec(from, piece).len(),
    ensures
        ({
            let to = g.dests_spec(from, piece)[j];
            to.valid() && to != from && g.not_own_at(to) && (at(g.board@, to) is Some
                ==> piece_attacks(g.board@, from, piece, to)) && (piece.piece != PieceType::King
                ==> g.move_is_safe(from, to)) && (piece.piece == PieceType::King && iabs(
                from.file - to.file,
            ) <= 1 ==> g.king_move_is_safe(from, to)) && (piece.piece == PieceType::King && iabs(
                from.file - to.file,
            ) == 2 ==> !attacks_spec(g.board@, g.turn.opposite_spec(), from) && !attacks_spec(
                g.board@,
                g.turn.opposite_spec(),
                Position { rank: from.rank, file: ((from.file + to.file) / 2) as u8 },
            ) && !attacks_spec(g.board@, g.turn.opposite_spec(), to))
        }),
{
    match piece.piece {
        PieceType::Pawn => {
            lemma_pawn_dest_props(g, from, j);
        },
        PieceType::Knight => {
            lemma_knight_dest_props(g, from, j);
        },
        PieceType::King => {
            lemma_king_dest_props(g, from, j);
        },
        PieceType::Bishop => {
            let a = g.slide_from(from, from, 1, -1);
            let b = g.slide_from(from, from, 1, 1);
            let c = g.slide_from(from, from, -1, -1);
            let d = g.slide_from(from, from, -1, 1);
            let s = g.dests_spec(from, piece);
            if j < a.len() {
                lemma_slide_props(g, from, from, 1, -1, j);
                assert(s[j] == a[j]);
            } else if j < a.len() + b.len() {
                lemma_slide_props(g, from, from, 1, 1, j - a.len());
                assert(s[j] == b[j - a.len()]);
            } else if j < a.len() + b.len() + c.len() {
                lemma_slide_props(g, from, from, -1, -1, j - a.len() - b.len());
                assert(s[j] == c[j - a.len() - b.len()]);
            } else {
                lemma_slide_props(g, from, from, -1, 1, j - a.len() - b.len() - c.len());
                assert(s[j] == d[j - a.len() - b.len() - c.len()]);
            }
        },
        PieceType::Rook => {
            let a = g.slide_from(from, from, 1, 0);
            let b = g.slide_from(from, from, 0, -1);
            let c = g.slide_from(from, from, -1, 0);
            let d = g.slide_from(from, from, 0, 1);
            let s = g.dests_spec(from, piece);
            if j < a.len() {
                lemma_slide_props(g, from, from, 1, 0, j);
                assert(s[j] == a[j]);
            } else if j < a.len() + b.len() {
                lemma_slide_props(g, from, from, 0, -1, j - a.len());
                assert(s[j] == b[j - a.len()]);
            } else if j < a.len() + b.len() + c.len() {
                lemma_slide_props(g, from, from, -1, 0, j - a.len() - b.len());
                assert(s[j] == c[j - a.len() - b.len()]);
            } else {
                lemma_slide_props(g, from, from, 0, 1, j - a.len() - b.len() - c.len());
                assert(s[j] == d[j - a.len() - b.len() - c.len()]);
            }
        },
        PieceType::Queen => {
            let a = g.slide_from(from, from, 1, 0);
            let b = g.slide_from(from, from, 0, -1);
            let c = g.slide_from(from, from, -1, 0);
            let d = g.slide_from(from, from, 0, 1);
            let e = g.slide_from(from, from, 1, -1);
            let f = g.slide_from(from, from, 1, 1);
            let h = g.slide_from(from, from, -1, -1);
            let k = g.slide_from(from, from, -1, 1);
            let s = g.dests_spec(from, piece);
            let l1 = a.len();
            let l2 = l1 + b.len();
            let l3 = l2 + c.len();
            let l4 = l3 + d.len();
            let l5 = l4 + e.len();
            let l6 = l5 + f.len();
            let l7 = l6 + h.len();
            if j < l1 {
                lemma_slide_props(g, from, from, 1, 0, j);
                assert(s[j] == a[j]);
            } else if j < l2 {
                lemma_slide_props(g, from, from, 0, -1, j - l1);
                assert(s[j] == b[j - l1]);
            } else if j < l3 {
                lemma_slide_props(g, from, from, -1, 0, j - l2);
                assert(s[j] == c[j - l2]);
            } else if j < l4 {
                lemma_slide_props(g, from, from, 0, 1, j - l3);
                assert(s[j] == d[j - l3]);
            } else if j < l5 {
                lemma_slide_props(g, from, from, 1, -1, j - l4);
                assert(s[j] == e[j - l4]);
            } else if j < l6 {
                lemma_slide_props(g, from, from, 1, 1, j - l5);
                assert(s[j] == f[j - l5]);
            } else if j < l7 {
                lemma_slide_props(g, from, from, -1, -1, j - l6);
                assert(s[j] == h[j - l6]);
            } else {
                lemma_slide_props(g, from, from, -1, 1, j - l7);
                assert(s[j] == k[j - l7]);
            }
        },
    }
}

/// After any legal move, the destination square was vacant or held a piece
/// of the opposing color beforehand: a capture only ever takes an enemy
/// piece. `i` and `j` index the move list.
pub proof fn lemma_legal_dest_not_own(g: Game, i: int, j: int)
    requires
        g.wf(),
        0 <= i < g.moves_spec().len(),
        0 <= j < g.moves_spec()[i].1.len(),
    ensures
        g.moves_spec()[i].1[j].valid(),
        g.not_own_at(g.moves_spec()[i].1[j]),
    decreases 0int,
{
    lemma_moves_upto_elem(g, 64, i);
    let from = g.moves_spec()[i].0;
    let piece = at(g.board@, from).unwrap();
    lemma_dest_props(g, from, piece, j);
}

/// If a legal move captures a piece on its destination square, the side to
/// move already attacked that square before the move. `i` and `j` index the
/// move list.
pub proof fn lemma_capture_is_attacked(g: Game, i: int, j: int)
    requires
        g.wf(),
        0 <= i < g.moves_spec().len(),
        0 <= j < g.moves_spec()[i].1.len(),
        at(g.board@, g.moves_spec()[i].1[j]) is Some,
    ensures
        attacks_spec(g.board@, g.turn, g.moves_spec()[i].1[j]),
    decreases 0int,
{
    lemma_moves_upto_elem(g, 64, i);
    let from = g.moves_spec()[i].0;
    let piece = at(g.board@, from).unwrap();
    lemma_dest_props(g, from, piece, j);
    lemma_pieces_upto_contains(g.board@, g.turn, 64, from);
    assert(pieces_of(g.board@, g.turn).contains((from, piece)));
}

/// Every square holding a piece of the side to move contributes an entry
/// to the move list.
proof fn lemma_moves_upto_contains(g: Game, n: int, from: Position)
    requires
        0 <= n <= 64,
        from.valid(),
        from.idx() < n,
        at(g.board@, from) is Some,
        at(g.board@, from).unwrap().color == g.turn,
    ensures
        exists|i: int|
            0 <= i < g.moves_upto(n).len() && (#[trigger] g.moves_upto(n)[i]) == (
                from,
                g.dests_spec(from, at(g.board@, from).unwrap()),
            ),
    decreases n,
{
    let entry = (from, g.dests_spec(from, at(g.board@, from).unwrap()));
    if from.idx() == n - 1 {
        assert(pos_of_idx(n - 1) == from);
        assert(g.moves_upto(n)[g.moves_upto(n).len() - 1] == entry);
    } else {
        lemma_moves_upto_contains(g, n - 1, from);
        let i = choose|i: int|
            0 <= i < g.moves_upto(n - 1).len() && (#[trigger] g.moves_upto(n - 1)[i]) == entry;
        assert(g.moves_upto(n)[i] == entry);
    }
}

/// With the marker set beside it, a pawn may capture en passant: the
/// diagonal square past the marked pawn stands among its legal
/// destinations, provided the capture leaves the mover's king safe.
pub proof fn lemma_en_passant_available(g: Game, from: Position, side: int)
    requires
        g.wf(),
        from.valid(),
        at(g.board@, from) == Some(Piece { color: g.turn, piece: PieceType::Pawn }),
        side == -1 || side == 1,
        g.ep_capture_ok(from, side),
        from.step_spec(g.turn.pawn_dir(), side) matches Some(cl) && g.move_is_safe(from, cl),
    ensures
        exists|i: int|
            0 <= i < g.moves_spec().len() && (#[trigger] g.moves_spec()[i]).0 == from
                && g.moves_spec()[i].1.contains(
                from.step_spec(g.turn.pawn_dir(), side).unwrap(),
            ),
    decreases 0int,
{
    let dests = g.dests_spec(from, at(g.board@, from).unwrap());
    let cl = from.step_spec(g.turn.pawn_dir(), side).unwrap();
    let forward = from.step_spec(g.turn.pawn_dir(), 0).unwrap();
    assert(from.step_spec(g.turn.pawn_dir(), 0) is Some);
    assert(forward.step_spec(0, side) == Some(cl));
    assert(dests.contains(cl)) by {
        let s1 = if g.vacant(forward) && g.move_is_safe(from, forward) {
            Seq::empty().push(forward)
        } else {
            Seq::<Position>::empty()
        };
        let s2 = match forward.step_spec(g.turn.pawn_dir(), 0) {
            Some(f2) => if from.rank == g.turn.pawn_starting_rank_spec() && g.vacant(forward)
                && g.vacant(f2) && g.move_is_safe(from, f2) {
                s1.push(f2)
            } else {
                s1
            },
            None => s1,
        };
        let s3 = match forward.step_spec(0, -1) {
            Some(c) => if (g.enemy_at(c) || g.ep_capture_ok(from, -1)) && g.move_is_safe(
                from,
                c,
            ) {
                s2.push(c)
            } else {
                s2
            },
            None => s2,
        };
        if side == -1 {
            assert(s3.last() == cl);
            assert(dests[s3.len() - 1] == cl);
        } else {
            assert(dests.last() == cl);
        }
    }
    lemma_moves_upto_contains(g, 64, from);
    let entry = (from, dests);
    let i = choose|i: int|
        0 <= i < g.moves_upto(64).len() && (#[trigger] g.moves_upto(64)[i]) == entry;
    assert(g.moves_spec()[i] == entry);
    assert(g.moves_spec()[i].0 == from && g.moves_spec()[i].1.contains(cl));
}

/// A pawn's legal diagonal move onto a vacant square is an en-passant
/// capture: it exists only while the marker from an immediately preceding
/// double advance sits beside the pawn, on the file the pawn moves into.
/// `i` and `j` index the move list.
pub proof fn lemma_en_passant_window(g: Game, i: int, j: int)
    requires
        g.wf(),
        0 <= i < g.moves_spec().len(),
        0 <= j < g.moves_spec()[i].1.len(),
        at(g.board@, g.moves_spec()[i].0).unwrap().piece == PieceType::Pawn,
        at(g.board@, g.moves_spec()[i].1[j]) is None,
        g.moves_spec()[i].1[j].file != g.moves_spec()[i].0.file,
    ensures
        g.just_advanced_two == Some(
            Position { rank: g.moves_spec()[i].0.rank, file: g.moves_spec()[i].1[j].file },
        ),
    decreases 0int,
{
    lemma_moves_upto_elem(g, 64, i);
    let from = g.moves_spec()[i].0;
    lemma_pawn_dest_props(g, from, j);
}

/// Every legal move keeps the mover's king safe, per the safety filter that
/// defines legality: a non-king move leaves the king (the first found in
/// board order, when present) unattacked on the simulated successor; a
/// king's plain step leaves its destination unattacked afterward; and a
/// castling move is gated on the king's square, the square it crosses and
/// its destination all being unattacked before the move. `i` and `j` index
/// the move list.
pub proof fn lemma_legal_move_keeps_king_safe(g: Game, i: int, j: int)
    requires
        g.wf(),
        0 <= i < g.moves_spec().len(),
        0 <= j < g.moves_spec()[i].1.len(),
    ensures
        ({
            let from = g.moves_spec()[i].0;
            let to = g.moves_spec()[i].1[j];
            let piece = at(g.board@, from).unwrap();
            &&& (piece.piece != PieceType::King ==> g.move_is_safe(from, to))
            &&& (piece.piece == PieceType::King && iabs(from.file - to.file) <= 1
                ==> g.king_move_is_safe(from, to))
            &&& (piece.piece == PieceType::King && iabs(from.file - to.file) == 2
                ==> !attacks_spec(g.board@, g.turn.opposite_spec(), from) && !attacks_spec(
                g.board@,
                g.turn.opposite_spec(),
                Position { rank: from.rank, file: ((from.file + to.file) / 2) as u8 },
            ) && !attacks_spec(g.board@, g.turn.opposite_spec(), to))
        }),
    decreases 0int,
{
    lemma_moves_upto_elem(g, 64, i);
    let from = g.moves_spec()[i].0;
    let piece = at(g.board@, from).unwrap();
    lemma_dest_props(g, from, piece, j);
}

/// A king destination two files away can only have come from a castling
/// gate, whose conditions then hold.
#[verifier::rlimit(100)]
#[verifier::spinoff_prover]
proof fn lemma_castle_membership(g: Game, from: Position, j: int)
    requires
        from.valid(),
        0 <= j < g.king_dests_spec(from).len(),
        iabs(from.file - g.king_dests_spec(from)[j].file) == 2,
    ensures
        ({
            let to = g.king_dests_spec(from)[j];
            if to.file < from.file {
                g.queenside_castle_dest(from) == Some(to)
            } else {
                g.kingside_castle_dest(from) == Some(to)
            }
        }),
{
    let s0 = Seq::<Position>::empty();
    let s1 = g.king_try(from, s0, 1, 0);
    let s2 = g.king_try(from, s1, 1, 1);
    let s3 = g.king_try(from, s2, 0, 1);
    let s4 = g.king_try(from, s3, -1, 1);
    let s5 = g.king_try(from, s4, -1, 0);
    let s6 = g.king_try(from, s5, -1, -1);
    let s7 = g.king_try(from, s6, 0, -1);
    lemma_king_try_props(g, from, s0, 1, 0);
    lemma_king_try_props(g, from, s1, 1, 1);
    lemma_king_try_props(g, from, s2, 0, 1);
    lemma_king_try_props(g, from, s3, -1, 1);
    lemma_king_try_props(g, from, s4, -1, 0);
    lemma_king_try_props(g, from, s5, -1, -1);
    lemma_king_try_props(g, from, s6, 0, -1);
    lemma_king_try_props(g, from, s7, 1, -1);
}

/// Castling preserves each color's king count: nothing is captured or
/// overwritten, since the king lands on a gated-vacant square and the
/// corner occupant merely relocates to the vacant square the king crossed.
/// `i` and `j` index the move list.
#[verifier::rlimit(100)]
#[verifier::spinoff_prover]
pub proof fn lemma_castling_preserves_kings(g: Game, i: int, j: int, color: PieceColor)
    requires
        g.wf(),
        0 <= i < g.moves_spec().len(),
        0 <= j < g.moves_spec()[i].1.len(),
        at(g.board@, g.moves_spec()[i].0).unwrap().piece == PieceType::King,
        iabs(g.moves_spec()[i].0.file - g.moves_spec()[i].1[j].file) == 2,
    ensures
        piece_count(
            moved_board(g.board@, g.moves_spec()[i].0, g.moves_spec()[i].1[j]),
            king_of(color),
        ) == piece_count(g.board@, king_of(color)),
    decreases 0int,
{
    lemma_moves_upto_elem(g, 64, i);
    let from = g.moves_spec()[i].0;
    let to = g.moves_spec()[i].1[j];
    let piece = at(g.board@, from).unwrap();
    let b = g.board@;
    lemma_dest_props(g, from, piece, j);
    lemma_castle_membership(g, from, j);
    // the right is still held, so the king stands on its starting square
    let st = Position { rank: g.turn.piece_starting_rank_spec(), file: 4 };
    assert(g.castling.of(g.turn).can_queenside() || g.castling.of(g.turn).can_kingside());
    assert(at(b, st) == Some(king_of(g.turn)));
    if from != st {
        lemma_count_two_witnesses(b, king_of(g.turn), from.idx(), st.idx(), 64);
        assert(false);
    }
    assert(from.file == 4 && to.rank == from.rank);
    let t = king_of(color);
    let corner = Position {
        rank: from.rank,
        file: if to.file < from.file {
            0
        } else {
            7
        },
    };
    let between = Position {
        rank: from.rank,
        file: if to.file < from.file {
            (to.file + 1) as u8
        } else {
            (to.file - 1) as u8
        },
    };
    // the destination and the crossed square are vacant by the castling gate
    assert(at(b, to) is None && at(b, between) is None);
    assert(from.idx() != to.idx() && corner.idx() != from.idx() && corner.idx() != to.idx()
        && between.idx() != from.idx() && between.idx() != to.idx() && between.idx()
        != corner.idx());
    let b1 = b.update(from.idx(), None);
    lemma_count_update(b, t, from.idx(), None, 64);
    let b2 = b1.update(to.idx(), Some(piece));
    lemma_count_update(b1, t, to.idx(), Some(piece), 64);
    // no en-passant removal: the mover is a king; the corner occupant,
    // whatever it is, moves rather than disappears
    let rook = b2[corner.idx()];
    let b3 = b2.update(corner.idx(), None);
    lemma_count_update(b2, t, corner.idx(), None, 64);
    let b4 = b3.update(between.idx(), rook);
    lemma_count_update(b3, t, between.idx(), rook, 64);
    assert(moved_board(b, from, to) == b4);
    assert(count_upto(b4, t, 64) == count_upto(b, t, 64));
}

/// A castling right, once forfeited, never returns across any game
/// transition: a plain move updates rights per `castling_after`, which only
/// ever clears them, and a promotion leaves them unchanged.
pub proof fn lemma_game_rights_monotonic(
    c: Castling,
    piece: Piece,
    from: Position,
    color: PieceColor,
)
    ensures
        !c.of(color).can_queenside() ==> !castling_after(c, piece, from).of(
            color,
        ).can_queenside(),
        !c.of(color).can_kingside() ==> !castling_after(c, piece, from).of(color).can_kingside(),
{
}

/// The standard starting arrangement satisfies the full game invariant.
pub proof fn lemma_init_wf(g: Game)
    requires
        g.turn == PieceColor::White,
        g.board@ == init_board(),
        g.just_advanced_two is None,
    ensures
        g.wf(),
{
    assert forall|k: int| 0 <= k < 64 implies ((init_board()[k] == Some(
        king_of(PieceColor::White),
    )) <==> k == 4) by {
        assert(init_board()[k] == init_square(k / 8, k % 8));
    }
    assert forall|k: int| 0 <= k < 64 implies ((init_board()[k] == Some(
        king_of(PieceColor::Black),
    )) <==> k == 60) by {
        assert(init_board()[k] == init_square(k / 8, k % 8));
    }
    lemma_count_upto_unique(init_board(), king_of(PieceColor::White), 4, 64);
    lemma_count_upto_unique(init_board(), king_of(PieceColor::Black), 60, 64);
    assert forall|p: Position|
        p.valid() && ((#[trigger] at(g.board@, p)) matches Some(pc) && pc.piece
            == PieceType::Pawn) implies 0 < p.rank < 7 by {
        assert(at(g.board@, p) == init_square(p.idx() / 8, p.idx() % 8));
        assert(p.idx() / 8 == p.rank && p.idx() % 8 == p.file);
    }
    let e1 = Position { rank: 0, file: 4 };
    let e8 = Position { rank: 7, file: 4 };
    assert(at(g.board@, e1) == init_square(0, 4));
    assert(at(g.board@, e8) == init_square(7, 4));
}

/// A legal non-castling move preserves each color's king count, provided
/// the side to move does not already attack any square holding the opposing
/// king. (A castling move is excluded: it also relocates the corner piece,
/// whose identity the generator does not inspect.) Together with the turn
/// flip this keeps "exactly one king per color" across such moves from any
/// position satisfying the invariant. `i` and `j` index the move list.
pub proof fn lemma_move_preserves_kings(g: Game, i: int, j: int, color: PieceColor)
    requires
        g.wf(),
        0 <= i < g.moves_spec().len(),
        0 <= j < g.moves_spec()[i].1.len(),
        forall|p: Position|
            p.valid() && (#[trigger] at(g.board@, p)) == Some(king_of(g.turn.opposite_spec()))
                ==> !attacks_spec(g.board@, g.turn, p),
        at(g.board@, g.moves_spec()[i].0).unwrap().piece == PieceType::King ==> iabs(
            g.moves_spec()[i].0.file - g.moves_spec()[i].1[j].file,
        ) <= 1,
    ensures
        piece_count(
            moved_board(g.board@, g.moves_spec()[i].0, g.moves_spec()[i].1[j]),
            king_of(color),
        ) == piece_count(g.board@, king_of(color)),
    decreases 1int,
{
    lemma_moves_upto_elem(g, 64, i);
    let from = g.moves_spec()[i].0;
    let to = g.moves_spec()[i].1[j];
    let piece = at(g.board@, from).unwrap();
    lemma_dest_props(g, from, piece, j);
    let b = g.board@;
    let t = king_of(color);
    if at(b, to) is Some {
        lemma_capture_is_attacked(g, i, j);
        assert(at(b, to) != Some(king_of(g.turn.opposite_spec())));
    }
    assert(from.idx() != to.idx());
    let b1 = b.update(from.idx(), None);
    lemma_count_update(b, t, from.idx(), None, 64);
    let captured = b1[to.idx()];
    let b2 = b1.update(to.idx(), Some(piece));
    lemma_count_update(b1, t, to.idx(), Some(piece), 64);
    assert(count_upto(b2, t, 64) == count_upto(b, t, 64));
    if piece.piece == PieceType::Pawn && from.file != to.file && captured is None {
        lemma_pawn_dest_props(g, from, j);
        let epsq = Position { rank: from.rank, file: to.file };
        assert(g.just_advanced_two == Some(epsq));
        assert(at(b, epsq) == Some(
            Piece { color: g.turn.opposite_spec(), piece: PieceType::Pawn },
        ));
        assert(epsq.idx() != from.idx() && epsq.idx() != to.idx());
        lemma_count_update(b2, t, epsq.idx(), None, 64);
        assert(moved_board(b, from, to) == b2.update(epsq.idx(), None));
    } else {
        assert(moved_board(b, from, to) == b2);
    }
}

/// A legal promotion preserves each color's king count under the same
/// hypothesis as `lemma_move_preserves_kings`: the chosen piece is never a
/// king, and the destination never holds one. `i` and `j` index the move
/// list.
#[verifier::rlimit(30)]
pub proof fn lemma_promotion_preserves_kings(
    g: Game,
    i: int,
    j: int,
    pt: PieceType,
    color: PieceColor,
)
    requires
        g.wf(),
        0 <= i < g.moves_spec().len(),
        0 <= j < g.moves_spec()[i].1.len(),
        at(g.board@, g.moves_spec()[i].0).unwrap().piece == PieceType::Pawn,
        promotions_spec().contains(pt),
        forall|p: Position|
            p.valid() && (#[trigger] at(g.board@, p)) == Some(king_of(g.turn.opposite_spec()))
                ==> !attacks_spec(g.board@, g.turn, p),
    ensures
        piece_count(
            promoted_board(g.board@, g.moves_spec()[i].0, g.moves_spec()[i].1[j], pt),
            king_of(color),
        ) == piece_count(g.board@, king_of(color)),
    decreases 1int,
{
    lemma_moves_upto_elem(g, 64, i);
    let from = g.moves_spec()[i].0;
    let to = g.moves_spec()[i].1[j];
    let piece = at(g.board@, from).unwrap();
    lemma_dest_props(g, from, piece, j);
    let b = g.board@;
    let t = king_of(color);
    if at(b, to) is Some {
        lemma_capture_is_attacked(g, i, j);
        assert(at(b, to) != Some(king_of(g.turn.opposite_spec())));
    }
    assert(pt != PieceType::King) by {
        let ix = choose|ix: int| 0 <= ix < promotions_spec().len() && promotions_spec()[ix] == pt;
    }
    assert(from.idx() != to.idx());
    let b1 = b.update(from.idx(), None);
    lemma_count_update(b, t, from.idx(), None, 64);
    let np = Piece { color: piece.color, piece: pt };
    let b2 = b1.update(to.idx(), Some(np));
    lemma_count_update(b1, t, to.idx(), Some(np), 64);
    assert(promoted_board(b, from, to, pt) == b2);
    assert(np != t);
    assert(b1[to.idx()] == b[to.idx()]);
    assert(b[to.idx()] != Some(t));
    assert(b[from.idx()] != Some(t));
}

/// In the starting position the side to move attacks no square of the back
/// rank where the opposing king stands: the base case of the one-king-each
/// invariant.
pub proof fn lemma_init_no_attack(g: Game)
    requires
        g.turn == PieceColor::White,
        g.board@ == init_board(),
    ensures
        forall|p: Position|
            p.valid() && (#[trigger] at(g.board@, p)) == Some(king_of(g.turn.opposite_spec()))
                ==> !attacks_spec(g.board@, g.turn, p),
{
    let b = g.board@;
    assert forall|p: Position|
        p.valid() && (#[trigger] at(b, p)) == Some(
            king_of(g.turn.opposite_spec()),
        ) implies !attacks_spec(b, g.turn, p) by {
        assert(at(b, p) == init_square(p.idx() / 8, p.idx() % 8));
        assert(p.idx() / 8 == p.rank && p.idx() % 8 == p.file);
        assert(p.rank == 7 && p.file == 4);
        if attacks_spec(b, PieceColor::White, p) {
            let pp = choose|pp: (Position, Piece)|
                #[trigger] pieces_of(b, PieceColor::White).contains(pp) && piece_attacks(
                    b,
                    pp.0,
                    pp.1,
                    p,
                );
            let ix = choose|ix: int|
                0 <= ix < pieces_of(b, PieceColor::White).len() && pieces_of(
                    b,
                    PieceColor::White,
                )[ix] == pp;
            lemma_pieces_upto_sound(b, PieceColor::White, 64, ix);
            let q = pp.0;
            assert(at(b, q) == init_square(q.idx() / 8, q.idx() % 8));
            assert(q.idx() / 8 == q.rank && q.idx() % 8 == q.file);
            assert(q.rank <= 1);
            assert(false);
        }
    }
}

/// Two placements occupying exactly the same squares allow the same clear
/// straight paths.
proof fn lemma_clear_between_congruent(
    b1: Seq<Option<Piece>>,
    b2: Seq<Option<Piece>>,
    cur: Position,
    target: Position,
)
    requires
        forall|p: Position| p.valid() ==> ((#[trigger] at(b1, p)) is Some <==> at(b2, p) is Some),
    ensures
        clear_between(b1, cur, target) == clear_between(b2, cur, target),
    decreases cheb(cur, target),
{
    let nr = cur.rank + sgn(target.rank - cur.rank);
    let nf = cur.file + sgn(target.file - cur.file);
    if nr == target.rank && nf == target.file {
    } else if 0 <= nr < 8 && 0 <= nf < 8 {
        let next = Position { rank: nr as u8, file: nf as u8 };
        if at(b1, next) is None {
            lemma_clear_between_congruent(b1, b2, next, target);
        }
    }
}

/// Two placements that agree on every square of one color's pieces, and
/// occupy the same squares, list that color's pieces alike.
proof fn lemma_pieces_upto_congruent(
    b1: Seq<Option<Piece>>,
    b2: Seq<Option<Piece>>,
    color: PieceColor,
    n: int,
)
    requires
        0 <= n <= 64,
        forall|k: int|
            0 <= k < n ==> (b1[k] == b2[k] || ((#[trigger] b1[k]) matches Some(x) && b2[k]
                matches Some(y) && x.color != color && y.color != color)),
    ensures
        pieces_upto(b1, color, n) == pieces_upto(b2, color, n),
    decreases n,
{
    if n > 0 {
        lemma_pieces_upto_congruent(b1, b2, color, n - 1);
    }
}

/// Attack coverage by one color only depends on that color's pieces and on
/// which squares are occupied.
proof fn lemma_attacks_congruent(
    b1: Seq<Option<Piece>>,
    b2: Seq<Option<Piece>>,
    color: PieceColor,
    target: Position,
)
    requires
        forall|p: Position| p.valid() ==> ((#[trigger] at(b1, p)) is Some <==> at(b2, p) is Some),
        forall|k: int|
            0 <= k < 64 ==> (b1[k] == b2[k] || ((#[trigger] b1[k]) matches Some(x) && b2[k]
                matches Some(y) && x.color != color && y.color != color)),
    ensures
        attacks_spec(b1, color, target) == attacks_spec(b2, color, target),
{
    lemma_pieces_upto_congruent(b1, b2, color, 64);
    if attacks_spec(b1, color, target) {
        let pp = choose|pp: (Position, Piece)|
            #[trigger] pieces_of(b1, color).contains(pp) && piece_attacks(b1, pp.0, pp.1, target);
        lemma_clear_between_congruent(b1, b2, pp.0, target);
        assert(pieces_of(b2, color).contains(pp));
        assert(piece_attacks(b2, pp.0, pp.1, target));
    }
    if attacks_spec(b2, color, target) {
        let pp = choose|pp: (Position, Piece)|
            #[trigger] pieces_of(b2, color).contains(pp) && piece_attacks(b2, pp.0, pp.1, target);
        lemma_clear_between_congruent(b1, b2, pp.0, target);
        assert(pieces_of(b1, color).contains(pp));
        assert(piece_attacks(b1, pp.0, pp.1, target));
    }
}

/// The common hypotheses of the one-king-each induction step: a legal
/// non-castling, non-promotion move from a position satisfying the game
/// invariant whose side to move does not already attack the opposing king,
/// with the successor given by its components as the transition operations
/// ensure them. `i` and `j` index the move list.
pub open spec fn successor_step(g: Game, g2: Game, i: int, j: int) -> bool {
    &&& g.wf()
    &&& 0 <= i < g.moves_spec().len()
    &&& 0 <= j < g.moves_spec()[i].1.len()
    &&& forall|p: Position|
        p.valid() && (#[trigger] at(g.board@, p)) == Some(king_of(g.turn.opposite_spec()))
            ==> !attacks_spec(g.board@, g.turn, p)
    &&& !g.is_promotion_spec(g.moves_spec()[i].0, g.moves_spec()[i].1[j])
    &&& (at(g.board@, g.moves_spec()[i].0).unwrap().piece == PieceType::King ==> iabs(
        g.moves_spec()[i].0.file - g.moves_spec()[i].1[j].file,
    ) <= 1)
    &&& g2.turn == g.turn.opposite_spec()
    &&& g2.board@ == moved_board(g.board@, g.moves_spec()[i].0, g.moves_spec()[i].1[j])
    &&& g2.just_advanced_two == ep_after(g.board@, g.moves_spec()[i].0, g.moves_spec()[i].1[j])
    &&& g2.castling == castling_after(
        g.castling,
        at(g.board@, g.moves_spec()[i].0).unwrap(),
        g.moves_spec()[i].0,
    )
}

/// The move touches only its origin, its destination, and (for an
/// en-passant capture) the passed pawn's square; the moved piece stands on
/// the destination afterward.
#[verifier::rlimit(100)]
#[verifier::spinoff_prover]
proof fn lemma_successor_frame(g: Game, g2: Game, i: int, j: int)
    requires
        successor_step(g, g2, i, j),
    ensures
        ({
            let from = g.moves_spec()[i].0;
            let to = g.moves_spec()[i].1[j];
            let piece = at(g.board@, from).unwrap();
            &&& at(g2.board@, to) == Some(piece)
            &&& at(g2.board@, from) is None
            &&& forall|p: Position|
                p.valid() && p != from && p != to && !(piece.piece == PieceType::Pawn && from.file
                    != to.file && at(g.board@, to) is None && p == Position {
                    rank: from.rank,
                    file: to.file,
                }) ==> #[trigger] at(g2.board@, p) == at(g.board@, p)
            &&& (piece.piece == PieceType::Pawn && from.file != to.file && at(g.board@, to)
                is None ==> g.just_advanced_two == Some(Position { rank: from.rank, file: to.file })
                && at(g2.board@, Position { rank: from.rank, file: to.file }) is None)
        }),
    decreases 0int,
{
    lemma_moves_upto_elem(g, 64, i);
    let from = g.moves_spec()[i].0;
    let to = g.moves_spec()[i].1[j];
    let piece = at(g.board@, from).unwrap();
    let b = g.board@;
    let bf = g2.board@;
    lemma_dests_valid(g, from, at(b, from).unwrap());
    lemma_dest_props(g, from, piece, j);
    if piece.piece == PieceType::Pawn {
        lemma_pawn_dest_props(g, from, j);
    }
    let b1 = b.update(from.idx(), None);
    let captured = b1[to.idx()];
    let b2a = b1.update(to.idx(), Some(piece));
    let ep_fires = piece.piece == PieceType::Pawn && from.file != to.file && captured is None;
    let epsq = Position { rank: from.rank, file: to.file };
    assert(from.idx() != to.idx());
    assert(bf == if ep_fires {
        b2a.update(epsq.idx(), None)
    } else {
        b2a
    });
    if ep_fires {
        assert(g.just_advanced_two == Some(epsq));
        assert(epsq.idx() != to.idx());
    }
    assert forall|p: Position|
        p.valid() && p != from && p != to && !(ep_fires && p == epsq) implies #[trigger] at(
        bf,
        p,
    ) == at(b, p) by {
        assert(p.idx() != from.idx() && p.idx() != to.idx());
        if ep_fires {
            assert(p.idx() != epsq.idx());
        }
    }
}

/// The first half of the induction step: the successor of a legal
/// non-castling, non-promotion move satisfies the game invariant.
#[verifier::rlimit(100)]
#[verifier::spinoff_prover]
proof fn lemma_successor_invariant(g: Game, g2: Game, i: int, j: int)
    requires
        successor_step(g, g2, i, j),
    ensures
        g2.wf(),
    decreases 0int,
{
    lemma_moves_upto_elem(g, 64, i);
    let from = g.moves_spec()[i].0;
    let to = g.moves_spec()[i].1[j];
    let piece = at(g.board@, from).unwrap();
    let b = g.board@;
    let bf = g2.board@;
    lemma_dest_props(g, from, piece, j);
    lemma_successor_frame(g, g2, i, j);
    lemma_move_preserves_kings(g, i, j, PieceColor::White);
    lemma_move_preserves_kings(g, i, j, PieceColor::Black);
    if piece.piece == PieceType::Pawn {
        lemma_pawn_dest_props(g, from, j);
    }
    let ep_fires = piece.piece == PieceType::Pawn && from.file != to.file && at(b, to) is None;
    let epsq = Position { rank: from.rank, file: to.file };
    // no pawn comes to rest on a first or last rank
    assert forall|p: Position|
        p.valid() && ((#[trigger] at(bf, p)) matches Some(pc) && pc.piece
            == PieceType::Pawn) implies 0 < p.rank < 7 by {
        if p == to {
            if piece.piece == PieceType::Pawn {
                assert(to.rank != g.turn.promotion_rank());
            }
        } else if p == from || (ep_fires && p == epsq) {
        } else {
            assert(at(bf, p) == at(b, p));
        }
    }
    // the en-passant marker of the successor
    match g2.just_advanced_two {
        Some(m) => {
            assert(m == to && piece.piece == PieceType::Pawn);
            assert(to.file == from.file && !ep_fires);
            let between = Position { rank: ((from.rank + to.rank) / 2) as u8, file: from.file };
            assert(at(b, between) is None);
            assert(to.step_spec(g2.turn.pawn_dir(), 0) == Some(between));
            assert(between != from && between != to);
            assert(at(bf, between) is None);
            assert(at(bf, to) == Some(
                Piece { color: g2.turn.opposite_spec(), piece: PieceType::Pawn },
            ));
        },
        None => {},
    }
    // castling rights still held point at an untouched king square
    assert forall|c: PieceColor|
        (g2.castling.of(c).can_queenside() || g2.castling.of(
            c,
        ).can_kingside()) implies at(bf, Position { rank: c.piece_starting_rank_spec(), file: 4 })
        == Some(king_of(c)) by {
        lemma_game_rights_monotonic(g.castling, piece, from, c);
        assert(g.castling.of(c).can_queenside() || g.castling.of(c).can_kingside());
        let st = Position { rank: c.piece_starting_rank_spec(), file: 4 };
        assert(at(b, st) == Some(king_of(c)));
        if piece == king_of(c) {
            if from != st {
                lemma_count_two_witnesses(b, king_of(c), from.idx(), st.idx(), 64);
                assert(piece_count(b, king_of(c)) >= 2);
                assert(false);
            }
            assert(false);
        }
        assert(st != from);
        if st == to {
            if c == g.turn {
                assert(!g.not_own_at(to));
                assert(false);
            } else {
                lemma_capture_is_attacked(g, i, j);
                assert(false);
            }
        }
        if ep_fires && st == epsq {
            assert(false);
        }
        assert(at(bf, st) == at(b, st));
    }
}

/// The second half of the induction step: after a legal non-castling,
/// non-promotion move, the new side to move does not attack the king of the
/// player who just moved.
#[verifier::rlimit(100)]
#[verifier::spinoff_prover]
proof fn lemma_successor_safety(g: Game, g2: Game, i: int, j: int)
    requires
        successor_step(g, g2, i, j),
    ensures
        forall|p: Position|
            p.valid() && (#[trigger] at(g2.board@, p)) == Some(king_of(g2.turn.opposite_spec()))
                ==> !attacks_spec(g2.board@, g2.turn, p),
    decreases 0int,
{
    lemma_moves_upto_elem(g, 64, i);
    let from = g.moves_spec()[i].0;
    let to = g.moves_spec()[i].1[j];
    let piece = at(g.board@, from).unwrap();
    let b = g.board@;
    let bf = g2.board@;
    lemma_dest_props(g, from, piece, j);
    lemma_legal_move_keeps_king_safe(g, i, j);
    lemma_successor_frame(g, g2, i, j);
    lemma_move_preserves_kings(g, i, j, PieceColor::White);
    lemma_move_preserves_kings(g, i, j, PieceColor::Black);
    if piece.piece == PieceType::Pawn {
        lemma_pawn_dest_props(g, from, j);
    }
    let ep_fires = piece.piece == PieceType::Pawn && from.file != to.file && at(b, to) is None;
    let epsq = Position { rank: from.rank, file: to.file };
    let t_king = king_of(g.turn);
    assert(piece_count(bf, t_king) == 1);
    if piece.piece == PieceType::King {
        assert(piece == t_king);
        assert(at(bf, to) == Some(t_king));
        assert(!attacks_spec(bf, g2.turn, to));
        assert forall|p: Position|
            p.valid() && (#[trigger] at(bf, p)) == Some(t_king) implies !attacks_spec(
            bf,
            g2.turn,
            p,
        ) by {
            if p != to {
                lemma_count_two_witnesses(bf, t_king, p.idx(), to.idx(), 64);
                assert(false);
            }
        }
    } else {
        lemma_count_find(b, t_king, 64);
        lemma_find_upto_valid(b, t_king, 64);
        let k = find_piece(b, t_king).unwrap();
        assert(g.king_square() == Some(k));
        assert(piece != t_king);
        assert(k != from && k != to);
        if ep_fires {
            assert(k != epsq);
        }
        assert(at(bf, k) == Some(t_king));
        assert(g.board_after_sim(from, to) == bf);
        assert(!attacks_spec(bf, g2.turn, k));
        assert forall|p: Position|
            p.valid() && (#[trigger] at(bf, p)) == Some(t_king) implies !attacks_spec(
            bf,
            g2.turn,
            p,
        ) by {
            if p != k {
                lemma_count_two_witnesses(bf, t_king, p.idx(), k.idx(), 64);
                assert(false);
            }
        }
    }
}

/// The induction step behind "every position reached by legal play keeps
/// exactly one king per color": applying a legal non-castling,
/// non-promotion move to a position satisfying the game invariant, where
/// the side to move does not already attack the opposing king, yields a
/// successor (given by its components, as the transition operations ensure
/// them) that satisfies the invariant again, and whose side to move does
/// not attack the king of the player who just moved. `i` and `j` index the
/// move list.
pub proof fn lemma_successor_wf(g: Game, g2: Game, i: int, j: int)
    requires
        successor_step(g, g2, i, j),
    ensures
        g2.wf(),
        forall|p: Position|
            p.valid() && (#[trigger] at(g2.board@, p)) == Some(king_of(g2.turn.opposite_spec()))
                ==> !attacks_spec(g2.board@, g2.turn, p),
    decreases 0int,
{
    lemma_successor_invariant(g, g2, i, j);
    lemma_successor_safety(g, g2, i, j);
}

/// The promotion counterpart of `lemma_successor_wf`: applying a legal
/// promotion (with any permitted piece kind) under the same hypotheses
/// yields a successor satisfying the invariant, with the new side to move
/// not attacking the just-moved side's king. `i` and `j` index the move
/// list.
#[verifier::rlimit(100)]
#[verifier::spinoff_prover]
pub proof fn lemma_promotion_successor_wf(g: Game, g2: Game, i: int, j: int, pt: PieceType)
    requires
        g.wf(),
        0 <= i < g.moves_spec().len(),
        0 <= j < g.moves_spec()[i].1.len(),
        forall|p: Position|
            p.valid() && (#[trigger] at(g.board@, p)) == Some(king_of(g.turn.opposite_spec()))
                ==> !attacks_spec(g.board@, g.turn, p),
        g.is_promotion_spec(g.moves_spec()[i].0, g.moves_spec()[i].1[j]),
        promotions_spec().contains(pt),
        g2.turn == g.turn.opposite_spec(),
        g2.board@ == promoted_board(g.board@, g.moves_spec()[i].0, g.moves_spec()[i].1[j], pt),
        g2.just_advanced_two is None,
        g2.castling == g.castling,
    ensures
        g2.wf(),
        forall|p: Position|
            p.valid() && (#[trigger] at(g2.board@, p)) == Some(king_of(g2.turn.opposite_spec()))
                ==> !attacks_spec(g2.board@, g2.turn, p),
    decreases 0int,
{
    lemma_moves_upto_elem(g, 64, i);
    let from = g.moves_spec()[i].0;
    let to = g.moves_spec()[i].1[j];
    let piece = at(g.board@, from).unwrap();
    let b = g.board@;
    let bf = g2.board@;
    assert(piece.piece == PieceType::Pawn);
    lemma_dest_props(g, from, piece, j);
    lemma_legal_move_keeps_king_safe(g, i, j);
    lemma_promotion_preserves_kings(g, i, j, pt, PieceColor::White);
    lemma_promotion_preserves_kings(g, i, j, pt, PieceColor::Black);
    assert(pt != PieceType::King && pt != PieceType::Pawn) by {
        let ix = choose|ix: int| 0 <= ix < promotions_spec().len() && promotions_spec()[ix] == pt;
    }
    assert(from.idx() != to.idx());
    let np = Piece { color: piece.color, piece: pt };
    assert(bf == b.update(from.idx(), None).update(to.idx(), Some(np)));
    assert forall|p: Position| p.valid() && p != from && p != to implies at(bf, p) == at(b, p) by {
        assert(p.idx() != from.idx() && p.idx() != to.idx());
    }
    assert(at(bf, to) == Some(np));
    assert(at(bf, from) is None);
    // no pawn comes to rest on a first or last rank
    assert forall|p: Position|
        p.valid() && ((#[trigger] at(bf, p)) matches Some(pc) && pc.piece
            == PieceType::Pawn) implies 0 < p.rank < 7 by {
        if p != from && p != to {
            assert(at(bf, p) == at(b, p));
        }
    }
    // castling rights still held point at an untouched king square
    assert forall|c: PieceColor|
        (g2.castling.of(c).can_queenside() || g2.castling.of(
            c,
        ).can_kingside()) implies at(bf, Position { rank: c.piece_starting_rank_spec(), file: 4 })
        == Some(king_of(c)) by {
        let st = Position { rank: c.piece_starting_rank_spec(), file: 4 };
        assert(at(b, st) == Some(king_of(c)));
        assert(st != from);
        if st == to {
            if c == g.turn {
                assert(!g.not_own_at(to));
                assert(false);
            } else {
                lemma_capture_is_attacked(g, i, j);
                assert(false);
            }
        }
        assert(at(bf, st) == at(b, st));
    }
    // the just-moved side's king is unattacked, and it is the only one
    let t_king = king_of(g.turn);
    assert(piece_count(bf, t_king) == 1);
    lemma_count_find(b, t_king, 64);
    lemma_find_upto_valid(b, t_king, 64);
    let k = find_piece(b, t_king).unwrap();
    assert(g.king_square() == Some(k));
    assert(k != from && k != to);
    assert(at(bf, k) == Some(t_king));
    // the safety filter simulated the promotion with a queen; the boards
    // occupy the same squares and agree on every opposing piece
    let bq = promoted_board(b, from, to, PieceType::Queen);
    assert(g.board_after_sim(from, to) == bq);
    assert(bq == b.update(from.idx(), None).update(to.idx(), Some(
        Piece { color: piece.color, piece: PieceType::Queen },
    )));
    assert forall|p: Position| p.valid() implies ((#[trigger] at(bq, p)) is Some <==> at(bf, p)
        is Some) by {
        if p != from && p != to {
            assert(p.idx() != from.idx() && p.idx() != to.idx());
        }
    }
    assert forall|kk: int|
        0 <= kk < 64 implies (bq[kk] == bf[kk] || ((#[trigger] bq[kk]) matches Some(x) && bf[kk]
            matches Some(y) && x.color != g2.turn && y.color != g2.turn)) by {
        if kk != from.idx() && kk != to.idx() {
            assert(bq[kk] == b[kk] && bf[kk] == b[kk]);
        }
    }
    lemma_attacks_congruent(bq, bf, g2.turn, k);
    assert(!attacks_spec(bf, g2.turn, k));
    assert forall|p: Position|
        p.valid() && (#[trigger] at(bf, p)) == Some(t_king) implies !attacks_spec(
        bf,
        g2.turn,
        p,
    ) by {
        if p != k {
            lemma_count_two_witnesses(bf, t_king, p.idx(), k.idx(), 64);
            assert(false);
        }
    }
}


} // verus!
