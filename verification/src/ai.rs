//! Adversarial move selection: minimax with alpha-beta pruning over the
//! game's legal moves, with a material heuristic and outcome-aware ordering.
//! White maximizes and Black minimizes; the chosen move always comes from
//! the current legal-move set, the backed-up value equals the plain
//! (unpruned) minimax value, and ties keep the first move in enumeration
//! order.

use vstd::prelude::*;

use crate::game::board::position::Position;
use crate::game::board::{at, moved_board, promoted_board};
use crate::game::board::Board;
use crate::game::piece::{Piece, PieceColor, PieceType};
use crate::game::{
    castling_after, ep_after, lemma_dests_valid, lemma_moves_upto_elem, pair_view, promotions,
    promotions_spec, Game, GameState, Outcome,
};

verus! {

/// A move a player can make: a plain relocation, or a pawn promotion with
/// the chosen piece kind.
#[derive(Clone, Copy, PartialEq, Eq, Structural, Debug)]
pub enum Move {
    Move(Position, Position),
    Promote(Position, Position, PieceType),
}

/// The pair (`from`, `to`) appears in the game's legal-move set.
pub open spec fn pair_in_moves(g: Game, from: Position, to: Position) -> bool {
    exists|i: int|
        0 <= i < g.moves_spec().len() && (#[trigger] g.moves_spec()[i]).0 == from
            && g.moves_spec()[i].1.contains(to)
}

/// The move lies in the game's legal-move set, with a promotion exactly
/// where the destination demands one, and a permitted promotion kind.
pub open spec fn legal_move_spec(g: Game, m: Move) -> bool {
    match m {
        Move::Move(from, to) => pair_in_moves(g, from, to) && !g.is_promotion_spec(from, to),
        Move::Promote(from, to, pt) => pair_in_moves(g, from, to) && g.is_promotion_spec(from, to)
            && promotions_spec().contains(pt),
    }
}

/// A position's worth: a decided outcome, or a material estimate in pawns.
#[derive(Clone, Copy, PartialEq, Eq, Structural, Debug)]
pub enum Evaluation {
    Outcome(Outcome),
    Estimate(i16),
}

/// The strict order on evaluations: a White win is the maximum and a Black
/// win the minimum; a draw compares as a material estimate of zero (so a
/// draw and a zero estimate are order-equivalent); two estimates compare
/// numerically.
pub open spec fn eval_lt(a: Evaluation, b: Evaluation) -> bool {
    if a == Evaluation::Outcome(Outcome::Win(PieceColor::White)) {
        false
    } else if b == Evaluation::Outcome(Outcome::Win(PieceColor::White)) {
        true
    } else if a == Evaluation::Outcome(Outcome::Win(PieceColor::Black)) {
        b != Evaluation::Outcome(Outcome::Win(PieceColor::Black))
    } else if b == Evaluation::Outcome(Outcome::Win(PieceColor::Black)) {
        false
    } else {
        match (a, b) {
            (Evaluation::Outcome(Outcome::Draw), Evaluation::Outcome(Outcome::Draw)) => false,
            (Evaluation::Outcome(Outcome::Draw), Evaluation::Estimate(n)) => 0 < n,
            (Evaluation::Estimate(n), Evaluation::Outcome(Outcome::Draw)) => n < 0,
            (Evaluation::Estimate(n), Evaluation::Estimate(m)) => n < m,
            _ => false,
        }
    }
}

impl Evaluation {
    /// Strictly less, per the order on evaluations.
    pub fn lt(self, other: Evaluation) -> (r: bool)
        ensures
            r == eval_lt(self, other),
    {
        let ww = Evaluation::Outcome(Outcome::Win(PieceColor::White));
        let wb = Evaluation::Outcome(Outcome::Win(PieceColor::Black));
        if self == ww {
            false
        } else if other == ww {
            true
        } else if self == wb {
            other != wb
        } else if other == wb {
            false
        } else {
            match (self, other) {
                (Evaluation::Outcome(Outcome::Draw), Evaluation::Outcome(Outcome::Draw)) => false,
                (Evaluation::Outcome(Outcome::Draw), Evaluation::Estimate(n)) => 0 < n,
                (Evaluation::Estimate(n), Evaluation::Outcome(Outcome::Draw)) => n < 0,
                (Evaluation::Estimate(n), Evaluation::Estimate(m)) => n < m,
                _ => false,
            }
        }
    }
}

/// The order on evaluations is a strict weak order: irreflexive,
/// asymmetric, and transitive in every mix of strict and non-strict forms.
/// (A draw and a zero estimate compare as equivalent without being equal.)
pub proof fn lemma_eval_order(a: Evaluation, b: Evaluation, c: Evaluation)
    ensures
        !eval_lt(a, a),
        !(eval_lt(a, b) && eval_lt(b, a)),
        eval_lt(a, b) && eval_lt(b, c) ==> eval_lt(a, c),
        !eval_lt(b, a) && !eval_lt(c, b) ==> !eval_lt(c, a),
        eval_lt(a, b) && !eval_lt(c, b) ==> eval_lt(a, c),
        !eval_lt(b, a) && eval_lt(b, c) ==> eval_lt(a, c),
{
}

/// The order facts of `lemma_eval_order`, quantified for use in larger
/// case analyses.
pub proof fn lemma_eval_order_all()
    ensures
        forall|a: Evaluation| !(#[trigger] eval_lt(a, a)),
        forall|a: Evaluation, b: Evaluation| #[trigger]
            eval_lt(a, b) ==> !(#[trigger] eval_lt(b, a)),
        forall|a: Evaluation, b: Evaluation, c: Evaluation|
            #[trigger] eval_lt(a, b) && #[trigger] eval_lt(b, c) ==> eval_lt(a, c),
        forall|a: Evaluation, b: Evaluation, c: Evaluation|
            !(#[trigger] eval_lt(b, a)) && !(#[trigger] eval_lt(c, b)) ==> !eval_lt(c, a),
        forall|a: Evaluation, b: Evaluation, c: Evaluation|
            #[trigger] eval_lt(a, b) && !(#[trigger] eval_lt(c, b)) ==> eval_lt(a, c),
        forall|a: Evaluation, b: Evaluation, c: Evaluation|
            !(#[trigger] eval_lt(b, a)) && #[trigger] eval_lt(b, c) ==> eval_lt(a, c),
{
    assert forall|a: Evaluation, b: Evaluation, c: Evaluation|
        (#[trigger] eval_lt(a, b) && #[trigger] eval_lt(b, c) ==> eval_lt(a, c)) && (!(
        #[trigger] eval_lt(b, a)) && !eval_lt(c, b) ==> !eval_lt(c, a)) && (eval_lt(a, b)
        && !eval_lt(c, b) ==> eval_lt(a, c)) && (!eval_lt(b, a) && eval_lt(b, c) ==> eval_lt(
        a,
        c,
    )) by {
        lemma_eval_order(a, b, c);
    }
    assert forall|a: Evaluation, b: Evaluation| #[trigger]
        eval_lt(a, b) implies !(#[trigger] eval_lt(b, a)) by {
        lemma_eval_order(a, b, a);
    }
    assert forall|a: Evaluation| !(#[trigger] eval_lt(a, a)) by {
        lemma_eval_order(a, a, a);
    }
}

/// The greater of two evaluations.
pub open spec fn eval_max(a: Evaluation, b: Evaluation) -> Evaluation {
    if eval_lt(a, b) {
        b
    } else {
        a
    }
}

/// The lesser of two evaluations.
pub open spec fn eval_min(a: Evaluation, b: Evaluation) -> Evaluation {
    if eval_lt(b, a) {
        b
    } else {
        a
    }
}

/// The fixed relative material value of a piece kind.
pub open spec fn piece_value(piece: PieceType) -> int {
    match piece {
        PieceType::Pawn => 1,
        PieceType::Knight => 3,
        PieceType::Bishop => 3,
        PieceType::Rook => 5,
        PieceType::Queen => 9,
        PieceType::King => 0,
    }
}

/// The fixed relative material value of a piece kind.
pub fn value(piece: PieceType) -> (r: i8)
    ensures
        r == piece_value(piece),
{
    match piece {
        PieceType::Pawn => 1,
        PieceType::Knight => 3,
        PieceType::Bishop => 3,
        PieceType::Rook => 5,
        PieceType::Queen => 9,
        PieceType::King => 0,
    }
}

/// The signed material contribution of one square: positive for White,
/// negative for Black.
pub open spec fn signed_value(sq: Option<Piece>) -> int {
    match sq {
        Some(pc) => if pc.color == PieceColor::White {
            piece_value(pc.piece)
        } else {
            -piece_value(pc.piece)
        },
        None => 0,
    }
}

/// The summed signed material of the first `n` squares.
pub open spec fn material_upto(b: Seq<Option<Piece>>, n: int) -> int
    decreases n,
{
    if n <= 0 {
        0
    } else {
        material_upto(b, n - 1) + signed_value(b[n - 1])
    }
}

/// White's total material minus Black's.
pub open spec fn material(b: Seq<Option<Piece>>) -> int {
    material_upto(b, 64)
}

/// The material sum over `n` squares stays within `9 * n` of zero.
proof fn lemma_material_bounds(b: Seq<Option<Piece>>, n: int)
    requires
        0 <= n,
    ensures
        -9 * n <= material_upto(b, n) <= 9 * n,
    decreases n,
{
    if n > 0 {
        lemma_material_bounds(b, n - 1);
    }
}

/// The material estimate of a position: the sum of White's piece values
/// minus the sum of Black's, per `piece_value`.
pub fn estimate(game: &Game) -> (r: i16)
    requires
        game.wf0(),
    ensures
        r == material(game.board@),
{
    let mut acc: i16 = 0;
    let mut i: usize = 0;
    while i < 64
        invariant
            game.wf0(),
            i <= 64,
            acc == material_upto(game.board@, i as int),
        decreases 64 - i,
    {
        proof {
            lemma_material_bounds(game.board@, i as int);
        }
        let p = Board::pos_at(i);
        let v: i8 = match game.board.get(p) {
            Some(pc) => {
                let x = value(pc.piece);
                if pc.color == PieceColor::White {
                    x
                } else {
                    -x
                }
            },
            None => 0,
        };
        acc = acc + v as i16;
        i = i + 1;
    }
    acc
}

/// The state after applying a move: a plain relocation or a promotion, per
/// the game's transition operations.
pub open spec fn state_after(c: GameState, m: Move) -> GameState {
    match m {
        Move::Move(from, to) => GameState {
            turn: c.turn.opposite_spec(),
            board: moved_board(c.board, from, to),
            just_advanced_two: ep_after(c.board, from, to),
            castling: castling_after(c.castling, at(c.board, from).unwrap(), from),
        },
        Move::Promote(from, to, pt) => GameState {
            turn: c.turn.opposite_spec(),
            board: promoted_board(c.board, from, to, pt),
            just_advanced_two: None,
            castling: c.castling,
        },
    }
}

/// Fold one candidate into the best so far: a strictly better value
/// (greater for White, less for Black) replaces it, a tie keeps the
/// earlier move.
pub open spec fn fold_best(
    white: bool,
    acc: Option<(Move, Evaluation)>,
    m: Move,
    e: Evaluation,
) -> Option<(Move, Evaluation)> {
    match acc {
        None => Some((m, e)),
        Some(pr) => if (white && eval_lt(pr.1, e)) || (!white && eval_lt(e, pr.1)) {
            Some((m, e))
        } else {
            Some(pr)
        },
    }
}

/// The plain minimax value of the successor reached by `m`: the outcome if
/// it is terminal, the material estimate at depth zero, and the value of
/// the deeper search otherwise.
pub open spec fn child_value(c: GameState, m: Move, depth: nat) -> Evaluation
    decreases depth, 0int, 0int,
{
    let c2 = state_after(c, m);
    match c2.status_spec() {
        Some(o) => Evaluation::Outcome(o),
        None => if depth == 0 {
            Evaluation::Estimate(material(c2.board) as i16)
        } else {
            minimax_value(c2, (depth - 1) as nat)
        },
    }
}

/// Fold the four promotion candidates of (`from`, `to`) from index `k` on.
pub open spec fn best_over_promotions(
    c: GameState,
    depth: nat,
    from: Position,
    to: Position,
    k: int,
    acc: Option<(Move, Evaluation)>,
) -> Option<(Move, Evaluation)>
    decreases depth, 1int, 4 - k,
{
    if k < 0 || k >= 4 {
        acc
    } else {
        best_over_promotions(
            c,
            depth,
            from,
            to,
            k + 1,
            fold_best(
                c.turn == PieceColor::White,
                acc,
                Move::Promote(from, to, promotions_spec()[k]),
                child_value(c, Move::Promote(from, to, promotions_spec()[k]), depth),
            ),
        )
    }
}

/// Fold the candidates arising from the destinations `tos[j..]` of `from`:
/// a promoting destination expands into the four promotion choices.
pub open spec fn best_over_dests(
    c: GameState,
    depth: nat,
    from: Position,
    tos: Seq<Position>,
    j: int,
    acc: Option<(Move, Evaluation)>,
) -> Option<(Move, Evaluation)>
    decreases depth, 2int, tos.len() - j,
{
    if j < 0 || j >= tos.len() {
        acc
    } else {
        let to = tos[j];
        let acc2 = if c.is_promotion_spec(from, to) {
            best_over_promotions(c, depth, from, to, 0, acc)
        } else {
            fold_best(
                c.turn == PieceColor::White,
                acc,
                Move::Move(from, to),
                child_value(c, Move::Move(from, to), depth),
            )
        };
        best_over_dests(c, depth, from, tos, j + 1, acc2)
    }
}

/// Fold the candidates of the move-list entries `[i..]`, in enumeration
/// order: board order over the side's pieces, then destination order, then
/// promotion order.
pub open spec fn best_over_moves(
    c: GameState,
    depth: nat,
    i: int,
    acc: Option<(Move, Evaluation)>,
) -> Option<(Move, Evaluation)>
    decreases depth, 3int, c.moves_spec().len() - i,
{
    if i < 0 || i >= c.moves_spec().len() {
        acc
    } else {
        best_over_moves(
            c,
            depth,
            i + 1,
            best_over_dests(c, depth, c.moves_spec()[i].0, c.moves_spec()[i].1, 0, acc),
        )
    }
}

/// The plain (unpruned) minimax result over all legal candidates — the
/// first move in enumeration order attaining the best value, and that value
/// — or nothing when the side to move has none.
pub open spec fn minimax_best_opt(c: GameState, depth: nat) -> Option<(Move, Evaluation)>
    decreases depth, 4int, 0int,
{
    best_over_moves(c, depth, 0, None)
}

/// The plain (unpruned) minimax result of a position with at least one
/// legal move: White maximizes and Black minimizes `child_value` over every
/// legal candidate, ties keeping the first move in enumeration order.
pub open spec fn minimax_best(c: GameState, depth: nat) -> (Move, Evaluation)
    decreases depth, 5int, 0int,
{
    minimax_best_opt(c, depth).unwrap()
}

/// The plain (unpruned) minimax value of a position with at least one legal
/// move.
pub open spec fn minimax_value(c: GameState, depth: nat) -> Evaluation
    decreases depth, 6int, 0int,
{
    minimax_best(c, depth).1
}

/// `y` is at least as good an accumulator as `x` for the folding side.
pub open spec fn acc_le(
    white: bool,
    x: Option<(Move, Evaluation)>,
    y: Option<(Move, Evaluation)>,
) -> bool {
    match x {
        None => true,
        Some(xv) => match y {
            Some(yv) => if white {
                !eval_lt(yv.1, xv.1)
            } else {
                !eval_lt(xv.1, yv.1)
            },
            None => false,
        },
    }
}

/// Folding the promotion candidates only improves the accumulator.
proof fn lemma_promotions_monotone(
    c: GameState,
    depth: nat,
    from: Position,
    to: Position,
    k: int,
    acc: Option<(Move, Evaluation)>,
)
    ensures
        acc_le(
            c.turn == PieceColor::White,
            acc,
            best_over_promotions(c, depth, from, to, k, acc),
        ),
    decreases 4 - k,
{
    if 0 <= k < 4 {
        let white = c.turn == PieceColor::White;
        let mv = Move::Promote(from, to, promotions_spec()[k]);
        let acc2 = fold_best(white, acc, mv, child_value(c, mv, depth));
        lemma_promotions_monotone(c, depth, from, to, k + 1, acc2);
        if acc is Some && acc2 is Some && best_over_promotions(c, depth, from, to, k + 1, acc2)
            is Some {
            lemma_eval_order(
                acc.unwrap().1,
                acc2.unwrap().1,
                best_over_promotions(c, depth, from, to, k + 1, acc2).unwrap().1,
            );
        }
    }
}

/// Folding the candidates of one origin's destinations only improves the
/// accumulator.
proof fn lemma_dests_monotone(
    c: GameState,
    depth: nat,
    from: Position,
    tos: Seq<Position>,
    j: int,
    acc: Option<(Move, Evaluation)>,
)
    ensures
        acc_le(c.turn == PieceColor::White, acc, best_over_dests(c, depth, from, tos, j, acc)),
    decreases tos.len() - j,
{
    if 0 <= j < tos.len() {
        let white = c.turn == PieceColor::White;
        let to = tos[j];
        let acc2 = if c.is_promotion_spec(from, to) {
            best_over_promotions(c, depth, from, to, 0, acc)
        } else {
            fold_best(white, acc, Move::Move(from, to), child_value(c, Move::Move(from, to), depth))
        };
        if c.is_promotion_spec(from, to) {
            lemma_promotions_monotone(c, depth, from, to, 0, acc);
        }
        lemma_dests_monotone(c, depth, from, tos, j + 1, acc2);
        if acc is Some && acc2 is Some && best_over_dests(c, depth, from, tos, j + 1, acc2)
            is Some {
            lemma_eval_order(
                acc.unwrap().1,
                acc2.unwrap().1,
                best_over_dests(c, depth, from, tos, j + 1, acc2).unwrap().1,
            );
        }
    }
}

/// Folding the remaining move-list entries only improves the accumulator.
proof fn lemma_moves_monotone(c: GameState, depth: nat, i: int, acc: Option<(Move, Evaluation)>)
    ensures
        acc_le(c.turn == PieceColor::White, acc, best_over_moves(c, depth, i, acc)),
    decreases c.moves_spec().len() - i,
{
    if 0 <= i < c.moves_spec().len() {
        let acc2 = best_over_dests(c, depth, c.moves_spec()[i].0, c.moves_spec()[i].1, 0, acc);
        lemma_dests_monotone(c, depth, c.moves_spec()[i].0, c.moves_spec()[i].1, 0, acc);
        lemma_moves_monotone(c, depth, i + 1, acc2);
        if acc is Some && acc2 is Some && best_over_moves(c, depth, i + 1, acc2) is Some {
            lemma_eval_order(
                acc.unwrap().1,
                acc2.unwrap().1,
                best_over_moves(c, depth, i + 1, acc2).unwrap().1,
            );
        }
    }
}

/// The running facts of one node's candidate scan: `vpref` is the plain
/// minimax fold over the candidates already considered, `best` the running
/// best, and `alpha`/`beta` the window (`a0`, `b0` on entry). For White the
/// best never exceeds the better of `a0` and `vpref`, it reaches `b0`
/// whenever `vpref` does, it equals `vpref` strictly inside the window, and
/// a cutoff certifies a value beyond `b0`; Black mirrors all of it.
pub open spec fn scan_inv(
    c: GameState,
    a0: Evaluation,
    b0: Evaluation,
    vpref: Option<(Move, Evaluation)>,
    best: Option<(Move, Evaluation)>,
    alpha: Evaluation,
    beta: Evaluation,
    cut: bool,
) -> bool {
    if c.turn == PieceColor::White {
        &&& beta == b0
        &&& match (vpref, best) {
            (None, None) => !cut && alpha == a0,
            (Some(vb), Some(pr)) => {
                &&& (!cut ==> !eval_lt(eval_max(a0, vb.1), pr.1))
                &&& (!eval_lt(vb.1, b0) ==> !eval_lt(pr.1, b0))
                &&& (!cut ==> alpha == eval_max(a0, pr.1))
                &&& (!cut ==> !eval_lt(b0, pr.1))
                &&& (!cut && eval_lt(a0, vb.1) && eval_lt(vb.1, b0) ==> pr == vb)
                &&& (cut ==> eval_lt(b0, pr.1) && !eval_lt(vb.1, b0) && eval_lt(a0, vb.1))
            },
            _ => false,
        }
    } else {
        &&& alpha == a0
        &&& match (vpref, best) {
            (None, None) => !cut && beta == b0,
            (Some(vb), Some(pr)) => {
                &&& (!cut ==> !eval_lt(pr.1, eval_min(b0, vb.1)))
                &&& (!eval_lt(a0, vb.1) ==> !eval_lt(a0, pr.1))
                &&& (!cut ==> beta == eval_min(b0, pr.1))
                &&& (!cut ==> !eval_lt(pr.1, a0))
                &&& (!cut && eval_lt(a0, vb.1) && eval_lt(vb.1, b0) ==> pr == vb)
                &&& (cut ==> eval_lt(pr.1, a0) && !eval_lt(a0, vb.1) && eval_lt(vb.1, b0))
            },
            _ => false,
        }
    }
}

/// Apply candidate `m`, evaluate the successor (outcome if terminal,
/// material at depth zero, recursive search otherwise), and fold the result
/// into the running best move and the alpha-beta window; `cut` is raised on
/// a cutoff. The scan facts of `scan_inv` are carried across the step, with
/// the candidate's plain value folded into the prefix value.
#[verifier::rlimit(100)]
#[verifier::spinoff_prover]
fn consider(
    game: &Game,
    depth: usize,
    m: Move,
    best: &mut Option<(Move, Evaluation)>,
    alpha: &mut Evaluation,
    beta: &mut Evaluation,
    cut: &mut bool,
    Ghost(a0): Ghost<Evaluation>,
    Ghost(b0): Ghost<Evaluation>,
    Ghost(vpref): Ghost<Option<(Move, Evaluation)>>,
)
    requires
        game.wf0(),
        legal_move_spec(*game, m),
        match m {
            Move::Move(from, to) => from.valid() && to.valid() && at(game.board@, from) is Some,
            Move::Promote(from, to, pt) => from.valid() && to.valid(),
        },
        match *old(best) {
            Some(pr) => legal_move_spec(*game, pr.0),
            None => true,
        },
        *old(cut) == false,
        !eval_lt(b0, a0),
        scan_inv(game.state(), a0, b0, vpref, *old(best), *old(alpha), *old(beta), false),
    ensures
        *final(best) is Some,
        legal_move_spec(*game, (*final(best)).unwrap().0),
        scan_inv(
            game.state(),
            a0,
            b0,
            fold_best(
                game.state().turn == PieceColor::White,
                vpref,
                m,
                child_value(game.state(), m, depth as nat),
            ),
            *final(best),
            *final(alpha),
            *final(beta),
            *final(cut),
        ),
    decreases depth, 0int,
{
    let ghost c = game.state();
    let ghost v = child_value(c, m, depth as nat);
    let ghost alpha_in = *alpha;
    let ghost beta_in = *beta;
    let ghost best_in = *best;
    proof {
        // the current window sits inside (a0, b0)
        lemma_eval_order_all();
        assert(!eval_lt(beta_in, alpha_in));
    }
    let next: Game = match m {
        Move::Move(from, to) => game.apply_move(from, to),
        Move::Promote(from, to, pt) => game.promote(from, to, pt),
    };
    proof {
        assert(next.state() == state_after(c, m));
    }
    let st = next.status_inner();
    let evaluation: Evaluation = match st {
        Some(outcome) => Evaluation::Outcome(outcome),
        None => {
            if depth == 0 {
                let e0 = estimate(&next);
                proof {
                    lemma_material_bounds(next.board@, 64);
                }
                Evaluation::Estimate(e0)
            } else {
                let sub = minimax(&next, depth - 1, *alpha, *beta);
                sub.1
            }
        },
    };
    proof {
        // the runtime evaluation approximates the candidate's plain value:
        // exact when terminal or at depth zero, windowed otherwise
        assert(eval_lt(alpha_in, v) && eval_lt(v, beta_in) ==> evaluation == v);
        assert(!eval_lt(alpha_in, v) ==> !eval_lt(alpha_in, evaluation));
        assert(!eval_lt(v, beta_in) ==> !eval_lt(evaluation, beta_in));
    }
    match game.turn() {
        PieceColor::White => {
            let better = match *best {
                Some(pr) => pr.1.lt(evaluation),
                None => true,
            };
            if better {
                *best = Some((m, evaluation));
            }
            if beta.lt(evaluation) {
                *cut = true;
            } else if alpha.lt(evaluation) {
                *alpha = evaluation;
            }
        },
        PieceColor::Black => {
            let better = match *best {
                Some(pr) => evaluation.lt(pr.1),
                None => true,
            };
            if better {
                *best = Some((m, evaluation));
            }
            if evaluation.lt(*alpha) {
                *cut = true;
            } else if evaluation.lt(*beta) {
                *beta = evaluation;
            }
        },
    }
    proof {
        lemma_eval_order_all();
    }
}

/// Minimax with alpha-beta pruning: `alpha` is the highest value White can
/// already force, `beta` the lowest Black can. The returned move is legal;
/// the returned value equals the plain minimax value whenever that value
/// lies strictly inside the window, and otherwise lands on the same side of
/// the window bound. Ties keep the first move in enumeration order. The
/// game must not be in mate.
#[verifier::rlimit(100)]
#[verifier::spinoff_prover]
fn minimax(game: &Game, depth: usize, alpha: Evaluation, beta: Evaluation) -> (r: (
    Move,
    Evaluation,
))
    requires
        game.wf0(),
        game.status_spec() is None,
        !eval_lt(beta, alpha),
    ensures
        legal_move_spec(*game, r.0),
        ({
            let v = minimax_value(game.state(), depth as nat);
            &&& (eval_lt(alpha, v) && eval_lt(v, beta) ==> r == minimax_best(
                game.state(),
                depth as nat,
            ))
            &&& (!eval_lt(alpha, v) ==> !eval_lt(alpha, r.1))
            &&& (!eval_lt(v, beta) ==> !eval_lt(r.1, beta))
        }),
    decreases depth, 1int,
{
    let ghost c = game.state();
    let ghost a0 = alpha;
    let ghost b0 = beta;
    let ghost d = depth as nat;
    let mut alpha = alpha;
    let mut beta = beta;
    let moves_list = game.moves_inner();
    let mut best: Option<(Move, Evaluation)> = None;
    let ghost mut acc: Option<(Move, Evaluation)> = None;
    let n = moves_list.len();
    let mut cut: bool = false;
    let mut i: usize = 0;
    while i < n && !cut
        invariant
            game.wf0(),
            game.status_spec() is None,
            c == game.state(),
            d == depth as nat,
            !eval_lt(b0, a0),
            n == moves_list@.len(),
            pair_view(moves_list@) == game.moves_spec(),
            i <= n,
            match best {
                Some(pr) => legal_move_spec(*game, pr.0),
                None => true,
            },
            scan_inv(c, a0, b0, acc, best, alpha, beta, cut),
            !cut ==> minimax_best_opt(c, d) == best_over_moves(c, d, i as int, acc),
            cut ==> acc is Some && acc_le(
                c.turn == PieceColor::White,
                acc,
                minimax_best_opt(c, d),
            ),
            best is None ==> forall|j: int|
                0 <= j < i ==> (#[trigger] game.moves_spec()[j]).1.len() == 0,
        decreases n - i,
    {
        let from = moves_list[i].0;
        let m = moves_list[i].1.len();
        proof {
            lemma_moves_upto_elem(*game, 64, i as int);
            lemma_dests_valid(*game, from, at(game.board@, from).unwrap());
            assert(game.moves_spec()[i as int].1 == moves_list@[i as int].1@);
        }
        let ghost tos = c.moves_spec()[i as int].1;
        let mut j: usize = 0;
        while j < m && !cut
            invariant
                game.wf0(),
                game.status_spec() is None,
                c == game.state(),
                d == depth as nat,
                !eval_lt(b0, a0),
                n == moves_list@.len(),
                pair_view(moves_list@) == game.moves_spec(),
                i < n,
                j <= m,
                from == game.moves_spec()[i as int].0,
                tos == c.moves_spec()[i as int].1,
                m == tos.len(),
                from.valid(),
                at(game.board@, from) is Some,
                forall|k: int| 0 <= k < m ==> (#[trigger] tos[k]).valid(),
                match best {
                    Some(pr) => legal_move_spec(*game, pr.0),
                    None => true,
                },
                scan_inv(c, a0, b0, acc, best, alpha, beta, cut),
                !cut ==> minimax_best_opt(c, d) == best_over_moves(
                    c,
                    d,
                    i as int + 1,
                    best_over_dests(c, d, from, tos, j as int, acc),
                ),
                cut ==> acc is Some && acc_le(
                    c.turn == PieceColor::White,
                    acc,
                    minimax_best_opt(c, d),
                ),
                best is None ==> j == 0 && forall|k: int|
                    0 <= k < i ==> (#[trigger] game.moves_spec()[k]).1.len() == 0,
            decreases m - j,
        {
            let to = moves_list[i].1[j];
            proof {
                assert(game.moves_spec()[i as int].1[j as int] == to);
                assert(game.moves_spec()[i as int].1.contains(to));
                assert(pair_in_moves(*game, from, to));
            }
            if game.is_promotion(from, to) {
                let promos = promotions();
                let mut k: usize = 0;
                while k < 4 && !cut
                    invariant
                        game.wf0(),
                        game.status_spec() is None,
                        c == game.state(),
                        d == depth as nat,
                        !eval_lt(b0, a0),
                        promos@ == promotions_spec(),
                        k <= 4,
                        from.valid(),
                        to.valid(),
                        at(game.board@, from) is Some,
                        pair_in_moves(*game, from, to),
                        game.is_promotion_spec(from, to),
                        i < n,
                        j < m,
                        from == game.moves_spec()[i as int].0,
                        tos == c.moves_spec()[i as int].1,
                        m == tos.len(),
                        to == tos[j as int],
                        match best {
                            Some(pr) => legal_move_spec(*game, pr.0),
                            None => true,
                        },
                        scan_inv(c, a0, b0, acc, best, alpha, beta, cut),
                        !cut ==> minimax_best_opt(c, d) == best_over_moves(
                            c,
                            d,
                            i as int + 1,
                            best_over_dests(
                                c,
                                d,
                                from,
                                tos,
                                j as int + 1,
                                best_over_promotions(c, d, from, to, k as int, acc),
                            ),
                        ),
                        cut ==> acc is Some && acc_le(
                            c.turn == PieceColor::White,
                            acc,
                            minimax_best_opt(c, d),
                        ),
                        cut ==> best is Some,
                        k > 0 ==> best is Some,
                    decreases 4 - k,
                {
                    let pt = promos[k];
                    proof {
                        assert(promotions_spec().contains(pt));
                    }
                    let mv = Move::Promote(from, to, pt);
                    consider(
                        game,
                        depth,
                        mv,
                        &mut best,
                        &mut alpha,
                        &mut beta,
                        &mut cut,
                        Ghost(a0),
                        Ghost(b0),
                        Ghost(acc),
                    );
                    proof {
                        let accn = fold_best(
                            c.turn == PieceColor::White,
                            acc,
                            mv,
                            child_value(c, mv, d),
                        );
                        if cut {
                            lemma_promotions_monotone(c, d, from, to, k as int + 1, accn);
                            let s1 = best_over_promotions(c, d, from, to, k as int + 1, accn);
                            lemma_dests_monotone(c, d, from, tos, j as int + 1, s1);
                            let s2 = best_over_dests(c, d, from, tos, j as int + 1, s1);
                            lemma_moves_monotone(c, d, i as int + 1, s2);
                            lemma_acc_le_trans(
                                c.turn == PieceColor::White,
                                accn,
                                s1,
                                s2,
                            );
                            lemma_acc_le_trans(
                                c.turn == PieceColor::White,
                                accn,
                                s2,
                                best_over_moves(c, d, i as int + 1, s2),
                            );
                        }
                        acc = accn;
                    }
                    k = k + 1;
                }
            } else {
                let mv = Move::Move(from, to);
                consider(
                    game,
                    depth,
                    mv,
                    &mut best,
                    &mut alpha,
                    &mut beta,
                    &mut cut,
                    Ghost(a0),
                    Ghost(b0),
                    Ghost(acc),
                );
                proof {
                    let accn = fold_best(
                        c.turn == PieceColor::White,
                        acc,
                        mv,
                        child_value(c, mv, d),
                    );
                    if cut {
                        lemma_dests_monotone(c, d, from, tos, j as int + 1, accn);
                        let s1 = best_over_dests(c, d, from, tos, j as int + 1, accn);
                        lemma_moves_monotone(c, d, i as int + 1, s1);
                        lemma_acc_le_trans(
                            c.turn == PieceColor::White,
                            accn,
                            s1,
                            best_over_moves(c, d, i as int + 1, s1),
                        );
                    }
                    acc = accn;
                }
            }
            j = j + 1;
        }
        i = i + 1;
    }
    match best {
        Some(pr) => {
            proof {
                let white = c.turn == PieceColor::White;
                let vopt = minimax_best_opt(c, d);
                let v = minimax_value(c, d);
                if !cut {
                    assert(vopt == acc);
                } else {
                    assert(acc is Some && acc_le(white, acc, vopt));
                }
                lemma_eval_order_all();
                match acc {
                    Some(va) => {},
                    None => {
                        assert(false);
                    },
                }
            }
            pr
        },
        None => {
            proof {
                assert(game.moves_all_empty());
                assert(false);
            }
            unreached()
        },
    }
}

/// Composing "at least as good an accumulator" steps.
proof fn lemma_acc_le_trans(
    white: bool,
    x: Option<(Move, Evaluation)>,
    y: Option<(Move, Evaluation)>,
    z: Option<(Move, Evaluation)>,
)
    requires
        acc_le(white, x, y),
        acc_le(white, y, z),
    ensures
        acc_le(white, x, z),
{
    match (x, y, z) {
        (Some(xv), Some(yv), Some(zv)) => {
            lemma_eval_order(xv.1, yv.1, zv.1);
        },
        _ => {},
    }
}

/// The chosen move for the side to move, searching `depth` plies deep, and
/// the value backed up for it: called with the full window, the alpha-beta
/// search returns exactly the plain (unpruned) minimax value of the
/// position. The game must not be in mate.
pub fn search(game: &Game, depth: usize) -> (r: (Move, Evaluation))
    requires
        game.wf(),
        game.status_spec() is None,
    ensures
        legal_move_spec(*game, r.0),
        r.1 == minimax_value(game.state(), depth as nat),
        (eval_lt(Evaluation::Outcome(Outcome::Win(PieceColor::Black)), minimax_value(game.state(), depth as nat))
            && eval_lt(minimax_value(game.state(), depth as nat), Evaluation::Outcome(Outcome::Win(PieceColor::White)))
            ==> r == minimax_best(game.state(), depth as nat)),
{
    let wb = Evaluation::Outcome(Outcome::Win(PieceColor::Black));
    let ww = Evaluation::Outcome(Outcome::Win(PieceColor::White));
    let r = minimax(game, depth, wb, ww);
    proof {
        let v = minimax_value(game.state(), depth as nat);
        // a Black win is the minimum and a White win the maximum, so a value
        // outside the full window can only sit exactly on its bound
        assert(!eval_lt(wb, v) ==> v == wb);
        assert(!eval_lt(v, ww) ==> v == ww);
        assert(!eval_lt(wb, r.1) ==> r.1 == wb);
        assert(!eval_lt(r.1, ww) ==> r.1 == ww);
    }
    r
}

/// The chosen move for the side to move, searching `depth` plies deep:
/// whenever the position's plain minimax value is not already a decided
/// win, it is the first move in enumeration order attaining that value.
/// The game must not be in mate.
pub fn choose_move(game: &Game, depth: usize) -> (r: Move)
    requires
        game.wf(),
        game.status_spec() is None,
    ensures
        legal_move_spec(*game, r),
        (eval_lt(
            Evaluation::Outcome(Outcome::Win(PieceColor::Black)),
            minimax_value(game.state(), depth as nat),
        ) && eval_lt(
            minimax_value(game.state(), depth as nat),
            Evaluation::Outcome(Outcome::Win(PieceColor::White)),
        ) ==> r == minimax_best(game.state(), depth as nat).0),
{
    search(game, depth).0
}

} // verus!
