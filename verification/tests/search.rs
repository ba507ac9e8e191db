use chess::ai::{choose_move, estimate, search, value, Evaluation, Move};
use chess::game::{Game, Outcome, PieceColor, PieceType, Position};

/// Flattened legal (from, to) pairs.
fn all_moves(game: &Game) -> Vec<(Position, Position)> {
    let mut out = Vec::new();
    for (from, tos) in game.moves() {
        for to in tos {
            out.push((from, to));
        }
    }
    out
}

/// Plain minimax without pruning, for the differential test: the first move
/// in enumeration order attaining the best value, and that value.
fn plain_minimax(game: &Game, depth: usize) -> (Move, Evaluation) {
    let mut best: Option<(Move, Evaluation)> = None;
    for (from, to) in all_moves(game) {
        let kinds: Vec<Option<PieceType>> = if game.is_promotion(from, to) {
            vec![
                Some(PieceType::Queen),
                Some(PieceType::Rook),
                Some(PieceType::Bishop),
                Some(PieceType::Knight),
            ]
        } else {
            vec![None]
        };
        for kind in kinds {
            let (m, next) = match kind {
                Some(pt) => (Move::Promote(from, to, pt), game.promote(from, to, pt)),
                None => (Move::Move(from, to), game.make_move(from, to)),
            };
            let evaluation = if let Some(outcome) = next.status() {
                Evaluation::Outcome(outcome)
            } else if depth == 0 {
                Evaluation::Estimate(estimate(&next))
            } else {
                plain_minimax(&next, depth - 1).1
            };
            let better = match best {
                None => true,
                Some((_, b)) => match game.turn() {
                    PieceColor::White => b.lt(evaluation),
                    PieceColor::Black => evaluation.lt(b),
                },
            };
            if better {
                best = Some((m, evaluation));
            }
        }
    }
    best.expect("plain_minimax called on a mated position")
}

/// A small deterministic pseudo-random walk through legal moves.
fn walk(seed: u64, plies: usize) -> Game {
    let mut state = seed;
    let mut game = Game::new();
    for _ in 0..plies {
        if game.status().is_some() {
            break;
        }
        let moves = all_moves(&game);
        state = state.wrapping_mul(6364136223846793005).wrapping_add(1442695040888963407);
        let (from, to) = moves[(state >> 33) as usize % moves.len()];
        game = if game.is_promotion(from, to) {
            game.promote(from, to, PieceType::Queen)
        } else {
            game.make_move(from, to)
        };
    }
    game
}

#[test]
fn material_of_initial_position_is_zero() {
    assert_eq!(estimate(&Game::new()), 0);
}

#[test]
fn piece_values() {
    assert_eq!(value(PieceType::Pawn), 1);
    assert_eq!(value(PieceType::Knight), 3);
    assert_eq!(value(PieceType::Bishop), 3);
    assert_eq!(value(PieceType::Rook), 5);
    assert_eq!(value(PieceType::Queen), 9);
    assert_eq!(value(PieceType::King), 0);
}

#[test]
fn estimate_reflects_captures() {
    // 1. e4 d5 2. exd5 — White is one pawn up.
    let game = Game::new();
    let game = game.make_move(Position::new(1, 4), Position::new(3, 4));
    let game = game.make_move(Position::new(6, 3), Position::new(4, 3));
    let game = game.make_move(Position::new(3, 4), Position::new(4, 3));
    assert_eq!(estimate(&game), 1);
}

#[test]
fn evaluation_order_is_total() {
    let ww = Evaluation::Outcome(Outcome::Win(PieceColor::White));
    let wb = Evaluation::Outcome(Outcome::Win(PieceColor::Black));
    let d = Evaluation::Outcome(Outcome::Draw);
    assert!(wb.lt(ww) && !ww.lt(wb));
    assert!(d.lt(ww) && wb.lt(d));
    assert!(Evaluation::Estimate(100).lt(ww) && wb.lt(Evaluation::Estimate(-100)));
    assert!(d.lt(Evaluation::Estimate(1)) && Evaluation::Estimate(-1).lt(d));
    assert!(!d.lt(Evaluation::Estimate(0)) && !Evaluation::Estimate(0).lt(d));
    assert!(Evaluation::Estimate(-3).lt(Evaluation::Estimate(5)));
    assert!(!ww.lt(ww) && !d.lt(d));
}

#[test]
fn chosen_move_is_always_legal() {
    let mut game = Game::new();
    for _ in 0..4 {
        if game.status().is_some() {
            break;
        }
        let legal = all_moves(&game);
        let m = choose_move(&game, 1);
        match m {
            Move::Move(from, to) => {
                assert!(legal.contains(&(from, to)));
                assert!(!game.is_promotion(from, to));
                game = game.make_move(from, to);
            },
            Move::Promote(from, to, pt) => {
                assert!(legal.contains(&(from, to)));
                assert!(game.is_promotion(from, to));
                game = game.promote(from, to, pt);
            },
        }
    }
}

#[test]
fn search_finds_mate_in_one() {
    // 1. f3 e5 2. g4 — Black to move has Qh4#.
    let game = Game::new();
    let game = game.make_move(Position::new(1, 5), Position::new(2, 5));
    let game = game.make_move(Position::new(6, 4), Position::new(4, 4));
    let game = game.make_move(Position::new(1, 6), Position::new(3, 6));
    let (m, v) = search(&game, 1);
    assert_eq!(m, Move::Move(Position::new(7, 3), Position::new(3, 7)));
    assert_eq!(v, Evaluation::Outcome(Outcome::Win(PieceColor::Black)));
}

#[test]
fn alpha_beta_matches_plain_minimax() {
    for depth in 0..3 {
        let game = Game::new();
        assert_eq!(search(&game, depth), plain_minimax(&game, depth), "start, depth {depth}");
    }
    for seed in 1..5u64 {
        let game = walk(seed, 6);
        if game.status().is_some() {
            continue;
        }
        for depth in 0..2 {
            let (pm, pv) = plain_minimax(&game, depth);
            let (m, v) = search(&game, depth);
            assert_eq!(v, pv, "seed {seed}, depth {depth}");
            if !matches!(pv, Evaluation::Outcome(Outcome::Win(_))) {
                assert_eq!(m, pm, "seed {seed}, depth {depth}");
            }
        }
    }
}
