use chess::game::{Game, Outcome, PieceColor, PieceType, Position};

fn p(rank: u8, file: u8) -> Position {
    Position::new(rank, file)
}

/// Flattened legal (from, to) pairs.
fn all_moves(game: &Game) -> Vec<(Position, Position)> {
    let mut out = Vec::new();
    for (from, tos) in game.moves() {
        for to in tos {
            out.push((from, to));
        }
    }
    out
}

fn has_move(game: &Game, from: Position, to: Position) -> bool {
    all_moves(game).contains(&(from, to))
}

/// Apply a move that must be legal, promoting to a queen when needed.
fn play(game: &Game, from: Position, to: Position) -> Game {
    assert!(has_move(game, from, to), "expected {from:?} -> {to:?} to be legal");
    if game.is_promotion(from, to) {
        game.promote(from, to, PieceType::Queen)
    } else {
        game.make_move(from, to)
    }
}

fn rec(game: &Game, depth: usize) {
    if depth == 0 || game.status().is_some() {
        return;
    }
    for (from, moves) in game.moves() {
        assert!(game.get(from).is_some_and(|piece| piece.color == game.turn()));
        for to in moves {
            if let Some(capture) = game.get(to) {
                assert_eq!(capture.color, game.turn().opposite(), "capture of wrong color");
                assert!(
                    game.attacks(game.turn(), to),
                    "moves sees capture {from:?}->{to:?} but attacks does not"
                );
            }
            let game = if game.is_promotion(from, to) {
                game.promote(from, to, PieceType::Queen)
            } else {
                game.make_move(from, to)
            };
            rec(&game, depth - 1)
        }
    }
}

#[test]
fn moves_and_attacks_are_consistent() {
    rec(&Game::new(), 3)
}

#[test]
fn initial_position_has_twenty_moves() {
    let game = Game::new();
    assert_eq!(all_moves(&game).len(), 20);
    assert_eq!(game.status(), None);
    assert!(!game.check());
}

#[test]
fn turn_flips_after_every_move() {
    let game = Game::new();
    assert_eq!(game.turn(), PieceColor::White);
    let game = play(&game, p(1, 4), p(3, 4));
    assert_eq!(game.turn(), PieceColor::Black);
    let game = play(&game, p(6, 4), p(4, 4));
    assert_eq!(game.turn(), PieceColor::White);
}

#[test]
fn en_passant_window_opens_and_closes() {
    // 1. e4 a6 2. e5 d5 — the black pawn lands beside the white e-pawn.
    let game = Game::new();
    let game = play(&game, p(1, 4), p(3, 4));
    let game = play(&game, p(6, 0), p(5, 0));
    let game = play(&game, p(3, 4), p(4, 4));
    let game = play(&game, p(6, 3), p(4, 3));
    // The capture en passant is available exactly now.
    assert!(has_move(&game, p(4, 4), p(5, 3)));
    let captured = play(&game, p(4, 4), p(5, 3));
    assert_eq!(
        captured.get(p(5, 3)).map(|pc| (pc.color, pc.piece)),
        Some((PieceColor::White, PieceType::Pawn))
    );
    assert_eq!(captured.get(p(4, 3)), None, "the passed pawn is removed");
    // One ply later (without another double advance) it is gone.
    let game = play(&game, p(1, 7), p(2, 7));
    let game = play(&game, p(6, 7), p(5, 7));
    assert!(!has_move(&game, p(4, 4), p(5, 3)));
}

#[test]
fn kingside_castling_moves_rook_and_forfeits_rights() {
    // 1. e4 e5 2. Nf3 Nf6 3. Bc4 Bc5 4. O-O
    let game = Game::new();
    let game = play(&game, p(1, 4), p(3, 4));
    let game = play(&game, p(6, 4), p(4, 4));
    let game = play(&game, p(0, 6), p(2, 5));
    let game = play(&game, p(7, 6), p(5, 5));
    let game = play(&game, p(0, 5), p(3, 2));
    let game = play(&game, p(7, 5), p(4, 2));
    assert!(has_move(&game, p(0, 4), p(0, 6)), "kingside castling available");
    let game = play(&game, p(0, 4), p(0, 6));
    assert_eq!(
        game.get(p(0, 6)).map(|pc| pc.piece),
        Some(PieceType::King)
    );
    assert_eq!(
        game.get(p(0, 5)).map(|pc| pc.piece),
        Some(PieceType::Rook),
        "rook relocates to the square the king crossed"
    );
    assert_eq!(game.get(p(0, 7)), None);
    assert_eq!(game.get(p(0, 4)), None);
    assert!(!game.castling.get(PieceColor::White).can_castle_kingside());
    assert!(!game.castling.get(PieceColor::White).can_castle_queenside());
    assert!(game.castling.get(PieceColor::Black).can_castle_kingside());
}

#[test]
fn moving_a_corner_rook_forfeits_only_that_side() {
    // 1. a4 a5 2. Ra3 — only White's queenside right is lost.
    let game = Game::new();
    let game = play(&game, p(1, 0), p(3, 0));
    let game = play(&game, p(6, 0), p(4, 0));
    let game = play(&game, p(0, 0), p(2, 0));
    assert!(!game.castling.get(PieceColor::White).can_castle_queenside());
    assert!(game.castling.get(PieceColor::White).can_castle_kingside());
    // Returning the rook never restores the right.
    let game = play(&game, p(6, 7), p(5, 7));
    let game = play(&game, p(2, 0), p(0, 0));
    assert!(!game.castling.get(PieceColor::White).can_castle_queenside());
    assert!(game.castling.get(PieceColor::White).can_castle_kingside());
}

#[test]
fn fools_mate_is_checkmate() {
    // 1. f3 e5 2. g4 Qh4#
    let game = Game::new();
    let game = play(&game, p(1, 5), p(2, 5));
    let game = play(&game, p(6, 4), p(4, 4));
    let game = play(&game, p(1, 6), p(3, 6));
    let game = play(&game, p(7, 3), p(3, 7));
    assert!(game.check(), "the white king is attacked");
    assert_eq!(all_moves(&game).len(), 0, "no legal moves remain");
    assert_eq!(game.status(), Some(Outcome::Win(PieceColor::Black)));
}

#[test]
fn fastest_stalemate_is_a_draw() {
    // 1. e3 a5 2. Qh5 Ra6 3. Qxa5 h5 4. Qxc7 Rah6 5. h4 f6
    // 6. Qxd7+ Kf7 7. Qxb7 Qd3 8. Qxb8 Qh7 9. Qxc8 Kg6 10. Qe6
    let game = Game::new();
    let game = play(&game, p(1, 4), p(2, 4));
    let game = play(&game, p(6, 0), p(4, 0));
    let game = play(&game, p(0, 3), p(4, 7));
    let game = play(&game, p(7, 0), p(5, 0));
    let game = play(&game, p(4, 7), p(4, 0));
    let game = play(&game, p(6, 7), p(4, 7));
    let game = play(&game, p(4, 0), p(6, 2));
    let game = play(&game, p(5, 0), p(5, 7));
    let game = play(&game, p(1, 7), p(3, 7));
    let game = play(&game, p(6, 5), p(5, 5));
    let game = play(&game, p(6, 2), p(6, 3));
    assert!(game.check(), "Qxd7 gives check");
    let game = play(&game, p(7, 4), p(6, 5));
    let game = play(&game, p(6, 3), p(6, 1));
    let game = play(&game, p(7, 3), p(2, 3));
    let game = play(&game, p(6, 1), p(7, 1));
    let game = play(&game, p(2, 3), p(6, 7));
    let game = play(&game, p(7, 1), p(7, 2));
    let game = play(&game, p(6, 5), p(5, 6));
    let game = play(&game, p(7, 2), p(5, 4));
    assert!(!game.check(), "the black king is not attacked");
    assert_eq!(all_moves(&game).len(), 0, "Black has no legal moves");
    assert_eq!(game.status(), Some(Outcome::Draw));
}

#[test]
fn promotion_by_capture_on_the_last_rank() {
    // 1. a4 b5 2. axb5 a6 3. bxa6 Bb7 4. axb7 Nf6 5. bxa8=N
    let game = Game::new();
    let game = play(&game, p(1, 0), p(3, 0));
    let game = play(&game, p(6, 1), p(4, 1));
    let game = play(&game, p(3, 0), p(4, 1));
    let game = play(&game, p(6, 0), p(5, 0));
    let game = play(&game, p(4, 1), p(5, 0));
    let game = play(&game, p(7, 2), p(6, 1));
    let game = play(&game, p(5, 0), p(6, 1));
    let game = play(&game, p(7, 6), p(5, 5));
    assert!(game.is_promotion(p(6, 1), p(7, 0)));
    assert!(!game.is_promotion(p(6, 1), p(6, 0)));
    assert!(has_move(&game, p(6, 1), p(7, 0)));
    let game = game.promote(p(6, 1), p(7, 0), PieceType::Knight);
    assert_eq!(
        game.get(p(7, 0)).map(|pc| (pc.color, pc.piece)),
        Some((PieceColor::White, PieceType::Knight))
    );
    assert_eq!(game.get(p(6, 1)), None);
    assert_eq!(game.turn(), PieceColor::Black);
}

#[test]
fn check_detection_and_only_escapes_allowed() {
    // 1. e4 e5 2. Qh5 Nc6 3. Qxf7+ — Black is in check; every reply must
    // address it (here only Kxf7).
    let game = Game::new();
    let game = play(&game, p(1, 4), p(3, 4));
    let game = play(&game, p(6, 4), p(4, 4));
    let game = play(&game, p(0, 3), p(4, 7));
    let game = play(&game, p(7, 1), p(5, 2));
    let game = play(&game, p(4, 7), p(6, 5));
    assert!(game.check());
    assert_eq!(game.status(), None);
    let replies = all_moves(&game);
    assert_eq!(replies, vec![(p(7, 4), p(6, 5))], "only Kxf7 escapes the check");
}
