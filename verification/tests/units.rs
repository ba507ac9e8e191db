use chess::game::{
    promotions, Board, CastlingInfo, Game, Piece, PieceColor, PieceType, Position,
};

#[test]
fn promotion_choices_in_search_order() {
    assert_eq!(
        promotions(),
        vec![PieceType::Queen, PieceType::Rook, PieceType::Bishop, PieceType::Knight]
    );
}

#[test]
fn position_accessors_and_validity() {
    let a1 = Position::new(0, 0);
    assert_eq!(a1.rank(), 0);
    assert_eq!(a1.file(), 0);
    assert!(a1.is_valid());
    let h8 = Position::new(7, 7);
    assert_eq!((h8.rank(), h8.file()), (7, 7));
}

#[test]
fn position_steps_stop_at_the_edge() {
    let a1 = Position::new(0, 0);
    assert_eq!(a1.down(), None);
    assert_eq!(a1.left(), None);
    assert_eq!(a1.up(), Some(Position::new(1, 0)));
    assert_eq!(a1.right(), Some(Position::new(0, 1)));
    let h8 = Position::new(7, 7);
    assert_eq!(h8.up(), None);
    assert_eq!(h8.right(), None);
    assert_eq!(h8.down(), Some(Position::new(6, 7)));
    assert_eq!(h8.left(), Some(Position::new(7, 6)));
}

#[test]
fn pawn_direction_depends_on_color() {
    let e4 = Position::new(3, 4);
    assert_eq!(e4.pawn(PieceColor::White), Some(Position::new(4, 4)));
    assert_eq!(e4.pawn(PieceColor::Black), Some(Position::new(2, 4)));
    assert_eq!(Position::new(7, 0).pawn(PieceColor::White), None);
    assert_eq!(Position::new(0, 0).pawn(PieceColor::Black), None);
}

#[test]
fn color_opposite_and_starting_ranks() {
    assert_eq!(PieceColor::White.opposite(), PieceColor::Black);
    assert_eq!(PieceColor::Black.opposite(), PieceColor::White);
    assert_eq!(PieceColor::White.pawn_starting_rank(), 1);
    assert_eq!(PieceColor::Black.pawn_starting_rank(), 6);
    assert_eq!(PieceColor::White.piece_starting_rank(), 0);
    assert_eq!(PieceColor::Black.piece_starting_rank(), 7);
}

#[test]
fn castling_info_state_machine() {
    let mut info = CastlingInfo::new();
    assert!(info.can_castle_queenside());
    assert!(info.can_castle_kingside());
    info.move_queenside_rook();
    assert!(!info.can_castle_queenside());
    assert!(info.can_castle_kingside());
    info.move_kingside_rook();
    assert!(!info.can_castle_kingside());
    let mut other = CastlingInfo::new();
    other.move_king();
    assert!(!other.can_castle_queenside());
    assert!(!other.can_castle_kingside());
    // Terminal: rook updates change nothing afterward.
    other.move_queenside_rook();
    assert!(!other.can_castle_queenside());
}

#[test]
fn initial_board_arrangement() {
    let board = Board::new();
    let back = [
        PieceType::Rook,
        PieceType::Knight,
        PieceType::Bishop,
        PieceType::Queen,
        PieceType::King,
        PieceType::Bishop,
        PieceType::Knight,
        PieceType::Rook,
    ];
    for (file, kind) in back.iter().enumerate() {
        let file = file as u8;
        assert_eq!(
            board.get(Position::new(0, file)),
            Some(Piece { color: PieceColor::White, piece: *kind })
        );
        assert_eq!(
            board.get(Position::new(7, file)),
            Some(Piece { color: PieceColor::Black, piece: *kind })
        );
        assert_eq!(
            board.get(Position::new(1, file)),
            Some(Piece { color: PieceColor::White, piece: PieceType::Pawn })
        );
        assert_eq!(
            board.get(Position::new(6, file)),
            Some(Piece { color: PieceColor::Black, piece: PieceType::Pawn })
        );
        for rank in 2..6 {
            assert!(board.is_vacant(Position::new(rank, file)));
        }
    }
}

#[test]
fn board_iter_lists_each_side_in_board_order() {
    let board = Board::new();
    let white = board.iter(PieceColor::White);
    let black = board.iter(PieceColor::Black);
    assert_eq!(white.len(), 16);
    assert_eq!(black.len(), 16);
    assert_eq!(white[0].0, Position::new(0, 0));
    assert_eq!(white[15].0, Position::new(1, 7));
    assert!(white.iter().all(|(_, pc)| pc.color == PieceColor::White));
    assert!(black.iter().all(|(_, pc)| pc.color == PieceColor::Black));
}

#[test]
fn position_of_finds_the_first_match() {
    let board = Board::new();
    let king = Piece { color: PieceColor::White, piece: PieceType::King };
    assert_eq!(board.position_of(king), Some(Position::new(0, 4)));
    let rook = Piece { color: PieceColor::White, piece: PieceType::Rook };
    assert_eq!(board.position_of(rook), Some(Position::new(0, 0)));
    let moved = board.make_move(Position::new(0, 4), Position::new(4, 4));
    assert_eq!(moved.get(Position::new(0, 4)), None);
    assert_eq!(
        moved.position_of(Piece { color: PieceColor::White, piece: PieceType::King }),
        Some(Position::new(4, 4))
    );
}

#[test]
fn board_move_relocates_and_captures() {
    let board = Board::new();
    let moved = board.make_move(Position::new(1, 4), Position::new(3, 4));
    assert_eq!(moved.get(Position::new(1, 4)), None);
    assert_eq!(
        moved.get(Position::new(3, 4)),
        Some(Piece { color: PieceColor::White, piece: PieceType::Pawn })
    );
    // The source board is untouched.
    assert_eq!(
        board.get(Position::new(1, 4)),
        Some(Piece { color: PieceColor::White, piece: PieceType::Pawn })
    );
}

#[test]
fn board_promote_replaces_the_pawn() {
    let board = Board::new();
    let promoted = board.promote(Position::new(1, 0), Position::new(4, 0), PieceType::Queen);
    assert_eq!(promoted.get(Position::new(1, 0)), None);
    assert_eq!(
        promoted.get(Position::new(4, 0)),
        Some(Piece { color: PieceColor::White, piece: PieceType::Queen })
    );
}

#[test]
fn attack_queries_on_the_initial_position() {
    let game = Game::new();
    // a pawn attacks its two forward diagonals
    assert!(game.attacks(PieceColor::White, Position::new(2, 1)));
    assert!(game.attacks(PieceColor::White, Position::new(2, 4)));
    assert!(game.attacks(PieceColor::Black, Position::new(5, 4)));
    // a knight jumps over the pawn wall
    assert!(game.attacks(PieceColor::White, Position::new(2, 0)));
    // sliding attacks stop at the first occupied square
    assert!(!game.attacks(PieceColor::White, Position::new(3, 0)));
    assert!(!game.attacks(PieceColor::White, Position::new(4, 4)));
    // nobody reaches the opposing half yet
    assert!(!game.attacks(PieceColor::White, Position::new(5, 4)));
    assert!(!game.attacks(PieceColor::Black, Position::new(2, 4)));
}

#[test]
fn game_get_and_empty_squares() {
    let game = Game::new();
    assert_eq!(game.get(Position::new(4, 4)), None);
    assert_eq!(
        game.get(Position::new(0, 3)),
        Some(Piece { color: PieceColor::White, piece: PieceType::Queen })
    );
    assert_eq!(game.iter(PieceColor::White).len(), 16);
}
