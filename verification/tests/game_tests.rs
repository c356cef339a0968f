use std::str::FromStr;

use chust::color::Color;
use chust::fen::Fen;
use chust::game::{CastleRights, Game};
use chust::moves::{Move, MoveType, PromotionType};
use chust::piece::Piece;
use chust::piece_type::PieceType;
use chust::position::Position;

fn sq(text: &str) -> Position {
    Position::from_str(text).unwrap()
}

#[test]
fn make_moves() {
    let mut game = Game::default();
    assert_eq!(game.current_turn(), Color::White);

    // Make two moves: d2d4, d7d6.
    game.make_move(Move::new(
        Position::new_unchecked(3, 1),
        Position::new_unchecked(3, 3),
        MoveType::DoublePawnPush(Position::new_unchecked(3, 2)),
    ))
    .unwrap();
    assert_eq!(game.current_turn(), Color::Black);
    assert_eq!(
        game.board().piece_at(&Position::new_unchecked(3, 3)),
        Some(&Piece::new(PieceType::Pawn, Color::White))
    );
    assert_eq!(game.board().piece_at(&Position::new_unchecked(3, 2)), None);
    game.make_move(Move::new(
        Position::new_unchecked(3, 6),
        Position::new_unchecked(3, 5),
        MoveType::Quiet,
    ))
    .unwrap();
    assert_eq!(game.current_turn(), Color::White);
    assert_eq!(
        game.board().piece_at(&Position::new_unchecked(3, 5)),
        Some(&Piece::new(PieceType::Pawn, Color::Black))
    );
    assert_eq!(game.board().piece_at(&Position::new_unchecked(3, 6)), None);

    // Unmake move.
    game.unmake_move();
    assert_eq!(game.current_turn(), Color::Black);
    assert_eq!(game.board().piece_at(&Position::new_unchecked(3, 5)), None);
    assert_eq!(
        game.board().piece_at(&Position::new_unchecked(3, 6)),
        Some(&Piece::new(PieceType::Pawn, Color::Black))
    );

    // Unmake second move.
    game.unmake_move();
    assert_eq!(game.current_turn(), Color::White);
    assert_eq!(game.board().piece_at(&Position::new_unchecked(3, 3)), None);
    assert_eq!(
        game.board().piece_at(&Position::new_unchecked(3, 1)),
        Some(&Piece::new(PieceType::Pawn, Color::White))
    );
}

#[test]
fn make_castles() {
    let mut game = Fen::parse_game("8/8/8/8/8/8/8/R3K2R w - - 0 1").unwrap();

    // Castle king side for white.
    game.make_move(Move::new(sq("e1"), sq("g1"), MoveType::Castle))
        .unwrap();

    assert_eq!(
        game.board().piece_at(&sq("g1")),
        Some(&Piece::new(PieceType::King, Color::White))
    );
    assert_eq!(
        game.board().piece_at(&sq("f1")),
        Some(&Piece::new(PieceType::Rook, Color::White))
    );

    // Unmake king side castle.
    game.unmake_move();
    assert_eq!(
        game.board().piece_at(&sq("e1")),
        Some(&Piece::new(PieceType::King, Color::White))
    );
    assert_eq!(
        game.board().piece_at(&sq("h1")),
        Some(&Piece::new(PieceType::Rook, Color::White))
    );

    // Make queen side castle.
    game.make_move(Move::new(sq("e1"), sq("c1"), MoveType::Castle))
        .unwrap();
    assert_eq!(
        game.board().piece_at(&sq("c1")),
        Some(&Piece::new(PieceType::King, Color::White))
    );
    assert_eq!(
        game.board().piece_at(&sq("d1")),
        Some(&Piece::new(PieceType::Rook, Color::White))
    );

    // Unmake queen side castle.
    game.unmake_move();
    assert_eq!(
        game.board().piece_at(&sq("e1")),
        Some(&Piece::new(PieceType::King, Color::White))
    );
    assert_eq!(
        game.board().piece_at(&sq("a1")),
        Some(&Piece::new(PieceType::Rook, Color::White))
    );
}

#[test]
fn make_capture() {
    let mut game = Fen::parse_game("8/8/8/4p3/5P2/8/8/8 w - - 0 1").unwrap();

    // Make capture.
    game.make_move(Move::new(
        sq("f4"),
        sq("e5"),
        MoveType::Capture(PieceType::Pawn),
    ))
    .unwrap();

    assert_eq!(
        game.board().piece_at(&sq("e5")),
        Some(&Piece::new(PieceType::Pawn, Color::White))
    );
    assert_eq!(game.board().piece_at(&sq("f4")), None);

    // Unmake move.
    game.unmake_move();
    assert_eq!(
        game.board().piece_at(&sq("e5")),
        Some(&Piece::new(PieceType::Pawn, Color::Black))
    );
    assert_eq!(
        game.board().piece_at(&sq("f4")),
        Some(&Piece::new(PieceType::Pawn, Color::White))
    );
}

#[test]
fn make_promotion() {
    let mut game = Fen::parse_game("5n2/4P3/8/8/8/8/8/8 w - - 0 1").unwrap();

    // Quiet promotion.
    game.make_move(Move::new(
        sq("e7"),
        sq("e8"),
        MoveType::PromotionQuite(PromotionType::Queen),
    ))
    .unwrap();
    assert_eq!(
        game.board().piece_at(&sq("e8")),
        Some(&Piece::new(PieceType::Queen, Color::White))
    );
    assert_eq!(game.board().piece_at(&sq("e7")), None);

    // Unmake quiet promotion.
    game.unmake_move();
    assert_eq!(game.board().piece_at(&sq("e8")), None);
    assert_eq!(
        game.board().piece_at(&sq("e7")),
        Some(&Piece::new(PieceType::Pawn, Color::White))
    );

    // Make capture promotion.
    game.make_move(Move::new(
        sq("e7"),
        sq("f8"),
        MoveType::PromotionCapture(PromotionType::Queen, PieceType::Knight),
    ))
    .unwrap();
    assert_eq!(
        game.board().piece_at(&sq("f8")),
        Some(&Piece::new(PieceType::Queen, Color::White))
    );
    assert_eq!(game.board().piece_at(&sq("e7")), None);

    // Unmake capture promotion.
    game.unmake_move();
    assert_eq!(
        game.board().piece_at(&sq("f8")),
        Some(&Piece::new(PieceType::Knight, Color::Black))
    );
    assert_eq!(
        game.board().piece_at(&sq("e7")),
        Some(&Piece::new(PieceType::Pawn, Color::White))
    );
}

#[test]
fn en_passent_capture() {
    let mut game = Fen::parse_game("8/8/8/2Pp4/8/8/8/8 w - d6 0 1").unwrap();
    game.make_move(Move::new(sq("c5"), sq("d6"), MoveType::EnPassantCapture))
        .unwrap();
    assert_eq!(
        game.board().piece_at(&sq("d6")),
        Some(&Piece::new(PieceType::Pawn, Color::White))
    );
    assert_eq!(game.board().piece_at(&sq("d5")), None);
    assert_eq!(game.board().piece_at(&sq("c5")), None);

    game.unmake_move();
    assert_eq!(game.board().piece_at(&sq("d6")), None);
    assert_eq!(
        game.board().piece_at(&sq("d5")),
        Some(&Piece::new(PieceType::Pawn, Color::Black))
    );
    assert_eq!(
        game.board().piece_at(&sq("c5")),
        Some(&Piece::new(PieceType::Pawn, Color::White))
    );
}

#[test]
fn castle_rights() {
    let rights = CastleRights::Both;
    assert_eq!(rights.to_string(Color::White), "KQ");
    assert_eq!(rights.to_string(Color::Black), "kq");

    let rights = CastleRights::KingSide;
    assert_eq!(rights.to_string(Color::White), "K");
    assert_eq!(rights.to_string(Color::Black), "k");

    let rights = CastleRights::QueenSide;
    assert_eq!(rights.to_string(Color::White), "Q");
    assert_eq!(rights.to_string(Color::Black), "q");

    let rights = CastleRights::Neither;
    assert_eq!(rights.to_string(Color::White), "-");
    assert_eq!(rights.to_string(Color::Black), "-");

    let mut rights = CastleRights::Both;
    rights.remove_king_side();
    assert_eq!(rights, CastleRights::QueenSide);
    rights.remove_queen_side();
    assert_eq!(rights, CastleRights::Neither);

    let mut rights = CastleRights::Both;
    rights.remove_queen_side();
    assert_eq!(rights, CastleRights::KingSide);
    rights.remove_king_side();
    assert_eq!(rights, CastleRights::Neither);

    let mut rights = CastleRights::Both;
    rights.remove_both();
    assert_eq!(rights, CastleRights::Neither);
}

#[test]
fn castle_rights_change_in_game() {
    {
        // White.
        let mut game =
            Fen::parse_game("r3k2r/pppppppp/8/8/8/8/PPPPPPPP/R3K2R w KQkq - 0 1").unwrap();
        game.make_move(Move::new(sq("h1"), sq("g1"), MoveType::Quiet))
            .unwrap();

        assert_eq!(game.white_castle_rights(), CastleRights::QueenSide);
        assert_eq!(game.black_castle_rights(), CastleRights::Both);
        game.unmake_move();
        assert_eq!(game.white_castle_rights(), CastleRights::Both);

        game.make_move(Move::new(sq("a1"), sq("b1"), MoveType::Quiet))
            .unwrap();
        assert_eq!(game.white_castle_rights(), CastleRights::KingSide);
        assert_eq!(game.black_castle_rights(), CastleRights::Both);

        game.unmake_move();
        assert_eq!(game.white_castle_rights(), CastleRights::Both);

        game.make_move(Move::new(sq("e1"), sq("d1"), MoveType::Quiet))
            .unwrap();
        assert_eq!(game.white_castle_rights(), CastleRights::Neither);
    }
    {
        // Black.
        let mut game =
            Fen::parse_game("r3k2r/pppppppp/8/8/8/8/PPPPPPPP/R3K2R b KQkq - 0 1").unwrap();
        game.make_move(Move::new(sq("h8"), sq("g8"), MoveType::Quiet))
            .unwrap();

        assert_eq!(game.black_castle_rights(), CastleRights::QueenSide);
        assert_eq!(game.white_castle_rights(), CastleRights::Both);
        game.unmake_move();
        assert_eq!(game.black_castle_rights(), CastleRights::Both);

        game.make_move(Move::new(sq("a8"), sq("b8"), MoveType::Quiet))
            .unwrap();
        assert_eq!(game.black_castle_rights(), CastleRights::KingSide);
        assert_eq!(game.white_castle_rights(), CastleRights::Both);

        game.unmake_move();
        assert_eq!(game.black_castle_rights(), CastleRights::Both);

        game.make_move(Move::new(sq("e8"), sq("d8"), MoveType::Quiet))
            .unwrap();
        assert_eq!(game.black_castle_rights(), CastleRights::Neither);
    }
}

#[test]
fn invalid_moves_leave_game_unchanged() {
    let mut game = Game::default();
    let before = game.clone();
    // No piece on a3.
    assert!(game
        .make_move(Move::new(sq("a3"), sq("a4"), MoveType::Quiet))
        .is_err());
    // Black piece while white is to move.
    assert!(game
        .make_move(Move::new(sq("e7"), sq("e6"), MoveType::Quiet))
        .is_err());
    assert_eq!(game, before);
}

#[test]
fn is_in_check_detects_rook_check() {
    let game = Fen::parse_game("4r3/8/8/8/8/8/8/4K3 w - - 0 1").unwrap();
    assert!(game.is_in_check());
    let game = Fen::parse_game("4r3/8/8/8/8/8/8/3K4 w - - 0 1").unwrap();
    assert!(!game.is_in_check());
}

#[test]
fn last_move_and_move_stack() {
    let mut game = Game::default();
    assert_eq!(game.last_move(), None);
    assert_eq!(game.move_stack().len(), 0);
    let mov = Move::new(
        sq("e2"),
        sq("e4"),
        MoveType::DoublePawnPush(sq("e3")),
    );
    game.make_move(mov).unwrap();
    assert_eq!(game.last_move(), Some(mov));
    assert_eq!(game.move_stack(), vec![mov]);
    assert_eq!(game.en_passent_field(), Some(sq("e3")));
}
