use chust::board::Board;
use chust::color::Color;
use chust::fen::Fen;
use chust::game::{CastleRights, Game};
use chust::piece::Piece;
use chust::piece_type::PieceType;
use chust::position::Position;

// Fail cases.
#[test]
fn test_empty_string() {
    let game = Fen::parse_game("");
    assert!(game.is_err());
}

#[test]
fn test_invalid_position() {
    // Test what happens when we go out of range.
    let fen = "rnbqk3r/8/8/8/8/8/8/8 w KQkq - 0 1";
    let game = Fen::parse_game(fen);
    assert!(game.is_err());
}

#[test]
fn test_invalid_piece() {
    // Test what happens when we have an invalid piece.
    let fen = "abc5/8/8/8/8/8/8/8 w KQkq - 0 1";
    let game = Fen::parse_game(fen);
    assert!(game.is_err());
}

// Success cases for the default board.
#[test]
fn test_default_board() {
    let fen = "rnbqkbnr/pppppppp/8/8/8/8/PPPPPPPP/RNBQKBNR w KQkq - 0 1";
    let game = Fen::parse_game(fen).unwrap();

    let mut expected_board = Board::default();
    let back_rank = [
        PieceType::Rook,
        PieceType::Knight,
        PieceType::Bishop,
        PieceType::Queen,
        PieceType::King,
        PieceType::Bishop,
        PieceType::Knight,
        PieceType::Rook,
    ];
    for (x, kind) in back_rank.iter().enumerate() {
        expected_board.place_piece(
            Piece::new(*kind, Color::White),
            &Position::new(x as u8, 0).unwrap(),
        );
        expected_board.place_piece(
            Piece::new(PieceType::Pawn, Color::White),
            &Position::new(x as u8, 1).unwrap(),
        );
        expected_board.place_piece(
            Piece::new(PieceType::Pawn, Color::Black),
            &Position::new(x as u8, 6).unwrap(),
        );
        expected_board.place_piece(
            Piece::new(*kind, Color::Black),
            &Position::new(x as u8, 7).unwrap(),
        );
    }

    let expected_game = Game::new(
        expected_board,
        Color::White,
        CastleRights::Both,
        CastleRights::Both,
        None,
    );

    assert_eq!(game, expected_game);
}

#[test]
fn test_from_game_formats_start_position() {
    let fen = "rnbqkbnr/pppppppp/8/8/8/8/PPPPPPPP/RNBQKBNR w KQkq - 0 1";
    let game = Fen::parse_game(fen).unwrap();
    assert_eq!(Fen::from_game(&game), fen);
}

#[test]
fn test_parse_defaults_for_missing_fields() {
    let game = Fen::parse_game("8/8/8/8/8/8/8/4K3").unwrap();
    assert_eq!(game.current_turn(), Color::White);
    assert_eq!(game.white_castle_rights(), CastleRights::Neither);
    assert_eq!(game.black_castle_rights(), CastleRights::Neither);
    assert_eq!(game.en_passent_field(), None);
}

#[test]
fn test_parse_drops_incoherent_en_passant_target() {
    // No pawn stands behind e3, so the target cannot come from a double
    // push and is dropped.
    let game = Fen::parse_game("8/8/8/8/8/8/8/4K3 w - e3 0 1").unwrap();
    assert_eq!(game.en_passent_field(), None);

    // Here the double push d7d5 just happened, so the target stays.
    let game = Fen::parse_game("8/8/8/2Pp4/8/8/8/8 w - d6 0 1").unwrap();
    assert_eq!(
        game.en_passent_field(),
        Some(Position::new(3, 5).unwrap())
    );
}

#[test]
fn test_parse_rejects_bad_tokens() {
    assert!(Fen::parse_game("8/8/8/8/8/8/8/4K3 x - - 0 1").is_err());
    assert!(Fen::parse_game("8/8/8/8/8/8/8/4K3 w z - 0 1").is_err());
    assert!(Fen::parse_game("8/8/8/8/8/8/8/4K3 w - z9 0 1").is_err());
    assert!(Fen::parse_game("8/8/8/8/8/8/8/8/8 w - - 0 1").is_err());
}
