use std::str::FromStr;

use chust::board::Board;
use chust::color::Color;
use chust::fen::Fen;
use chust::game::{CastleRights, Game};
use chust::move_generation::MoveGenerator;
use chust::piece::Piece;
use chust::moves::{Move, MoveType, PromotionType};
use chust::piece_type::PieceType;
use chust::position::Position;

fn sq(text: &str) -> Position {
    Position::from_str(text).unwrap()
}

fn check_legal_moves(fen: &str, expected_moves: usize, piece_to_check: &Position) {
    let game = Fen::parse_game(fen).unwrap();
    let move_generator = MoveGenerator::new(&game);
    let legal_moves = move_generator.legal_moves(piece_to_check);
    assert_eq!(legal_moves.len(), expected_moves);
}

#[test]
fn test_pawn_pseudo_legal_moves() {
    let game = Game::new(
        Board::default(),
        Color::White,
        CastleRights::Both,
        CastleRights::Both,
        None,
    );
    let move_generator = MoveGenerator::new(&game);

    let white_pawn = Position::new_unchecked(3, 1);
    let black_pawn = Position::new_unchecked(3, 6);
    let white_moves = move_generator.pawn_pseudo_legal_moves(&white_pawn, Color::White);
    let black_moves = move_generator.pawn_pseudo_legal_moves(&black_pawn, Color::Black);
    assert_eq!(white_moves.len(), 2);
    assert_eq!(black_moves.len(), 2);
}

#[test]
fn test_knight_pseudo_legal_moves() {
    let knight_position = Position::new_unchecked(3, 3);
    let mut board = Board::default();
    board.place_piece(
        Piece::new(PieceType::Knight, Color::White),
        &knight_position,
    );

    let game = Game::new(
        board,
        Color::White,
        CastleRights::Both,
        CastleRights::Both,
        None,
    );

    let move_generator = MoveGenerator::new(&game);
    let moves = move_generator.pseudo_legal_moves(&knight_position);
    assert_eq!(moves.len(), 8);
}

#[test]
fn test_bishop_pseudo_legal_moves() {
    let bishop_position = Position::new_unchecked(3, 3);
    let mut board = Board::default();
    board.place_piece(
        Piece::new(PieceType::Bishop, Color::White),
        &bishop_position,
    );

    let game = Game::new(
        board,
        Color::White,
        CastleRights::Both,
        CastleRights::Both,
        None,
    );
    let move_generator = MoveGenerator::new(&game);

    let moves = move_generator.pseudo_legal_moves(&bishop_position);
    assert_eq!(moves.len(), 13);
}

#[test]
fn test_rook_pseudo_legal_moves() {
    let rook_position = Position::new_unchecked(3, 3);

    let mut board = Board::default();
    board.place_piece(Piece::new(PieceType::Rook, Color::White), &rook_position);

    let game = Game::new(
        board,
        Color::White,
        CastleRights::Both,
        CastleRights::Both,
        None,
    );
    let move_generator = MoveGenerator::new(&game);

    let moves = move_generator.pseudo_legal_moves(&rook_position);
    assert_eq!(moves.len(), 14);
}

#[test]
fn test_queen_pseudo_legal_moves() {
    let queen_position = Position::new_unchecked(3, 3);

    let mut board = Board::default();
    board.place_piece(Piece::new(PieceType::Queen, Color::White), &queen_position);

    let game = Game::new(
        board,
        Color::White,
        CastleRights::Both,
        CastleRights::Both,
        None,
    );
    let move_generator = MoveGenerator::new(&game);

    let moves = move_generator.pseudo_legal_moves(&queen_position);
    assert_eq!(moves.len(), 27);
}

#[test]
fn test_king_pseudo_legal_moves() {
    let king_position = Position::new_unchecked(3, 3);

    let mut board = Board::default();
    board.place_piece(Piece::new(PieceType::King, Color::White), &king_position);

    let game = Game::new(
        board,
        Color::White,
        CastleRights::Both,
        CastleRights::Both,
        None,
    );
    let move_generator = MoveGenerator::new(&game);

    let moves = move_generator.pseudo_legal_moves(&king_position);
    assert_eq!(moves.len(), 8);
}

#[test]
fn legal_move_pin() {
    let fen = "8/8/3p4/K1pP3r/4Rp1k/8/4P1P1/8 b - c6 0 1";

    check_legal_moves(fen, 0, &sq("f4"));
}

#[test]
fn legal_move_dont_move_in_check() {
    let fen = "8/8/3p4/K1pP3r/4Rp1k/8/4P1P1/8 b - c6 0 1";

    check_legal_moves(fen, 3, &sq("h4"));
}

#[test]
fn legal_special_en_passant() {
    let fen = "8/8/3p4/K1pP3r/4Rp1k/8/4P1P1/8 b - c6 0 1";
    check_legal_moves(fen, 0, &sq("d5"));
}

#[test]
fn legal_promotions() {
    let fen = "2n5/3P4/8/8/8/8/8/8 w - - 0 1";
    check_legal_moves(fen, 8, &sq("d7"));
}

#[test]
fn legal_move_in_check() {
    let fen = "8/8/3p4/K1pP3r/4R2k/5p2/4P1P1/8 b - - 0 1";

    check_legal_moves(fen, 2, &sq("h4"));
}

#[test]
fn legal_casteling() {
    {
        // Normal and with through check.
        let fen = "5r2/8/8/8/8/8/8/R3K2R w KQ - 0 1";

        check_legal_moves(fen, 4, &sq("e1"));
    }
    {
        // No castle rights.
        let fen = "8/8/8/8/8/8/8/R3K2R w - - 0 1";

        check_legal_moves(fen, 5, &sq("e1"));
    }
}

#[test]
fn blockable_checks() {
    {
        // Rook.
        let fen = "2n1r3/3P4/8/8/8/3N4/8/4K3 b - - 0 1";

        check_legal_moves(fen, 1, &sq("d3"));
    }
    {
        // Bishop.
        let fen = "2n5/3P4/8/8/7b/3N4/8/4K3 b - - 0 1";
        check_legal_moves(fen, 1, &sq("d3"));
    }
    {
        // Both.
        let fen = "2n1r3/3P4/8/8/7b/3N4/8/4K3 b - - 0 1";
        check_legal_moves(fen, 0, &sq("d3"));
    }
}

#[test]
fn check_evasions_land_on_block_mask() {
    // White is in check from the rook on e8 alone; every legal non-king
    // move must land on the e-file between rook and king.
    let game = Fen::parse_game("4r3/8/8/8/8/3N4/8/4K3 w - - 0 1").unwrap();
    assert!(game.is_in_check());
    let moves = MoveGenerator::new(&game).all_legal_moves(Color::White);
    assert!(!moves.is_empty());
    for mov in moves {
        let mover = game.board().piece_at(&mov.from).unwrap();
        if mover.piece_type() != PieceType::King {
            assert_eq!(mov.to.file(), 4);
        }
    }
}

#[test]
fn matching_move_resolves_promotion() {
    let game = Fen::parse_game("2n5/3P4/8/8/8/8/8/8 w - - 0 1").unwrap();
    let legal = MoveGenerator::new(&game).all_legal_moves(Color::White);
    let wanted = Move::new(
        sq("d7"),
        sq("d8"),
        MoveType::PromotionQuite(PromotionType::Rook),
    );
    let matched = chust::players::find_matching_move(&legal, &wanted).unwrap();
    assert_eq!(matched.from, sq("d7"));
    assert_eq!(matched.to, sq("d8"));
    assert_eq!(
        matched.move_type,
        MoveType::PromotionQuite(PromotionType::Rook)
    );
    let impossible = Move::new(sq("d7"), sq("c7"), MoveType::Quiet);
    assert!(chust::players::find_matching_move(&legal, &impossible).is_none());
}
