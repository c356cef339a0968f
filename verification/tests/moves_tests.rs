use std::str::FromStr;

use chust::moves::{Move, MoveType, PromotionType};
use chust::position::Position;

fn sq(text: &str) -> Position {
    Position::from_str(text).unwrap()
}

#[test]
fn test_move_from_str() {
    let move_str = "e2e4";
    let expected_move = Move::new(sq("e2"), sq("e4"), MoveType::Quiet);
    assert_eq!(Move::from_str(move_str).unwrap(), expected_move);

    let move_str = "e7e8q";
    let expected_move = Move::new(
        sq("e7"),
        sq("e8"),
        MoveType::PromotionQuite(PromotionType::Queen),
    );
    assert_eq!(Move::from_str(move_str).unwrap(), expected_move);

    let move_str = "e7e8r";
    let expected_move = Move::new(
        sq("e7"),
        sq("e8"),
        MoveType::PromotionQuite(PromotionType::Rook),
    );
    assert_eq!(Move::from_str(move_str).unwrap(), expected_move);

    let move_str = "e7e8b";
    let expected_move = Move::new(
        sq("e7"),
        sq("e8"),
        MoveType::PromotionQuite(PromotionType::Bishop),
    );
    assert_eq!(Move::from_str(move_str).unwrap(), expected_move);

    let move_str = "e7e8n";
    let expected_move = Move::new(
        sq("e7"),
        sq("e8"),
        MoveType::PromotionQuite(PromotionType::Knight),
    );
    assert_eq!(Move::from_str(move_str).unwrap(), expected_move);

    assert!("e7e8j".parse::<Move>().is_err());
    assert!("asgldf".parse::<Move>().is_err());
}

#[test]
fn test_move_to_string() {
    let mov = Move::new(sq("e2"), sq("e4"), MoveType::Quiet);
    assert_eq!(mov.to_string(), "e2e4");

    let mov = Move::new(
        sq("e7"),
        sq("e8"),
        MoveType::PromotionQuite(PromotionType::Queen),
    );
    assert_eq!(mov.to_string(), "e7e8q");

    let mov = Move::new(
        sq("e7"),
        sq("e8"),
        MoveType::PromotionQuite(PromotionType::Rook),
    );
    assert_eq!(mov.to_string(), "e7e8r");

    let mov = Move::new(
        sq("e7"),
        sq("e8"),
        MoveType::PromotionQuite(PromotionType::Bishop),
    );
    assert_eq!(mov.to_string(), "e7e8b");

    let mov = Move::new(
        sq("e7"),
        sq("e8"),
        MoveType::PromotionQuite(PromotionType::Knight),
    );
    assert_eq!(mov.to_string(), "e7e8n");
}

#[test]
fn test_capture_type() {
    assert_eq!(MoveType::Quiet.capture_type(), None);
    assert_eq!(
        MoveType::Capture(chust::piece_type::PieceType::Rook).capture_type(),
        Some(chust::piece_type::PieceType::Rook)
    );
    assert_eq!(
        MoveType::EnPassantCapture.capture_type(),
        Some(chust::piece_type::PieceType::Pawn)
    );
    assert!(MoveType::EnPassantCapture.is_capture());
    assert!(!MoveType::Castle.is_capture());
}
