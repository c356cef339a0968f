use chust::bitboards::{Bitboard, GameBitBoards};
use chust::color::Color;
use chust::fen::Fen;
use chust::position::Position;

#[test]
fn test_iter() {
    let bitboard = Bitboard(0b1010101010101010);
    let positions: Vec<Position> = bitboard.iter();
    assert_eq!(positions.len(), 8);
    assert!(positions.contains(&Position::from_board_index_unchecked(1)));
    assert!(positions.contains(&Position::from_board_index_unchecked(3)));
    assert!(positions.contains(&Position::from_board_index_unchecked(5)));
    assert!(positions.contains(&Position::from_board_index_unchecked(7)));
    assert!(positions.contains(&Position::from_board_index_unchecked(9)));
    assert!(positions.contains(&Position::from_board_index_unchecked(11)));
    assert!(positions.contains(&Position::from_board_index_unchecked(13)));
    assert!(positions.contains(&Position::from_board_index_unchecked(15)));
}

#[test]
fn test_contains() {
    let bitboard = Bitboard(0b1010101010101010);
    assert!(bitboard.contains(&Position::from_board_index_unchecked(1)));
    assert!(!bitboard.contains(&Position::from_board_index_unchecked(2)));
    assert!(bitboard.contains(&Position::from_board_index_unchecked(3)));
    assert!(!bitboard.contains(&Position::from_board_index_unchecked(4)));
    assert!(bitboard.contains(&Position::from_board_index_unchecked(5)));
    assert!(!bitboard.contains(&Position::from_board_index_unchecked(6)));
    assert!(bitboard.contains(&Position::from_board_index_unchecked(7)));
    assert!(!bitboard.contains(&Position::from_board_index_unchecked(8)));
}

#[test]
fn test_inner() {
    let bitboard = Bitboard(0b1010101010101010);
    assert_eq!(bitboard.inner(), 0b1010101010101010);
}

#[test]
fn test_from_u64() {
    let bitboard: Bitboard = 0b1010101010101010.into();
    assert_eq!(bitboard.inner(), 0b1010101010101010);
}

#[test]
fn test_from_position() {
    let position = Position::from_board_index_unchecked(3);
    let bitboard: Bitboard = position.into();
    assert_eq!(bitboard.inner(), 0b1000);
}

#[test]
fn test_bitor_u64() {
    let bitboard = Bitboard(0b1010101010101010);
    let result = bitboard | 0b0101010101010101;
    assert_eq!(result, 0b1111111111111111);
}

#[test]
fn test_bitor_bitboard() {
    let bitboard1 = Bitboard(0b1010101010101010);
    let bitboard2 = Bitboard(0b0101010101010101);
    let result = bitboard1 | bitboard2;
    assert_eq!(result.inner(), 0b1111111111111111);
}

#[test]
fn test_bitor_assign_u64() {
    let mut bitboard = Bitboard(0b1010101010101010);
    bitboard = Bitboard(bitboard | 0b0101010101010101);
    assert_eq!(bitboard.inner(), 0b1111111111111111);
}

#[test]
fn test_bitor_assign_bitboard() {
    let mut bitboard1 = Bitboard(0b1010101010101010);
    let bitboard2 = Bitboard(0b0101010101010101);
    bitboard1 = bitboard1 | bitboard2;
    assert_eq!(bitboard1.inner(), 0b1111111111111111);
}

#[test]
fn test_bitand_u64() {
    let bitboard = Bitboard(0b1010101010101010);
    let result = bitboard & 0b0101010101010101;
    assert_eq!(result, 0b0);
}

#[test]
fn test_bitand_bitboard() {
    let bitboard1 = Bitboard(0b1010101010101010);
    let bitboard2 = Bitboard(0b0101010101010101);
    let result = bitboard1 & bitboard2;
    assert_eq!(result.inner(), 0b0);
}

#[test]
fn test_bitand_assign_u64() {
    let mut bitboard = Bitboard(0b1010101010101010);
    bitboard = Bitboard(bitboard & 0b0101010101010101);
    assert_eq!(bitboard.inner(), 0b0);
}

#[test]
fn test_bitand_assign_bitboard() {
    let mut bitboard1 = Bitboard(0b1010101010101010);
    let bitboard2 = Bitboard(0b0101010101010101);
    bitboard1 = bitboard1 & bitboard2;
    assert_eq!(bitboard1.inner(), 0b0);
}

#[test]
fn test_not() {
    let bitboard = Bitboard(0b1010101010101010);
    let result = !bitboard;
    assert_eq!(
        result,
        0b1111111111111111111111111111111111111111111111110101010101010101
    );
}

#[test]
fn test_the_pieces() {
    let game = Fen::parse_game("rnbqkbnr/pppppppp/8/8/8/8/PPPPPPPP/RNBQKBNR w KQkq - 0 1").unwrap();
    let bitboards = GameBitBoards::new(&game);

    assert_eq!(bitboards.pawns(Color::White).inner(), 0b1111111100000000);
    assert_eq!(bitboards.knights(Color::White).inner(), 0b01000010);
    assert_eq!(bitboards.bishops(Color::White).inner(), 0b00100100);
    assert_eq!(bitboards.rooks(Color::White).inner(), 0b10000001);
    assert_eq!(bitboards.queens(Color::White).inner(), 0b00001000);
    assert_eq!(bitboards.king(Color::White), Position::new_unchecked(4, 0));

    assert_eq!(bitboards.pawns(Color::Black).inner(), 0b11111111 << 48);
    assert_eq!(bitboards.knights(Color::Black).inner(), 0b01000010 << 56);
    assert_eq!(bitboards.bishops(Color::Black).inner(), 0b00100100 << 56);
    assert_eq!(bitboards.rooks(Color::Black).inner(), 0b10000001 << 56);
    assert_eq!(bitboards.queens(Color::Black).inner(), 0b00001000 << 56);
    assert_eq!(bitboards.king(Color::Black), Position::new_unchecked(4, 7));
}

#[test]
fn test_material() {
    let game = Fen::parse_game("rnbqkbnr/pppppppp/8/8/8/8/PPPPPPPP/RNBQKBNR w KQkq - 0 1").unwrap();
    let bitboards = GameBitBoards::new(&game);
    assert_eq!(bitboards.material(Color::White), 4000);
    assert_eq!(bitboards.material(Color::Black), 4000);
}
