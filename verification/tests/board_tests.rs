use chust::board::Board;
use chust::color::Color;
use chust::piece::Piece;
use chust::piece_type::PieceType;
use chust::position::Position;

#[test]
fn test_board_place_piece() {
    let mut board = Board::default();
    let pos = Position::new_unchecked(0, 0);
    board.place_piece(Piece::new(PieceType::Pawn, Color::White), &pos);
    assert_eq!(
        board.piece_at(&pos),
        Some(&Piece::new(PieceType::Pawn, Color::White))
    );
}

#[test]
fn test_board_make_move() {
    let mut board = Board::default();
    let from = Position::new_unchecked(4, 1);
    let to = Position::new_unchecked(4, 3);
    board.place_piece(Piece::new(PieceType::Pawn, Color::White), &from);
    board.make_move(&from, &to);
    assert_eq!(board.piece_at(&from), None);
    assert_eq!(
        board.piece_at(&to),
        Some(&Piece::new(PieceType::Pawn, Color::White))
    );
}

#[test]
fn test_board_remove_piece() {
    let mut board = Board::default();
    let pos = Position::new_unchecked(2, 2);
    board.place_piece(Piece::new(PieceType::Queen, Color::Black), &pos);
    let removed = board.remove_piece(&pos);
    assert_eq!(removed, Some(Piece::new(PieceType::Queen, Color::Black)));
    assert_eq!(board.piece_at(&pos), None);
}

#[test]
fn test_board_iter() {
    let mut board = Board::default();
    let pos = Position::new_unchecked(3, 3);
    board.place_piece(Piece::new(PieceType::Bishop, Color::White), &pos);
    let squares = board.iter();
    assert_eq!(squares.len(), 64);
    assert_eq!(squares[pos.board_index()].0, pos);
    assert_eq!(
        squares[pos.board_index()].1,
        Some(Piece::new(PieceType::Bishop, Color::White))
    );
    assert_eq!(squares[0].1, None);
}
