use chust::color::Color;

#[test]
fn opposite() {
    let white = Color::White;
    assert!(white.opposite() == Color::Black);
    let black = Color::Black;
    assert!(black.opposite() == Color::White);
}

#[test]
fn ranks() {
    assert_eq!(Color::White.pawn_rank(), 1);
    assert_eq!(Color::Black.pawn_rank(), 6);
    assert_eq!(Color::White.root_rank(), 0);
    assert_eq!(Color::Black.root_rank(), 7);
    assert_eq!(Color::White.board_direction(), 1);
    assert_eq!(Color::Black.board_direction(), -1);
}
