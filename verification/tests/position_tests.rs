use std::str::FromStr;

use chust::position::Position;

#[test]
fn test_position_new() {
    let pos = Position::new(0, 0);
    assert!(pos.is_some());
    let pos = pos.unwrap();
    assert_eq!(pos.rank(), 0);
    assert_eq!(pos.file(), 0);
    let pos = Position::new(8, 8);
    assert!(pos.is_none());
}

#[test]
fn test_position_board_index() {
    let pos = Position::new_unchecked(0, 0);
    assert_eq!(pos.board_index(), 0);
    let pos = Position::new_unchecked(7, 7);
    assert_eq!(pos.board_index(), 63);
}

#[test]
fn test_position_display() {
    let pos = Position::new_unchecked(0, 0);
    assert_eq!(pos.to_string(), "a1");
    let pos = Position::new_unchecked(7, 7);
    assert_eq!(pos.to_string(), "h8");
}

#[test]
fn test_position_from_str() {
    let pos = Position::from_str("a1");
    assert!(pos.is_ok());
    let pos = pos.unwrap();
    assert_eq!(pos.rank(), 0);
    assert_eq!(pos.file(), 0);
    let pos = Position::from_str("h8");
    assert!(pos.is_ok());
    let pos = pos.unwrap();
    assert_eq!(pos.rank(), 7);
    assert_eq!(pos.file(), 7);
    let pos = Position::from_str("i9");
    assert!(pos.is_err());
}

#[test]
fn test_position_offset() {
    let pos = Position::new_unchecked(4, 1);
    let up = pos.offset(0, 1).unwrap();
    assert_eq!(up.file(), 4);
    assert_eq!(up.rank(), 2);
    assert!(pos.offset(-5, 0).is_none());
    assert!(pos.offset(0, -2).is_none());
}

#[test]
fn test_position_from_board_index() {
    let pos = Position::from_board_index(63).unwrap();
    assert_eq!(pos.file(), 7);
    assert_eq!(pos.rank(), 7);
    assert!(Position::from_board_index(64).is_none());
}
