use vstd::prelude::*;

use crate::color::Color;
use crate::piece_type::PieceType;

verus! {

/// A piece on the board: a kind together with the side that owns it.
#[derive(Clone, Copy, PartialEq, Eq, Structural, Debug)]
pub struct Piece {
    pub kind: PieceType,
    pub color: Color,
}

impl Piece {
    pub open spec fn spec_new(kind: PieceType, color: Color) -> Piece {
        Piece { kind, color }
    }

    pub open spec fn spec_color(self) -> Color {
        self.color
    }

    pub open spec fn spec_kind(self) -> PieceType {
        self.kind
    }

    pub fn new(kind: PieceType, color: Color) -> (r: Self)
        ensures
            r == Piece::spec_new(kind, color),
    {
        Self { kind, color }
    }

    pub fn color(&self) -> (r: Color)
        ensures
            r == self.spec_color(),
    {
        self.color
    }

    pub fn piece_type(&self) -> (r: PieceType)
        ensures
            r == self.spec_kind(),
    {
        self.kind
    }

    /// The letter this piece prints as: upper case for white, lower case for black.
    pub fn get_print_char(&self) -> (r: char)
        ensures
            r == self.spec_print_char(),
    {
        match (self.kind, self.color) {
            (PieceType::Pawn, Color::White) => 'P',
            (PieceType::Pawn, Color::Black) => 'p',
            (PieceType::Knight, Color::White) => 'N',
            (PieceType::Knight, Color::Black) => 'n',
            (PieceType::Bishop, Color::White) => 'B',
            (PieceType::Bishop, Color::Black) => 'b',
            (PieceType::Rook, Color::White) => 'R',
            (PieceType::Rook, Color::Black) => 'r',
            (PieceType::Queen, Color::White) => 'Q',
            (PieceType::Queen, Color::Black) => 'q',
            (PieceType::King, Color::White) => 'K',
            (PieceType::King, Color::Black) => 'k',
        }
    }

    pub open spec fn spec_print_char(self) -> char {
        match (self.kind, self.color) {
            (PieceType::Pawn, Color::White) => 'P',
            (PieceType::Pawn, Color::Black) => 'p',
            (PieceType::Knight, Color::White) => 'N',
            (PieceType::Knight, Color::Black) => 'n',
            (PieceType::Bishop, Color::White) => 'B',
            (PieceType::Bishop, Color::Black) => 'b',
            (PieceType::Rook, Color::White) => 'R',
            (PieceType::Rook, Color::Black) => 'r',
            (PieceType::Queen, Color::White) => 'Q',
            (PieceType::Queen, Color::Black) => 'q',
            (PieceType::King, Color::White) => 'K',
            (PieceType::King, Color::Black) => 'k',
        }
    }
}

} // verus!
