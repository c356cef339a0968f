use vstd::prelude::*;

verus! {

/// The kind of a piece, independent of its side.
#[derive(Clone, Copy, PartialEq, Eq, Structural, Debug)]
pub enum PieceType {
    Pawn,
    Knight,
    Bishop,
    Rook,
    Queen,
    King,
}

impl PieceType {
    /// The material value of this piece kind, in centipawns.
    pub fn value(&self) -> (r: i32)
        ensures
            r == self.spec_value(),
    {
        match self {
            PieceType::Pawn => 100,
            PieceType::Knight => 330,
            PieceType::Bishop => 320,
            PieceType::Rook => 500,
            PieceType::Queen => 900,
            PieceType::King => 1000,
        }
    }

    pub open spec fn spec_value(self) -> int {
        match self {
            PieceType::Pawn => 100,
            PieceType::Knight => 330,
            PieceType::Bishop => 320,
            PieceType::Rook => 500,
            PieceType::Queen => 900,
            PieceType::King => 1000,
        }
    }
}

} // verus!
