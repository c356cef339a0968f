use vstd::prelude::*;

verus! {

/// The two sides of a chess game.
#[derive(Debug, Clone, Copy, PartialEq, Eq, Structural)]
pub enum Color {
    White,
    Black,
}

impl Color {
    /// The other side.
    pub fn opposite(&self) -> (r: Self)
        ensures
            r == self.spec_opposite(),
    {
        match self {
            Self::White => Self::Black,
            Self::Black => Self::White,
        }
    }

    pub open spec fn spec_opposite(self) -> Self {
        match self {
            Self::White => Self::Black,
            Self::Black => Self::White,
        }
    }

    /// The rank on which this side's pawns start.
    pub fn pawn_rank(&self) -> (r: u8)
        ensures
            r == self.spec_pawn_rank(),
    {
        match self {
            Self::White => 1,
            Self::Black => 6,
        }
    }

    pub open spec fn spec_pawn_rank(self) -> u8 {
        match self {
            Self::White => 1u8,
            Self::Black => 6u8,
        }
    }

    /// The rank on which this side's king and rooks start.
    pub fn root_rank(&self) -> (r: u8)
        ensures
            r == self.spec_root_rank(),
    {
        match self {
            Self::White => 0,
            Self::Black => 7,
        }
    }

    pub open spec fn spec_root_rank(self) -> u8 {
        match self {
            Self::White => 0u8,
            Self::Black => 7u8,
        }
    }

    /// The direction this side's pawns advance along the ranks.
    pub fn board_direction(&self) -> (r: i8)
        ensures
            r == self.spec_board_direction(),
    {
        match self {
            Self::White => 1,
            Self::Black => -1,
        }
    }

    pub open spec fn spec_board_direction(self) -> i8 {
        match self {
            Self::White => 1i8,
            Self::Black => -1i8,
        }
    }
}

} // verus!
