use vstd::prelude::*;

verus! {

/// A textual record (position, square, or move text) could not be parsed.
#[derive(Debug, Clone, Copy, PartialEq, Eq, Structural)]
pub struct MalformedRecord;

impl MalformedRecord {
    pub fn new() -> (r: Self)
        ensures
            r == MalformedRecord,
    {
        MalformedRecord
    }
}

/// A move was applied with no piece at its origin, or with a piece
/// of the side that is not to move. The game is left unmodified.
#[derive(Debug, Clone, Copy, PartialEq, Eq, Structural)]
pub struct InvalidMove;

impl InvalidMove {
    pub fn new() -> (r: Self)
        ensures
            r == InvalidMove,
    {
        InvalidMove
    }
}

} // verus!
