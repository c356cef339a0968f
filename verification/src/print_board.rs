use vstd::prelude::*;

use crate::game::Game;
use crate::position::Position;

verus! {

/// A pluggable per-square character mapping: an external renderer draws
/// the board by asking for one character per square. The core itself
/// performs no output.
pub trait BoardPrinter {
    fn get_char(&self, position: Position, game: &Game) -> (r: char)
        requires
            game.wf(),
            position.wf(),
    ;
}

/// The plain mapping: each occupant's letter, a space for an empty square.
pub struct DefaultBoardPrinter;

impl BoardPrinter for DefaultBoardPrinter {
    fn get_char(&self, position: Position, game: &Game) -> (r: char) {
        match game.board().piece_at(&position) {
            Some(piece) => piece.get_print_char(),
            None => ' ',
        }
    }
}

} // verus!
