use vstd::prelude::*;

use crate::game::Game;
use crate::moves::{Move, MoveType};

pub mod bot_random;

verus! {

/// A decision-making collaborator: given a read-only game, it may
/// return a chosen move. How the choice is made — search, chance or
/// interactive input — is no concern of the core.
pub trait PlayerInterface {
    fn make_move(&self, game: &Game) -> (r: Option<Move>)
        requires
            game.wf(),
    ;
}

/// Whether the generated move `m` realises the intent `wanted`, which
/// carries only origin, destination and, for promotions, the promotion
/// piece: other move subtypes are inferred, not encoded, in move text.
pub open spec fn realises_intent(m: Move, wanted: Move) -> bool {
    &&& m.from == wanted.from
    &&& m.to == wanted.to
    &&& match (wanted.move_type, m.move_type) {
        (MoveType::PromotionQuite(a), MoveType::PromotionQuite(b)) => a == b,
        (MoveType::PromotionQuite(a), MoveType::PromotionCapture(b, _)) => a == b,
        _ => true,
    }
}

/// The first move of `legal_moves` that realises the intent `wanted`:
/// how textual move input is matched against the generator's legal-move
/// list.
pub fn find_matching_move(legal_moves: &Vec<Move>, wanted: &Move) -> (r: Option<Move>)
    ensures
        r matches Some(m) ==> exists|j: int|
            0 <= j < legal_moves@.len() && legal_moves@[j] == m && realises_intent(m, *wanted),
        r is None ==> forall|j: int|
            0 <= j < legal_moves@.len() ==> !realises_intent(#[trigger] legal_moves@[j], *wanted),
{
    let mut i: usize = 0;
    while i < legal_moves.len()
        invariant
            i <= legal_moves@.len(),
            forall|j: int| 0 <= j < i ==> !realises_intent(#[trigger] legal_moves@[j], *wanted),
        decreases legal_moves@.len() - i,
    {
        let m = legal_moves[i];
        let promotion_ok = match (&wanted.move_type, &m.move_type) {
            (MoveType::PromotionQuite(a), MoveType::PromotionQuite(b)) => a == b,
            (MoveType::PromotionQuite(a), MoveType::PromotionCapture(b, _)) => a == b,
            _ => true,
        };
        if promotion_ok && m.to == wanted.to && m.from == wanted.from {
            return Some(m);
        }
        i += 1;
    }
    None
}

} // verus!
