use vstd::prelude::*;

use crate::game::Game;
use crate::move_generation::MoveGenerator;
use crate::moves::Move;
use crate::players::PlayerInterface;

verus! {

/// A player that picks one of the legal moves at random.
pub struct BotRandom;

impl PlayerInterface for BotRandom {
    fn make_move(&self, game: &Game) -> (r: Option<Move>) {
        let moves = MoveGenerator::new(game).all_legal_moves(game.current_turn());
        if moves.len() == 0 {
            None
        } else {
            let i = random_below(moves.len());
            Some(moves[i])
        }
    }
}

/// Relies on rand's `Rng::gen_range` over `0..n`: it samples a value of
/// the non-empty range, so the result is below `n`.
#[verifier::external_body]
fn random_below(n: usize) -> (r: usize)
    requires
        n > 0,
    ensures
        r < n,
{
    rand::Rng::gen_range(&mut rand::thread_rng(), 0..n)
}

} // verus!
