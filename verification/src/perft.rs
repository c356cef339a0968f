use vstd::prelude::*;

use crate::game::{lemma_unmake_restores_make, move_compatible_for, Game, GameModel};
use crate::move_generation::{origin_held, MoveGenerator};
use crate::moves::Move;

verus! {

/// The summed per-root-move counts of a run.
pub open spec fn nodes_total(s: Seq<(String, u64)>) -> int
    decreases s.len(),
{
    if s.len() == 0 {
        0
    } else {
        nodes_total(s.drop_last()) + s.last().1
    }
}

/// The outcome of a node-counting run: the node count below each root
/// move, by the move's coordinate text, and the total.
pub struct PerfTestResults {
    nodes: Vec<(String, u64)>,
    node_count: u64,
}

impl PerfTestResults {
    pub closed spec fn spec_node_count(self) -> u64 {
        self.node_count
    }

    pub closed spec fn spec_nodes(self) -> Seq<(String, u64)> {
        self.nodes@
    }

    /// The total number of leaf nodes counted.
    pub fn node_count(&self) -> (r: u64)
        ensures
            r == self.spec_node_count(),
    {
        self.node_count
    }

    /// The per-root-move counts, in generation order.
    pub fn nodes(&self) -> (r: &Vec<(String, u64)>)
        ensures
            r@ == self.spec_nodes(),
    {
        &self.nodes
    }
}

/// A brute-force counter of the legal game tree under a fixed depth,
/// driving the generator through make and unmake at every node.
pub struct PerfTest {
    game: Game,
    depth: usize,
}

impl PerfTest {
    pub closed spec fn wf(self) -> bool {
        self.game.wf()
    }

    pub closed spec fn game_model(self) -> GameModel {
        self.game@
    }

    pub closed spec fn spec_depth(self) -> usize {
        self.depth
    }

    pub fn new(game: Game, depth: usize) -> (r: Self)
        requires
            game.wf(),
        ensures
            r.wf(),
            r.game_model() == game@,
            r.spec_depth() == depth,
    {
        Self { game, depth }
    }

    /// Counts the legal move sequences of the configured depth, and how
    /// many fall under each root move: one entry per generated root move,
    /// whose counts sum to the total. The game comes back exactly as it
    /// went in; a count beyond the 64-bit range saturates.
    pub fn run_perft(&mut self) -> (result: PerfTestResults)
        requires
            old(self).wf(),
        ensures
            final(self).wf(),
            final(self).game_model() == old(self).game_model(),
            final(self).spec_depth() == old(self).spec_depth(),
            result.spec_node_count() as int == (if nodes_total(result.spec_nodes()) <= u64::MAX {
                nodes_total(result.spec_nodes())
            } else {
                u64::MAX as int
            }),
    {
        let mut result = PerfTestResults { nodes: Vec::new(), node_count: 0 };

        let current_color = self.game.current_turn();
        let generator = MoveGenerator::new(&self.game);
        let all_legal_moves = generator.all_legal_moves(current_color);

        let ghost g0 = self.game@;
        let ghost d0 = self.depth;
        let mut i: usize = 0;
        while i < all_legal_moves.len()
            invariant
                self.game.wf(),
                self.game@ == g0,
                self.depth == d0,
                current_color == self.game@.turn,
                result.spec_node_count() as int == (if nodes_total(result.spec_nodes())
                    <= u64::MAX {
                    nodes_total(result.spec_nodes())
                } else {
                    u64::MAX as int
                }),
                i <= all_legal_moves@.len(),
                forall|k: int|
                    0 <= k < all_legal_moves@.len() ==> {
                        let m = #[trigger] all_legal_moves@[k];
                        &&& origin_held(self.game@.board, m.from, current_color)
                        &&& move_compatible_for(self.game@.board, current_color, m)
                    },
            decreases all_legal_moves@.len() - i,
        {
            let mov = all_legal_moves[i];
            let made = self.game.make_move(mov);
            match made {
                Ok(_) => {},
                Err(_) => {
                    proof {
                        assert(false);
                    }
                },
            }
            let nodes = self.step(1);
            self.game.unmake_move();
            proof {
                lemma_unmake_restores_make(g0, mov);
            }
            let ghost nodes0 = result.nodes@;
            result.nodes.push((mov.to_string(), nodes));
            proof {
                assert(result.nodes@.drop_last() =~= nodes0);
            }
            result.node_count = match result.node_count.checked_add(nodes) {
                Some(total) => total,
                None => u64::MAX,
            };
            i += 1;
        }

        result
    }

    /// Counts the leaves below the current position, `cur_depth` plies
    /// already made. The game comes back exactly as it went in.
    fn step(&mut self, cur_depth: usize) -> (r: u64)
        requires
            old(self).wf(),
        ensures
            final(self).wf(),
            final(self).game_model() == old(self).game_model(),
            final(self).spec_depth() == old(self).spec_depth(),
        decreases old(self).depth - cur_depth,
    {
        if cur_depth >= self.depth {
            return 1;
        }
        let current_color = self.game.current_turn();
        let generator = MoveGenerator::new(&self.game);
        let all_legal_moves = generator.all_legal_moves(current_color);

        let ghost g0 = self.game@;
        let ghost d0 = self.depth;
        let mut total_moves: u64 = 0;
        let mut i: usize = 0;
        while i < all_legal_moves.len()
            invariant
                self.game.wf(),
                self.game@ == g0,
                self.depth == d0,
                d0 == old(self).depth,
                cur_depth < d0,
                current_color == self.game@.turn,
                i <= all_legal_moves@.len(),
                forall|k: int|
                    0 <= k < all_legal_moves@.len() ==> {
                        let m = #[trigger] all_legal_moves@[k];
                        &&& origin_held(self.game@.board, m.from, current_color)
                        &&& move_compatible_for(self.game@.board, current_color, m)
                    },
            decreases all_legal_moves@.len() - i,
        {
            let mov = all_legal_moves[i];
            let made = self.game.make_move(mov);
            match made {
                Ok(_) => {},
                Err(_) => {
                    proof {
                        assert(false);
                    }
                },
            }
            let below = self.step(cur_depth + 1);
            self.game.unmake_move();
            proof {
                lemma_unmake_restores_make(g0, mov);
            }
            total_moves = match total_moves.checked_add(below) {
                Some(total) => total,
                None => u64::MAX,
            };
            i += 1;
        }
        total_moves
    }
}

} // verus!
