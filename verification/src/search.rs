use vstd::prelude::*;

use crate::game::{lemma_unmake_restores_make, move_compatible_for, Game};
use crate::move_generation::{legal_spec, origin_held, MoveGenerator};
use crate::moves::{Move, MoveType};
use crate::players::PlayerInterface;

verus! {

/// The fixed search depth, in plies.
pub const MAX_DEPTH: u32 = 4;

/// How many root moves the search reports, best first.
pub const MAX_MOVES: usize = 4;

/// Scores never leave this band, so negating them cannot overflow.
pub const SCORE_BOUND: i32 = 1000000;

/// The fixed-depth player: it picks the best move a negamax alpha-beta
/// search of `MAX_DEPTH` plies with a quiescence extension finds.
pub struct BotBasic;

impl PlayerInterface for BotBasic {
    fn make_move(&self, game: &Game) -> (r: Option<Move>) {
        let mut scratch = game.clone();
        match best_move(&mut scratch) {
            Some((mov, _)) => Some(mov),
            None => None,
        }
    }
}

/// The ordering heuristic: captured-piece value, with bonuses for
/// castling and promotion, so that forcing moves are searched first.
pub open spec fn spec_order_score(t: MoveType) -> int {
    (match t.spec_capture_type() {
        Some(taken) => taken.spec_value(),
        None => 0,
    }) + (match t {
        MoveType::Castle => 100int,
        MoveType::PromotionQuite(_) => 400,
        MoveType::PromotionCapture(_, _) => 400,
        _ => 0,
    })
}

fn move_order_score(mov: &Move) -> (r: i32)
    ensures
        r == spec_order_score(mov.move_type),
        0 <= r <= 1500,
{
    let mut score: i32 = 0;
    match mov.move_type.capture_type() {
        Some(capture_type) => {
            score = score + capture_type.value();
        },
        None => {},
    }
    match mov.move_type {
        MoveType::Castle => {
            score = score + 100;
        },
        MoveType::PromotionQuite(_) => {
            score = score + 400;
        },
        MoveType::PromotionCapture(_, _) => {
            score = score + 400;
        },
        _ => {},
    }
    score
}

/// `m` is one of the moves of `s`.
pub open spec fn from_list(m: Move, s: Seq<Move>) -> bool {
    exists|j: int| 0 <= j < s.len() && s[j] == m
}

/// Reorders moves so that higher-ordering-score moves come first;
/// every move of the result comes from the input.
fn sort_moves_desc(moves: Vec<Move>) -> (r: Vec<Move>)
    ensures
        r@.len() == moves@.len(),
        forall|k: int| 0 <= k < r@.len() ==> from_list(#[trigger] r@[k], moves@),
{
    let ghost orig = moves@;
    let mut rest = moves;
    let mut r: Vec<Move> = Vec::new();
    while rest.len() > 0
        invariant
            r@.len() + rest@.len() == orig.len(),
            forall|k: int| 0 <= k < rest@.len() ==> from_list(#[trigger] rest@[k], orig),
            forall|k: int| 0 <= k < r@.len() ==> from_list(#[trigger] r@[k], orig),
        decreases rest@.len(),
    {
        let mut best_i: usize = 0;
        let mut best_score = move_order_score(&rest[0]);
        let mut i: usize = 1;
        while i < rest.len()
            invariant
                rest@.len() > 0,
                best_i < rest@.len(),
                i <= rest@.len(),
            decreases rest@.len() - i,
        {
            let s = move_order_score(&rest[i]);
            if s > best_score {
                best_score = s;
                best_i = i;
            }
            i += 1;
        }
        let ghost rest0 = rest@;
        let m = rest.remove(best_i);
        r.push(m);
        proof {
            assert(from_list(m, orig));
            assert forall|k: int| 0 <= k < rest@.len() implies from_list(
                #[trigger] rest@[k],
                orig,
            ) by {
                if k < best_i {
                    assert(rest@[k] == rest0[k]);
                } else {
                    assert(rest@[k] == rest0[k + 1]);
                }
            }
        }
    }
    r
}

/// Pure material balance for the side to move, read from the cache's
/// occupancy sets.
fn eval(game: &Game) -> (r: i32)
    requires
        game.wf(),
    ensures
        r == game.spec_bitboards().spec_material(game@.turn) - game.spec_bitboards().spec_material(
            game@.turn.spec_opposite(),
        ),
        -57600 <= r <= 57600,
{
    let current_color = game.current_turn();
    let own = game.bitboards().material(current_color);
    let theirs = game.bitboards().material(current_color.opposite());
    own - theirs
}

/// The quiescence extension: explores capture moves only, up to `depth`
/// more plies, and returns the more stable score. The game comes back
/// exactly as it went in.
fn alpha_beta_captures(game: &mut Game, depth: u32, alpha: i32, beta: i32) -> (r: i32)
    requires
        old(game).wf(),
        -SCORE_BOUND <= alpha <= SCORE_BOUND,
        -SCORE_BOUND <= beta <= SCORE_BOUND,
    ensures
        final(game)@ == old(game)@,
        final(game).wf(),
        -SCORE_BOUND <= r <= SCORE_BOUND,
    decreases depth,
{
    let stand_pat = eval(game);

    if depth == 0 {
        return stand_pat;
    }

    let mut alpha = alpha;
    if stand_pat >= beta {
        return beta;
    }
    if stand_pat > alpha {
        alpha = stand_pat;
    }

    let current_color = game.current_turn();
    let generator = MoveGenerator::new(game);
    let all_moves = generator.all_legal_moves(current_color);
    let mut captures: Vec<Move> = Vec::new();
    let mut i: usize = 0;
    while i < all_moves.len()
        invariant
            game.wf(),
            i <= all_moves@.len(),
            current_color == game@.turn,
            forall|k: int|
                0 <= k < all_moves@.len() ==> {
                    let m = #[trigger] all_moves@[k];
                    &&& origin_held(game@.board, m.from, current_color)
                    &&& move_compatible_for(game@.board, current_color, m)
                },
            forall|k: int|
                0 <= k < captures@.len() ==> {
                    let m = #[trigger] captures@[k];
                    &&& origin_held(game@.board, m.from, current_color)
                    &&& move_compatible_for(game@.board, current_color, m)
                },
        decreases all_moves@.len() - i,
    {
        if all_moves[i].move_type.is_capture() {
            captures.push(all_moves[i]);
        }
        i += 1;
    }

    if captures.len() == 0 {
        return stand_pat;
    }

    let ghost captures0 = captures@;
    let captures = sort_moves_desc(captures);
    proof {
        assert forall|k: int| 0 <= k < captures@.len() implies {
            let m = #[trigger] captures@[k];
            &&& origin_held(game@.board, m.from, current_color)
            &&& move_compatible_for(game@.board, current_color, m)
        } by {
            let j = choose|j: int| 0 <= j < captures0.len() && captures0[j] == captures@[k];
        }
    }
    let ghost g0 = game@;
    let mut i: usize = 0;
    while i < captures.len()
        invariant
            game.wf(),
            game@ == g0,
            g0 == old(game)@,
            depth >= 1,
            current_color == game@.turn,
            -SCORE_BOUND <= alpha <= SCORE_BOUND,
            -SCORE_BOUND <= beta <= SCORE_BOUND,
            i <= captures@.len(),
            forall|k: int|
                0 <= k < captures@.len() ==> {
                    let m = #[trigger] captures@[k];
                    &&& origin_held(game@.board, m.from, current_color)
                    &&& move_compatible_for(game@.board, current_color, m)
                },
        decreases captures@.len() - i,
    {
        let mov = captures[i];
        let made = game.make_move(mov);
        match made {
            Ok(_) => {},
            Err(_) => {
                proof {
                    assert(false);
                }
            },
        }
        let score = -alpha_beta_captures(game, depth - 1, -beta, -alpha);
        game.unmake_move();
        proof {
            lemma_unmake_restores_make(g0, mov);
        }
        if score >= beta {
            return beta;
        }
        if score > alpha {
            alpha = score;
        }
        i += 1;
    }
    alpha
}

/// One negamax node: generates and orders the legal moves, recurses with
/// negated, swapped bounds, cuts off at `beta`, and at depth zero falls
/// back to the quiescence search. With no legal move the node scores as
/// checkmate or stalemate. The game comes back exactly as it went in.
fn search(game: &mut Game, depth: u32, alpha: i32, beta: i32) -> (r: i32)
    requires
        old(game).wf(),
        -SCORE_BOUND <= alpha <= SCORE_BOUND,
        -SCORE_BOUND <= beta <= SCORE_BOUND,
    ensures
        final(game)@ == old(game)@,
        final(game).wf(),
        -SCORE_BOUND <= r <= SCORE_BOUND,
    decreases depth,
{
    if depth == 0 {
        return alpha_beta_captures(game, 8, alpha, beta);
    }

    let mut alpha = alpha;
    let current_color = game.current_turn();
    let generator = MoveGenerator::new(game);
    let legal_moves = generator.all_legal_moves(current_color);
    let ghost legal0 = legal_moves@;
    let legal_moves = sort_moves_desc(legal_moves);
    proof {
        assert forall|k: int| 0 <= k < legal_moves@.len() implies {
            let m = #[trigger] legal_moves@[k];
            &&& origin_held(game@.board, m.from, current_color)
            &&& move_compatible_for(game@.board, current_color, m)
        } by {
            let j = choose|j: int| 0 <= j < legal0.len() && legal0[j] == legal_moves@[k];
        }
    }

    if legal_moves.len() == 0 {
        return if game.is_in_check() {
            -1000
        } else {
            0
        };
    }

    let ghost g0 = game@;
    let mut i: usize = 0;
    while i < legal_moves.len()
        invariant
            game.wf(),
            game@ == g0,
            g0 == old(game)@,
            current_color == game@.turn,
            depth >= 1,
            -SCORE_BOUND <= alpha <= SCORE_BOUND,
            -SCORE_BOUND <= beta <= SCORE_BOUND,
            i <= legal_moves@.len(),
            forall|k: int|
                0 <= k < legal_moves@.len() ==> {
                    let m = #[trigger] legal_moves@[k];
                    &&& origin_held(game@.board, m.from, current_color)
                    &&& move_compatible_for(game@.board, current_color, m)
                },
        decreases legal_moves@.len() - i,
    {
        let mov = legal_moves[i];
        let made = game.make_move(mov);
        match made {
            Ok(_) => {},
            Err(_) => {
                proof {
                    assert(false);
                }
            },
        }
        let score = -search(game, depth - 1, -beta, -alpha);
        game.unmake_move();
        proof {
            lemma_unmake_restores_make(g0, mov);
        }
        if score >= beta {
            return beta;
        }
        if score > alpha {
            alpha = score;
        }
        i += 1;
    }
    alpha
}

/// The best root moves, best first, at most `MAX_MOVES` of them, each
/// with its score. Every reported move is a legal move of the side to
/// move, and the game comes back exactly as it went in.
pub fn best_moves(game: &mut Game) -> (r: Vec<(Move, i32)>)
    requires
        old(game).wf(),
    ensures
        final(game)@ == old(game)@,
        final(game).wf(),
        r@.len() <= MAX_MOVES,
        forall|k: int|
            0 <= k < r@.len() ==> {
                let m = (#[trigger] r@[k]).0;
                &&& origin_held(old(game)@.board, m.from, old(game)@.turn)
                &&& move_compatible_for(old(game)@.board, old(game)@.turn, m)
                &&& legal_spec(old(game)@, old(game).spec_bitboards(), m)
            },
        forall|k: int| 0 < k < r@.len() ==> (#[trigger] r@[k]).1 <= r@[k - 1].1,
{
    let current_color = game.current_turn();
    let generator = MoveGenerator::new(game);
    let legal_moves = generator.all_legal_moves(current_color);

    let ghost g0 = game@;
    let ghost bb0 = game.spec_bitboards();
    let mut best: Vec<(Move, i32)> = Vec::new();
    let mut i: usize = 0;
    while i < legal_moves.len()
        invariant
            game.wf(),
            game@ == g0,
            g0 == old(game)@,
            bb0 == old(game).spec_bitboards(),
            current_color == game@.turn,
            i <= legal_moves@.len(),
            best@.len() <= MAX_MOVES,
            forall|k: int|
                0 <= k < legal_moves@.len() ==> {
                    let m = #[trigger] legal_moves@[k];
                    &&& origin_held(game@.board, m.from, current_color)
                    &&& move_compatible_for(game@.board, current_color, m)
                    &&& legal_spec(game@, bb0, m)
                },
            forall|k: int|
                0 <= k < best@.len() ==> {
                    let m = (#[trigger] best@[k]).0;
                    &&& origin_held(game@.board, m.from, current_color)
                    &&& move_compatible_for(game@.board, current_color, m)
                    &&& legal_spec(game@, bb0, m)
                },
            forall|k: int| 0 < k < best@.len() ==> (#[trigger] best@[k]).1 <= best@[k - 1].1,
        decreases legal_moves@.len() - i,
    {
        let mov = legal_moves[i];
        let made = game.make_move(mov);
        match made {
            Ok(_) => {},
            Err(_) => {
                proof {
                    assert(false);
                }
            },
        }
        let score = -search(game, MAX_DEPTH - 1, -1000000, 1000000);
        game.unmake_move();
        proof {
            lemma_unmake_restores_make(g0, mov);
        }

        // Insert before the first strictly worse entry, keeping at most
        // `MAX_MOVES` entries.
        let mut pos: usize = 0;
        while pos < best.len() && best[pos].1 >= score
            invariant
                pos <= best@.len(),
                forall|k: int| 0 <= k < pos ==> (#[trigger] best@[k]).1 >= score,
            decreases best@.len() - pos,
        {
            pos += 1;
        }
        if pos < MAX_MOVES {
            best.insert(pos, (mov, score));
            if best.len() > MAX_MOVES {
                best.pop();
            }
            proof {
                assert forall|k: int| 0 < k < best@.len() implies (#[trigger] best@[k]).1
                    <= best@[k - 1].1 by {}
            }
        }
        i += 1;
    }
    best
}

/// The single best root move with its score, if any legal move exists
/// and the search surfaced one.
pub fn best_move(game: &mut Game) -> (r: Option<(Move, i32)>)
    requires
        old(game).wf(),
    ensures
        final(game)@ == old(game)@,
        final(game).wf(),
        r matches Some((m, _)) ==> {
            &&& origin_held(old(game)@.board, m.from, old(game)@.turn)
            &&& move_compatible_for(old(game)@.board, old(game)@.turn, m)
            &&& legal_spec(old(game)@, old(game).spec_bitboards(), m)
        },
{
    let moves = best_moves(game);
    if moves.len() == 0 {
        None
    } else {
        Some(moves[0])
    }
}

} // verus!
