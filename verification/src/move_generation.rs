use vstd::prelude::*;

use crate::bitboards::{bit64, GameBitBoards};
use crate::color::Color;
use crate::game::{move_compatible_for, Game, GameModel};
use crate::moves::{Move, MoveType, PromotionType};
use crate::piece::Piece;
use crate::piece_type::PieceType;
use crate::position::Position;

verus! {

/// The square `pos` holds a piece of side `c`.
pub open spec fn origin_held(b: Seq<Option<Piece>>, pos: Position, c: Color) -> bool {
    b[pos.idx()] matches Some(p) && p.color == c
}

/// The side `c` is in check: the opponent's attack set covers its king square.
pub open spec fn in_check_spec(bb: GameBitBoards, c: Color) -> bool {
    bit64(bb.spec_attacks(c.spec_opposite()).0, bb.spec_king(c).idx())
}

/// A pinned piece may only move along its own pin ray.
pub open spec fn pin_ok(bb: GameBitBoards, c: Color, m: Move) -> bool {
    forall|i: int|
        0 <= i < bb.spec_pinned(c).len() && bit64(
            #[trigger] bb.spec_pinned(c)[i].0,
            m.from.idx(),
        ) ==> bit64(bb.spec_pinned(c)[i].0, m.to.idx())
}

/// In check, the king must step off the attacked squares and any other
/// piece must land on the single check-block mask; a double check leaves
/// non-king pieces no move at all.
pub open spec fn check_ok(bb: GameBitBoards, p: Piece, m: Move) -> bool {
    let c = p.color;
    in_check_spec(bb, c) ==> if p.kind == PieceType::King {
        !bit64(bb.spec_attacks(c.spec_opposite()).0, m.to.idx())
    } else {
        bb.spec_checks(c).len() == 1 && bit64(bb.spec_checks(c)[0].0, m.to.idx())
    }
}

/// A castle needs the matching right, and neither the king's start,
/// transit nor destination square may be attacked.
pub open spec fn castle_legal(g: GameModel, bb: GameBitBoards, c: Color, m: Move) -> bool {
    let opp = c.spec_opposite();
    let root = c.spec_root_rank() as int;
    let dir: int = if m.to.x > m.from.x { 1 } else { -1 };
    &&& (dir == -1 ==> g.rights_of(c).spec_queen_side())
    &&& (dir == 1 ==> g.rights_of(c).spec_king_side())
    &&& !bit64(bb.spec_attacks(opp).0, crate::game::sqi(m.from.x as int, root))
    &&& !bit64(bb.spec_attacks(opp).0, crate::game::sqi(m.from.x + dir, root))
    &&& !bit64(bb.spec_attacks(opp).0, crate::game::sqi(m.from.x + 2 * dir, root))
}

/// A king never steps onto an attacked square, and a castle obeys
/// `castle_legal`.
pub open spec fn king_ok(g: GameModel, bb: GameBitBoards, p: Piece, m: Move) -> bool {
    p.kind == PieceType::King ==> {
        &&& !bit64(bb.spec_attacks(p.color.spec_opposite()).0, m.to.idx())
        &&& (m.move_type is Castle ==> castle_legal(g, bb, p.color, m))
    }
}

/// The pawns standing strictly between `x` and `kx` on rank `y`, walking
/// one file at a time from `x` (inclusive) to `kx` (exclusive); the square
/// `x` itself is counted too if a pawn stands there.
pub open spec fn pawn_count_walk(b: Seq<Option<Piece>>, y: int, x: int, kx: int) -> int
    decreases (if kx >= x { kx - x } else { x - kx }),
{
    if x == kx {
        0
    } else {
        let here: int = match b[crate::game::sqi(x, y)] {
            Some(p) => if p.kind == PieceType::Pawn {
                1
            } else {
                0
            },
            None => 0,
        };
        here + pawn_count_walk(b, y, if kx > x { x + 1 } else { x - 1 }, kx)
    }
}

pub proof fn lemma_pawn_count_walk_nonneg(b: Seq<Option<Piece>>, y: int, x: int, kx: int)
    ensures
        pawn_count_walk(b, y, x, kx) >= 0,
    decreases (if kx >= x { kx - x } else { x - kx }),
{
    if x != kx {
        lemma_pawn_count_walk_nonneg(b, y, if kx > x { x + 1 } else { x - 1 }, kx)
    }
}

/// An enemy rook at index `ri` shares the capturing pawn's rank with the
/// king, looks down that rank toward the king, and exactly two pawns stand
/// in its way: the en-passant capture would clear both and expose the king.
pub open spec fn ep_rook_exposes(
    b: Seq<Option<Piece>>,
    king: Position,
    m: Move,
    ri: int,
) -> bool {
    let ry = ri / 8;
    let rx = ri % 8;
    let pawn_dir: int = if king.x > m.from.x { 1 } else { -1 };
    let rook_dir: int = if m.from.x > rx { 1 } else { -1 };
    &&& king.y == m.from.y
    &&& ry == m.from.y
    &&& rook_dir == pawn_dir
    &&& pawn_count_walk(b, ry, rx, king.x as int) == 2
}

/// An en-passant capture must not uncover a same-rank rook attack on the
/// king; the ordinary pin rays cannot see it because two pawns leave the
/// rank at once.
pub open spec fn ep_ok(b: Seq<Option<Piece>>, bb: GameBitBoards, c: Color, m: Move) -> bool {
    m.move_type is EnPassantCapture ==> !(exists|ri: int|
        bit64(#[trigger] bb.spec_kind_set(PieceType::Rook, c.spec_opposite()).0, ri)
            && ep_rook_exposes(b, bb.spec_king(c), m, ri))
}

/// A pawn of side `c` on `from` strikes `t` diagonally forward.
pub open spec fn pawn_strike(from: Position, c: Color, t: Position) -> bool {
    &&& t.y == from.y + c.spec_board_direction()
    &&& (t.x == from.x - 1 || t.x == from.x + 1)
}

/// A knight on `from` jumps to `t`.
pub open spec fn knight_jump(from: Position, t: Position) -> bool {
    let dx = t.x - from.x;
    let dy = t.y - from.y;
    ||| (dx == 1 || dx == -1) && (dy == 2 || dy == -2)
    ||| (dx == 2 || dx == -2) && (dy == 1 || dy == -1)
}

/// A king on `from` steps to the adjacent square `t`.
pub open spec fn king_step(from: Position, t: Position) -> bool {
    &&& -1 <= t.x - from.x <= 1
    &&& -1 <= t.y - from.y <= 1
    &&& t != from
}

/// An attack walk passes through a square that is empty or holds the
/// opposing king — rays continue through the king so that squares behind
/// it still count as attacked.
pub open spec fn passable_step(
    b: Seq<Option<Piece>>,
    c: Color,
    from: Position,
    dx: int,
    dy: int,
    j: int,
) -> bool {
    let sq = crate::game::sqi(from.x + j * dx, from.y + j * dy);
    b[sq] is None || b[sq] == Some(Piece { kind: PieceType::King, color: c.spec_opposite() })
}

/// `t` stands `n` steps from `from` along the direction `(dx, dy)`.
pub open spec fn ray_point(from: Position, dx: int, dy: int, n: int, t: Position) -> bool {
    t.x == from.x + n * dx && t.y == from.y + n * dy
}

/// Stepping a signed unit direction scales linearly.
pub proof fn lemma_mul_sign(m: int, d: int)
    ensures
        d == 1 ==> m * d == m,
        d == -1 ==> m * d == -m,
        d == 0 ==> m * d == 0,
{
    assert(d == 1 ==> m * d == m) by (nonlinear_arith);
    assert(d == -1 ==> m * d == -m) by (nonlinear_arith);
    assert(d == 0 ==> m * d == 0) by (nonlinear_arith);
}

/// A slider of side `c` on `from` reaches `t` along the direction
/// `(dx, dy)`: some number of steps away, with every square in between
/// passable for an attack walk.
pub open spec fn slider_attacks_dir(
    b: Seq<Option<Piece>>,
    c: Color,
    from: Position,
    dx: int,
    dy: int,
    t: Position,
) -> bool {
    exists|n: int|
        {
            &&& n >= 1
            &&& #[trigger] ray_point(from, dx, dy, n, t)
            &&& forall|j: int| 1 <= j < n ==> #[trigger] passable_step(b, c, from, dx, dy, j)
        }
}

/// A bishop-wise reach: along one of the four diagonals.
pub open spec fn diagonal_attacks(b: Seq<Option<Piece>>, c: Color, from: Position, t: Position) -> bool {
    ||| slider_attacks_dir(b, c, from, -1, -1, t)
    ||| slider_attacks_dir(b, c, from, -1, 1, t)
    ||| slider_attacks_dir(b, c, from, 1, -1, t)
    ||| slider_attacks_dir(b, c, from, 1, 1, t)
}

/// A rook-wise reach: along one of the four files and ranks.
pub open spec fn straight_attacks(b: Seq<Option<Piece>>, c: Color, from: Position, t: Position) -> bool {
    ||| slider_attacks_dir(b, c, from, -1, 0, t)
    ||| slider_attacks_dir(b, c, from, 1, 0, t)
    ||| slider_attacks_dir(b, c, from, 0, -1, t)
    ||| slider_attacks_dir(b, c, from, 0, 1, t)
}

/// The attack walk of a king also emits the castle landing squares when
/// the castle layout stands on the board, so those squares count as
/// covered. This is a deliberate part of the derivation: the walk feeds
/// the attack sets, and its castle emission belongs to them. It forbids
/// no square wrongly, because whenever the layout stands the landing
/// square is in any case covered by the castle rook's own ray along the
/// emptied rank.
pub open spec fn castle_emission(b: Seq<Option<Piece>>, c: Color, from: Position, t: Position) -> bool {
    let r = c.spec_root_rank() as int;
    &&& from == (Position { x: 4u8, y: c.spec_root_rank() })
    &&& t.y == c.spec_root_rank()
    &&& if t.x == 6 {
        &&& b[crate::game::sqi(5, r)] is None
        &&& b[crate::game::sqi(6, r)] is None
        &&& b[crate::game::sqi(7, r)] == Some(Piece { kind: PieceType::Rook, color: c })
    } else {
        &&& t.x == 2
        &&& b[crate::game::sqi(1, r)] is None
        &&& b[crate::game::sqi(2, r)] is None
        &&& b[crate::game::sqi(3, r)] is None
        &&& b[crate::game::sqi(0, r)] == Some(Piece { kind: PieceType::Rook, color: c })
    }
}

/// The piece `p`, standing on `from`, threatens the square `t`.
pub open spec fn piece_attacks(b: Seq<Option<Piece>>, p: Piece, from: Position, t: Position) -> bool {
    match p.kind {
        PieceType::Pawn => pawn_strike(from, p.color, t),
        PieceType::Knight => knight_jump(from, t),
        PieceType::Bishop => diagonal_attacks(b, p.color, from, t),
        PieceType::Rook => straight_attacks(b, p.color, from, t),
        PieceType::Queen => diagonal_attacks(b, p.color, from, t) || straight_attacks(
            b,
            p.color,
            from,
            t,
        ),
        PieceType::King => king_step(from, t) || castle_emission(b, p.color, from, t),
    }
}

/// A piece of side `c` stands on `from` and threatens `t`.
pub open spec fn attack_witness(b: Seq<Option<Piece>>, c: Color, from: Position, t: Position) -> bool {
    b[from.idx()] matches Some(p) && p.color == c && piece_attacks(b, p, from, t)
}

/// Some piece of side `c` threatens the square with index `k`.
pub open spec fn square_attacked(b: Seq<Option<Piece>>, c: Color, k: int) -> bool {
    exists|from: Position, t: Position|
        {
            &&& from.wf()
            &&& t.wf()
            &&& t.idx() == k
            &&& #[trigger] attack_witness(b, c, from, t)
        }
}

/// Completeness of the cache's attack sets: every square some piece of a
/// side genuinely threatens is marked in that side's attack set.
pub open spec fn attacks_complete(bb: GameBitBoards, b: Seq<Option<Piece>>) -> bool {
    &&& forall|k: int| #[trigger] square_attacked(b, Color::White, k) ==> bit64(
        bb.spec_attacks(Color::White).0,
        k,
    )
    &&& forall|k: int| #[trigger] square_attacked(b, Color::Black, k) ==> bit64(
        bb.spec_attacks(Color::Black).0,
        k,
    )
}

/// Soundness of the cache's attack sets: every square an attack set
/// marks is genuinely threatened by some piece of that side.
pub open spec fn attacks_sound(bb: GameBitBoards, b: Seq<Option<Piece>>) -> bool {
    &&& forall|k: int| #[trigger] bit64(bb.spec_attacks(Color::White).0, k) ==> square_attacked(
        b,
        Color::White,
        k,
    )
    &&& forall|k: int| #[trigger] bit64(bb.spec_attacks(Color::Black).0, k) ==> square_attacked(
        b,
        Color::Black,
        k,
    )
}

/// The legality filter, as one predicate over the game, its derived index
/// and a candidate move: the origin must be occupied, and the move must
/// pass the pin, check-evasion, king-safety and en-passant-exposure
/// filters together. The side the filter judges for is the colour of the
/// piece on the origin square.
pub open spec fn legal_spec(g: GameModel, bb: GameBitBoards, m: Move) -> bool {
    match g.board[m.from.idx()] {
        None => false,
        Some(p) => {
            &&& pin_ok(bb, p.color, m)
            &&& check_ok(bb, p, m)
            &&& king_ok(g, bb, p, m)
            &&& ep_ok(g.board, bb, p.color, m)
        },
    }
}

/// A read-only view over a game that enumerates moves.
pub struct MoveGenerator<'a> {
    pub game: &'a Game,
}

impl<'a> MoveGenerator<'a> {
    pub open spec fn game_is(self, g: Game) -> bool {
        self.game == g
    }

    pub fn new(game: &'a Game) -> (r: Self)
        ensures
            r.game_is(*game),
    {
        Self { game }
    }
}

impl MoveGenerator<'_> {
    /// Appends the single-step move from `from` by `(dx, dy)`: a capture
    /// if the destination is occupied (friendly occupants only when
    /// `friendly_attacks` asks for threat accounting), a quiet move if free.
    fn push_step_move(
        &self,
        result: &mut Vec<Move>,
        from: &Position,
        dx: i8,
        dy: i8,
        color: Color,
        friendly_attacks: bool,
    )
        requires
            self.game.board_len_ok(),
            from.wf(),
            -2 <= dx <= 2,
            -2 <= dy <= 2,
            dx != 0 || dy != 0,
        ensures
            forall|k: int| 0 <= k < old(result)@.len() ==> final(result)@[k] == old(result)@[k],
            final(result)@.len() >= old(result)@.len(),
            forall|k: int|
                old(result)@.len() <= k < final(result)@.len() ==> {
                    let m = #[trigger] final(result)@[k];
                    &&& m.from == *from
                    &&& m.to.wf()
                    &&& m.to.x == from.x + dx && m.to.y == from.y + dy
                    &&& !(m.move_type is Castle)
                    &&& (!friendly_attacks && origin_held(self.game@.board, *from, color)
                        ==> move_compatible_for(self.game@.board, color, m))
                },
            friendly_attacks && 0 <= from.x + dx < 8 && 0 <= from.y + dy < 8 ==> {
                &&& final(result)@.len() == old(result)@.len() + 1
                &&& final(result)@.last().to.x == from.x + dx
                &&& final(result)@.last().to.y == from.y + dy
            },
    {
        let board = self.game.board();
        if let Some(new_pos) = from.offset(dx, dy) {
            match board.piece_at(&new_pos) {
                Some(piece) => {
                    if piece.color() != color || friendly_attacks {
                        let m = Move::new(*from, new_pos, MoveType::Capture(piece.piece_type()));
                        result.push(m);
                    }
                },
                None => {
                    result.push(Move::new(*from, new_pos, MoveType::Quiet));
                },
            }
        }
    }

    /// Walks one slider ray from `from`, collecting quiet moves until the
    /// ray is blocked and a capture on the blocker. For threat accounting
    /// (`friendly_attacks`) the blocker counts even when friendly, and the
    /// walk continues through an enemy king.
    fn push_ray_moves(
        &self,
        result: &mut Vec<Move>,
        from: &Position,
        dx: i8,
        dy: i8,
        color: Color,
        friendly_attacks: bool,
    )
        requires
            self.game.board_len_ok(),
            from.wf(),
            -1 <= dx <= 1,
            -1 <= dy <= 1,
            dx != 0 || dy != 0,
        ensures
            forall|k: int| 0 <= k < old(result)@.len() ==> final(result)@[k] == old(result)@[k],
            final(result)@.len() >= old(result)@.len(),
            forall|k: int|
                old(result)@.len() <= k < final(result)@.len() ==> {
                    let m = #[trigger] final(result)@[k];
                    &&& m.from == *from
                    &&& m.to.wf()
                    &&& !(m.move_type is Castle)
                    &&& slider_attacks_dir(
                        self.game@.board,
                        color,
                        *from,
                        dx as int,
                        dy as int,
                        m.to,
                    )
                    &&& (!friendly_attacks && origin_held(self.game@.board, *from, color)
                        ==> move_compatible_for(self.game@.board, color, m))
                },
            friendly_attacks ==> forall|t: Position|
                t.wf() && slider_attacks_dir(
                    self.game@.board,
                    color,
                    *from,
                    dx as int,
                    dy as int,
                    t,
                ) ==> exists|k: int|
                    0 <= k < final(result)@.len() && (#[trigger] final(result)@[k]).to == t,
    {
        let board = self.game.board();
        let ghost base = result@.len();
        let mut cur = *from;
        let ghost mut n: int = 0;
        loop
            invariant_except_break
                n >= 0,
                cur.x == from.x + n * dx,
                cur.y == from.y + n * dy,
                forall|j: int| 1 <= j <= n ==> #[trigger] passable_step(
                    self.game@.board,
                    color,
                    *from,
                    dx as int,
                    dy as int,
                    j,
                ),
            invariant
                self.game.board_len_ok(),
                board.wf(),
                board@ == self.game@.board,
                from.wf(),
                cur.wf(),
                -1 <= dx <= 1,
                -1 <= dy <= 1,
                dx != 0 || dy != 0,
                result@.len() >= base,
                forall|k: int| 0 <= k < base ==> result@[k] == old(result)@[k],
                friendly_attacks ==> forall|m: int, t: Position|
                    1 <= m <= n && t.wf() && #[trigger] ray_point(
                        *from,
                        dx as int,
                        dy as int,
                        m,
                        t,
                    ) ==> exists|k: int|
                        base <= k < result@.len() && (#[trigger] result@[k]).to == t,
                forall|k: int|
                    base <= k < result@.len() ==> {
                        let m = #[trigger] result@[k];
                        &&& m.from == *from
                        &&& m.to.wf()
                        &&& !(m.move_type is Castle)
                        &&& slider_attacks_dir(
                            self.game@.board,
                            color,
                            *from,
                            dx as int,
                            dy as int,
                            m.to,
                        )
                        &&& (!friendly_attacks && origin_held(self.game@.board, *from, color)
                            ==> move_compatible_for(self.game@.board, color, m))
                    },
            ensures
                friendly_attacks ==> forall|t: Position|
                    t.wf() && slider_attacks_dir(
                        self.game@.board,
                        color,
                        *from,
                        dx as int,
                        dy as int,
                        t,
                    ) ==> exists|k: int|
                        0 <= k < result@.len() && (#[trigger] result@[k]).to == t,
            decreases (
            if dx > 0 {
                7 - cur.x as int
            } else if dx < 0 {
                cur.x as int
            } else if dy > 0 {
                7 - cur.y as int
            } else {
                cur.y as int
            }
        ),
        {
            cur = match cur.offset(dx, dy) {
                Some(p) => p,
                None => {
                    // The ray has left the board: every further step along
                    // it lies outside too, so every reachable square was
                    // visited and recorded.
                    proof {
                        if friendly_attacks {
                            assert forall|t: Position|
                                t.wf() && slider_attacks_dir(
                                    self.game@.board,
                                    color,
                                    *from,
                                    dx as int,
                                    dy as int,
                                    t,
                                ) implies exists|k: int|
                                0 <= k < result@.len() && (#[trigger] result@[k]).to == t by {
                                let m = choose|m: int|
                                    {
                                        &&& m >= 1
                                        &&& #[trigger] ray_point(*from, dx as int, dy as int, m, t)
                                        &&& forall|j: int| 1 <= j < m ==> #[trigger] passable_step(
                                            self.game@.board,
                                            color,
                                            *from,
                                            dx as int,
                                            dy as int,
                                            j,
                                        )
                                    };
                                if m > n {
                                    lemma_mul_sign(m, dx as int);
                                    lemma_mul_sign(n, dx as int);
                                    lemma_mul_sign(m, dy as int);
                                    lemma_mul_sign(n, dy as int);
                                    if !(0 <= cur.x + dx && cur.x + dx < 8) {
                                        assert(!t.wf());
                                    } else {
                                        assert(dy != 0);
                                        assert(!t.wf());
                                    }
                                }
                            }
                        }
                    }
                    break;
                },
            };
            proof {
                assert((n + 1) * dx == n * dx + dx) by (nonlinear_arith);
                assert((n + 1) * dy == n * dy + dy) by (nonlinear_arith);
                n = n + 1;
            }
            match board.piece_at(&cur) {
                Some(piece) => {
                    let piece = *piece;
                    if piece.color() != color || friendly_attacks {
                        let m = Move::new(*from, cur, MoveType::Capture(piece.piece_type()));
                        proof {
                            assert(slider_attacks_dir(
                                self.game@.board,
                                color,
                                *from,
                                dx as int,
                                dy as int,
                                cur,
                            )) by {
                                assert(ray_point(*from, dx as int, dy as int, n, cur));
                            }
                        }
                        let ghost before_push = result@;
                        result.push(m);
                        proof {
                            assert(result@[result@.len() - 1].to == cur);
                        }
                        proof {
                            if friendly_attacks {
                                assert forall|m2: int, t: Position|
                                    1 <= m2 <= n && t.wf() && #[trigger] ray_point(
                                        *from,
                                        dx as int,
                                        dy as int,
                                        m2,
                                        t,
                                    ) implies exists|k: int|
                                    base <= k < result@.len() && (#[trigger] result@[k]).to
                                        == t by {
                                    if m2 < n {
                                        let k = choose|k: int|
                                            base <= k < before_push.len() && (
                                            #[trigger] before_push[k]).to == t;
                                        assert(result@[k].to == t);
                                    } else {
                                        assert(result@[result@.len() - 1].to == t);
                                    }
                                }
                            }
                        }
                    }
                    if !friendly_attacks || (!(piece.piece_type() == PieceType::King)
                        || piece.color() == color) {
                        // The blocker is not the opposing king, so the ray
                        // stops here: nothing past it is reachable.
                        proof {
                            if friendly_attacks {
                                assert forall|t: Position|
                                    t.wf() && slider_attacks_dir(
                                        self.game@.board,
                                        color,
                                        *from,
                                        dx as int,
                                        dy as int,
                                        t,
                                    ) implies exists|k: int|
                                    0 <= k < result@.len() && (#[trigger] result@[k]).to == t by {
                                    let m = choose|m: int|
                                        {
                                            &&& m >= 1
                                            &&& #[trigger] ray_point(
                                                *from,
                                                dx as int,
                                                dy as int,
                                                m,
                                                t,
                                            )
                                            &&& forall|j: int|
                                                1 <= j < m ==> #[trigger] passable_step(
                                                    self.game@.board,
                                                    color,
                                                    *from,
                                                    dx as int,
                                                    dy as int,
                                                    j,
                                                )
                                        };
                                    if m > n {
                                        assert(passable_step(
                                            self.game@.board,
                                            color,
                                            *from,
                                            dx as int,
                                            dy as int,
                                            n,
                                        ));
                                        assert(crate::game::sqi(
                                            from.x + n * (dx as int),
                                            from.y + n * (dy as int),
                                        ) == cur.idx());
                                        assert(false);
                                    }
                                }
                            }
                        }
                        break;
                    }
                    proof {
                        assert(passable_step(
                            self.game@.board,
                            color,
                            *from,
                            dx as int,
                            dy as int,
                            n,
                        ));
                    }
                    let ghost before_push = result@;
                    result.push(Move::new(*from, cur, MoveType::Quiet));
                    proof {
                        assert(result@[result@.len() - 1].to == cur);
                    }
                        proof {
                            if friendly_attacks {
                                assert forall|m2: int, t: Position|
                                    1 <= m2 <= n && t.wf() && #[trigger] ray_point(
                                        *from,
                                        dx as int,
                                        dy as int,
                                        m2,
                                        t,
                                    ) implies exists|k: int|
                                    base <= k < result@.len() && (#[trigger] result@[k]).to
                                        == t by {
                                    if m2 < n {
                                        let k = choose|k: int|
                                            base <= k < before_push.len() && (
                                            #[trigger] before_push[k]).to == t;
                                        assert(result@[k].to == t);
                                    } else {
                                        assert(result@[result@.len() - 1].to == t);
                                    }
                                }
                            }
                        }
                },
                None => {
                    proof {
                        assert(slider_attacks_dir(
                            self.game@.board,
                            color,
                            *from,
                            dx as int,
                            dy as int,
                            cur,
                        )) by {
                            assert(ray_point(*from, dx as int, dy as int, n, cur));
                        }
                        assert(passable_step(
                            self.game@.board,
                            color,
                            *from,
                            dx as int,
                            dy as int,
                            n,
                        ));
                    }
                    let ghost before_push = result@;
                    result.push(Move::new(*from, cur, MoveType::Quiet));
                    proof {
                        assert(result@[result@.len() - 1].to == cur);
                    }
                        proof {
                            if friendly_attacks {
                                assert forall|m2: int, t: Position|
                                    1 <= m2 <= n && t.wf() && #[trigger] ray_point(
                                        *from,
                                        dx as int,
                                        dy as int,
                                        m2,
                                        t,
                                    ) implies exists|k: int|
                                    base <= k < result@.len() && (#[trigger] result@[k]).to
                                        == t by {
                                    if m2 < n {
                                        let k = choose|k: int|
                                            base <= k < before_push.len() && (
                                            #[trigger] before_push[k]).to == t;
                                        assert(result@[k].to == t);
                                    } else {
                                        assert(result@[result@.len() - 1].to == t);
                                    }
                                }
                            }
                        }
                },
            }
        }
    }


    /// All pseudo-legal knight moves from `position` for `color`.
    pub fn knight_pseudo_legal_moves(
        &self,
        position: &Position,
        color: Color,
        friendly_attacks: bool,
    ) -> (r: Vec<Move>)
        requires
            self.game.board_len_ok(),
            position.wf(),
        ensures
            forall|k: int|
                0 <= k < r@.len() ==> {
                    let m = #[trigger] r@[k];
                    &&& m.from == *position
                    &&& m.to.wf()
                    &&& knight_jump(*position, m.to)
                    &&& !(m.move_type is Castle)
                    &&& (!friendly_attacks && origin_held(self.game@.board, *position, color)
                        ==> move_compatible_for(self.game@.board, color, m))
                },
            friendly_attacks ==> forall|t: Position|
                t.wf() && knight_jump(*position, t) ==> exists|k: int|
                    0 <= k < r@.len() && (#[trigger] r@[k]).to == t,
    {
        let mut result: Vec<Move> = Vec::new();
        self.push_step_move(&mut result, position, -2, -1, color, friendly_attacks);
        let ghost n1 = result@.len();
        self.push_step_move(&mut result, position, -2, 1, color, friendly_attacks);
        let ghost n2 = result@.len();
        self.push_step_move(&mut result, position, -1, -2, color, friendly_attacks);
        let ghost n3 = result@.len();
        self.push_step_move(&mut result, position, -1, 2, color, friendly_attacks);
        let ghost n4 = result@.len();
        self.push_step_move(&mut result, position, 1, -2, color, friendly_attacks);
        let ghost n5 = result@.len();
        self.push_step_move(&mut result, position, 1, 2, color, friendly_attacks);
        let ghost n6 = result@.len();
        self.push_step_move(&mut result, position, 2, -1, color, friendly_attacks);
        let ghost n7 = result@.len();
        self.push_step_move(&mut result, position, 2, 1, color, friendly_attacks);
        proof {
            if friendly_attacks {
                assert forall|t: Position| t.wf() && knight_jump(*position, t) implies exists|
                    k: int,
                |
                    0 <= k < result@.len() && (#[trigger] result@[k]).to == t by {
                    if t.x == position.x - 2 && t.y == position.y - 1 {
                        assert(result@[n1 - 1].to == t);
                    } else if t.x == position.x - 2 && t.y == position.y + 1 {
                        assert(result@[n2 - 1].to == t);
                    } else if t.x == position.x - 1 && t.y == position.y - 2 {
                        assert(result@[n3 - 1].to == t);
                    } else if t.x == position.x - 1 && t.y == position.y + 2 {
                        assert(result@[n4 - 1].to == t);
                    } else if t.x == position.x + 1 && t.y == position.y - 2 {
                        assert(result@[n5 - 1].to == t);
                    } else if t.x == position.x + 1 && t.y == position.y + 2 {
                        assert(result@[n6 - 1].to == t);
                    } else if t.x == position.x + 2 && t.y == position.y - 1 {
                        assert(result@[n7 - 1].to == t);
                    } else {
                        assert(result@[result@.len() - 1].to == t);
                    }
                }
            }
        }
        result
    }

    /// All pseudo-legal bishop-ray moves from `position` for `color`.
    pub fn bishop_pseudo_legal_moves(
        &self,
        position: &Position,
        color: Color,
        friendly_attacks: bool,
    ) -> (r: Vec<Move>)
        requires
            self.game.board_len_ok(),
            position.wf(),
        ensures
            forall|k: int|
                0 <= k < r@.len() ==> {
                    let m = #[trigger] r@[k];
                    &&& m.from == *position
                    &&& m.to.wf()
                    &&& diagonal_attacks(self.game@.board, color, *position, m.to)
                    &&& !(m.move_type is Castle)
                    &&& (!friendly_attacks && origin_held(self.game@.board, *position, color)
                        ==> move_compatible_for(self.game@.board, color, m))
                },
            friendly_attacks ==> forall|t: Position|
                t.wf() && diagonal_attacks(self.game@.board, color, *position, t) ==> exists|
                    k: int,
                | 0 <= k < r@.len() && (#[trigger] r@[k]).to == t,
    {
        let mut result: Vec<Move> = Vec::new();
        self.push_ray_moves(&mut result, position, -1, -1, color, friendly_attacks);
        self.push_ray_moves(&mut result, position, -1, 1, color, friendly_attacks);
        self.push_ray_moves(&mut result, position, 1, -1, color, friendly_attacks);
        self.push_ray_moves(&mut result, position, 1, 1, color, friendly_attacks);
        result
    }

    /// All pseudo-legal rook-ray moves from `position` for `color`.
    pub fn rook_pseudo_legal_moves(
        &self,
        position: &Position,
        color: Color,
        friendly_attacks: bool,
    ) -> (r: Vec<Move>)
        requires
            self.game.board_len_ok(),
            position.wf(),
        ensures
            forall|k: int|
                0 <= k < r@.len() ==> {
                    let m = #[trigger] r@[k];
                    &&& m.from == *position
                    &&& m.to.wf()
                    &&& straight_attacks(self.game@.board, color, *position, m.to)
                    &&& !(m.move_type is Castle)
                    &&& (!friendly_attacks && origin_held(self.game@.board, *position, color)
                        ==> move_compatible_for(self.game@.board, color, m))
                },
            friendly_attacks ==> forall|t: Position|
                t.wf() && straight_attacks(self.game@.board, color, *position, t) ==> exists|
                    k: int,
                | 0 <= k < r@.len() && (#[trigger] r@[k]).to == t,
    {
        let mut result: Vec<Move> = Vec::new();
        self.push_ray_moves(&mut result, position, -1, 0, color, friendly_attacks);
        self.push_ray_moves(&mut result, position, 1, 0, color, friendly_attacks);
        self.push_ray_moves(&mut result, position, 0, -1, color, friendly_attacks);
        self.push_ray_moves(&mut result, position, 0, 1, color, friendly_attacks);
        result
    }

    /// All pseudo-legal queen moves: the bishop and rook rays together.
    pub fn queen_pseudo_legal_moves(
        &self,
        position: &Position,
        color: Color,
        friendly_attacks: bool,
    ) -> (r: Vec<Move>)
        requires
            self.game.board_len_ok(),
            position.wf(),
        ensures
            forall|k: int|
                0 <= k < r@.len() ==> {
                    let m = #[trigger] r@[k];
                    &&& m.from == *position
                    &&& m.to.wf()
                    &&& (diagonal_attacks(self.game@.board, color, *position, m.to)
                        || straight_attacks(self.game@.board, color, *position, m.to))
                    &&& !(m.move_type is Castle)
                    &&& (!friendly_attacks && origin_held(self.game@.board, *position, color)
                        ==> move_compatible_for(self.game@.board, color, m))
                },
            friendly_attacks ==> forall|t: Position|
                t.wf() && (diagonal_attacks(self.game@.board, color, *position, t)
                    || straight_attacks(self.game@.board, color, *position, t)) ==> exists|k: int|
                    0 <= k < r@.len() && (#[trigger] r@[k]).to == t,
    {
        let mut result: Vec<Move> = Vec::new();
        self.push_ray_moves(&mut result, position, -1, -1, color, friendly_attacks);
        self.push_ray_moves(&mut result, position, -1, 1, color, friendly_attacks);
        self.push_ray_moves(&mut result, position, 1, -1, color, friendly_attacks);
        self.push_ray_moves(&mut result, position, 1, 1, color, friendly_attacks);
        self.push_ray_moves(&mut result, position, -1, 0, color, friendly_attacks);
        self.push_ray_moves(&mut result, position, 1, 0, color, friendly_attacks);
        self.push_ray_moves(&mut result, position, 0, -1, color, friendly_attacks);
        self.push_ray_moves(&mut result, position, 0, 1, color, friendly_attacks);
        result
    }

    /// All pseudo-legal king moves: one step in each direction, plus the
    /// castle moves whenever the king stands on its home square, the
    /// transit squares are free and the matching rook is in its corner.
    /// Rights and check-safety are judged only by the legality filter.
    /// For threat accounting the result covers every adjacent square and
    /// every standing castle landing square.
    pub fn king_pseudo_legal_moves(
        &self,
        position: &Position,
        color: Color,
        friendly_attacks: bool,
    ) -> (r: Vec<Move>)
        requires
            self.game.board_len_ok(),
            position.wf(),
        ensures
            forall|k: int|
                0 <= k < r@.len() ==> {
                    let m = #[trigger] r@[k];
                    &&& m.from == *position
                    &&& m.to.wf()
                    &&& (king_step(*position, m.to) || castle_emission(
                        self.game@.board,
                        color,
                        *position,
                        m.to,
                    ))
                    &&& (m.move_type is Castle ==> m.from.x == 4 && (m.to.x == 2 || m.to.x == 6))
                    &&& (!friendly_attacks && self.game@.board[position.idx()] == Some(
                        Piece { kind: PieceType::King, color },
                    ) ==> move_compatible_for(self.game@.board, color, m))
                },
            friendly_attacks ==> forall|t: Position|
                t.wf() && (king_step(*position, t) || castle_emission(
                    self.game@.board,
                    color,
                    *position,
                    t,
                )) ==> exists|k: int| 0 <= k < r@.len() && (#[trigger] r@[k]).to == t,
    {
        let board = self.game.board();
        let mut result: Vec<Move> = Vec::new();
        self.push_step_move(&mut result, position, -1, -1, color, friendly_attacks);
        let ghost n1 = result@.len();
        self.push_step_move(&mut result, position, -1, 0, color, friendly_attacks);
        let ghost n2 = result@.len();
        self.push_step_move(&mut result, position, -1, 1, color, friendly_attacks);
        let ghost n3 = result@.len();
        self.push_step_move(&mut result, position, 0, -1, color, friendly_attacks);
        let ghost n4 = result@.len();
        self.push_step_move(&mut result, position, 0, 1, color, friendly_attacks);
        let ghost n5 = result@.len();
        self.push_step_move(&mut result, position, 1, -1, color, friendly_attacks);
        let ghost n6 = result@.len();
        self.push_step_move(&mut result, position, 1, 0, color, friendly_attacks);
        let ghost n7 = result@.len();
        self.push_step_move(&mut result, position, 1, 1, color, friendly_attacks);
        let ghost n8 = result@.len();

        // Castle moves.
        let root_rank = color.root_rank();
        let ghost mut king_side_at: int = -1;
        let ghost mut queen_side_at: int = -1;
        if position.rank() == root_rank && position.file() == 4 {
            let f5 = Position::new_unchecked(5, root_rank);
            let f6 = Position::new_unchecked(6, root_rank);
            let f7 = Position::new_unchecked(7, root_rank);
            if board.piece_at(&f5).is_none() && board.piece_at(&f6).is_none() {
                if let Some(piece) = board.piece_at(&f7) {
                    if piece.piece_type() == PieceType::Rook && piece.color() == color {
                        proof {
                            king_side_at = result@.len() as int;
                        }
                        result.push(Move::new(*position, f6, MoveType::Castle));
                    }
                }
            }
            let f1 = Position::new_unchecked(1, root_rank);
            let f2 = Position::new_unchecked(2, root_rank);
            let f3 = Position::new_unchecked(3, root_rank);
            let f0 = Position::new_unchecked(0, root_rank);
            if board.piece_at(&f1).is_none() && board.piece_at(&f2).is_none() && board.piece_at(
                &f3,
            ).is_none() {
                if let Some(piece) = board.piece_at(&f0) {
                    if piece.piece_type() == PieceType::Rook && piece.color() == color {
                        proof {
                            queen_side_at = result@.len() as int;
                        }
                        result.push(Move::new(*position, f2, MoveType::Castle));
                    }
                }
            }
        }
        proof {
            if friendly_attacks {
                assert forall|t: Position|
                    t.wf() && (king_step(*position, t) || castle_emission(
                        self.game@.board,
                        color,
                        *position,
                        t,
                    )) implies exists|k: int| 0 <= k < result@.len() && (#[trigger] result@[k]).to
                    == t by {
                    if king_step(*position, t) {
                        if t.x == position.x - 1 && t.y == position.y - 1 {
                            assert(result@[n1 - 1].to == t);
                        } else if t.x == position.x - 1 && t.y == position.y {
                            assert(result@[n2 - 1].to == t);
                        } else if t.x == position.x - 1 && t.y == position.y + 1 {
                            assert(result@[n3 - 1].to == t);
                        } else if t.x == position.x && t.y == position.y - 1 {
                            assert(result@[n4 - 1].to == t);
                        } else if t.x == position.x && t.y == position.y + 1 {
                            assert(result@[n5 - 1].to == t);
                        } else if t.x == position.x + 1 && t.y == position.y - 1 {
                            assert(result@[n6 - 1].to == t);
                        } else if t.x == position.x + 1 && t.y == position.y {
                            assert(result@[n7 - 1].to == t);
                        } else {
                            assert(result@[n8 - 1].to == t);
                        }
                    } else {
                        if t.x == 6 {
                            assert(result@[king_side_at].to == t);
                        } else {
                            assert(result@[queen_side_at].to == t);
                        }
                    }
                }
            }
        }
        result
    }


    /// The two diagonal squares a pawn of `color` threatens from
    /// `position`, as quiet-tagged marker moves for threat accounting.
    pub fn pawn_possible_attacking_moves(&self, position: &Position, color: Color) -> (r: Vec<
        Move,
    >)
        requires
            position.wf(),
        ensures
            forall|k: int|
                0 <= k < r@.len() ==> {
                    let m = #[trigger] r@[k];
                    &&& m.from == *position
                    &&& m.to.wf()
                    &&& pawn_strike(*position, color, m.to)
                },
            forall|t: Position|
                t.wf() && pawn_strike(*position, color, t) ==> exists|k: int|
                    0 <= k < r@.len() && (#[trigger] r@[k]).to == t,
    {
        let dir = color.board_direction();
        let mut res: Vec<Move> = Vec::new();
        if let Some(new_pos) = position.offset(-1, dir) {
            res.push(Move::new(*position, new_pos, MoveType::Quiet));
        }
        if let Some(new_pos) = position.offset(1, dir) {
            res.push(Move::new(*position, new_pos, MoveType::Quiet));
        }
        proof {
            assert forall|t: Position|
                t.wf() && pawn_strike(*position, color, t) implies exists|k: int|
                0 <= k < res@.len() && (#[trigger] res@[k]).to == t by {
                if t.x == position.x - 1 {
                    assert(res@[0].to == t);
                } else {
                    assert(res@[res@.len() - 1].to == t);
                }
            }
        }
        res
    }

    /// All pseudo-legal pawn moves: single pushes, double pushes off the
    /// home rank, diagonal captures, the en-passant capture against the
    /// game's current target, and all four promotion variants on reaching
    /// the back rank.
    pub fn pawn_pseudo_legal_moves(&self, position: &Position, color: Color) -> (r: Vec<Move>)
        requires
            self.game.wf(),
            position.wf(),
        ensures
            forall|k: int|
                0 <= k < r@.len() ==> {
                    let m = #[trigger] r@[k];
                    &&& m.from == *position
                    &&& m.to.wf()
                    &&& !(m.move_type is Castle)
                    &&& (self.game@.board[position.idx()] == Some(
                        Piece { kind: PieceType::Pawn, color },
                    ) && color == self.game@.turn ==> move_compatible_for(
                        self.game@.board,
                        color,
                        m,
                    ))
                },
    {
        let board = self.game.board();
        let mut result: Vec<Move> = Vec::new();
        let dir = color.board_direction();
        let opposite_root = color.opposite().root_rank();

        // Single and double step forward.
        if let Some(new_pos) = position.offset(0, dir) {
            if board.piece_at(&new_pos).is_none() {
                if new_pos.rank() == opposite_root {
                    result.push(
                        Move::new(
                            *position,
                            new_pos,
                            MoveType::PromotionQuite(PromotionType::Queen),
                        ),
                    );
                    result.push(
                        Move::new(*position, new_pos, MoveType::PromotionQuite(PromotionType::Rook)),
                    );
                    result.push(
                        Move::new(
                            *position,
                            new_pos,
                            MoveType::PromotionQuite(PromotionType::Knight),
                        ),
                    );
                    result.push(
                        Move::new(
                            *position,
                            new_pos,
                            MoveType::PromotionQuite(PromotionType::Bishop),
                        ),
                    );
                } else {
                    result.push(Move::new(*position, new_pos, MoveType::Quiet));
                }
                if position.rank() == color.pawn_rank() {
                    if let Some(double_pos) = position.offset(0, 2 * dir) {
                        if board.piece_at(&double_pos).is_none() {
                            result.push(
                                Move::new(
                                    *position,
                                    double_pos,
                                    MoveType::DoublePawnPush(new_pos),
                                ),
                            );
                        }
                    }
                }
            }
        }

        // Diagonal captures, promoting on the back rank.
        let mut dx: i8 = -1;
        while dx <= 1
            invariant
                self.game.wf(),
                board.wf(),
                board@ == self.game@.board,
                position.wf(),
                dir == color.spec_board_direction(),
                opposite_root == color.spec_opposite().spec_root_rank(),
                -1 <= dx <= 3,
                dx == -1 || dx == 1 || dx == 3,
                forall|k: int|
                    0 <= k < result@.len() ==> {
                        let m = #[trigger] result@[k];
                        &&& m.from == *position
                        &&& m.to.wf()
                        &&& !(m.move_type is Castle)
                        &&& (self.game@.board[position.idx()] == Some(
                            Piece { kind: PieceType::Pawn, color },
                        ) && color == self.game@.turn ==> move_compatible_for(
                            self.game@.board,
                            color,
                            m,
                        ))
                    },
            decreases 3 - dx,
        {
            if let Some(new_pos) = position.offset(dx, dir) {
                if let Some(target) = board.piece_at(&new_pos) {
                    let target = *target;
                    if target.color() != color {
                        if new_pos.rank() == opposite_root {
                            result.push(
                                Move::new(
                                    *position,
                                    new_pos,
                                    MoveType::PromotionCapture(
                                        PromotionType::Queen,
                                        target.piece_type(),
                                    ),
                                ),
                            );
                            result.push(
                                Move::new(
                                    *position,
                                    new_pos,
                                    MoveType::PromotionCapture(
                                        PromotionType::Rook,
                                        target.piece_type(),
                                    ),
                                ),
                            );
                            result.push(
                                Move::new(
                                    *position,
                                    new_pos,
                                    MoveType::PromotionCapture(
                                        PromotionType::Knight,
                                        target.piece_type(),
                                    ),
                                ),
                            );
                            result.push(
                                Move::new(
                                    *position,
                                    new_pos,
                                    MoveType::PromotionCapture(
                                        PromotionType::Bishop,
                                        target.piece_type(),
                                    ),
                                ),
                            );
                        } else {
                            result.push(
                                Move::new(
                                    *position,
                                    new_pos,
                                    MoveType::Capture(target.piece_type()),
                                ),
                            );
                        }
                    }
                }
            }
            dx = dx + 2;
        }

        // En-passant capture against the current target square.
        if let Some(en_passent) = self.game.en_passent_field() {
            if let Some(new_pos) = position.offset(-1, dir) {
                if new_pos.file() == en_passent.file() && new_pos.rank() == en_passent.rank() {
                    result.push(Move::new(*position, en_passent, MoveType::EnPassantCapture));
                }
            }
            if let Some(new_pos) = position.offset(1, dir) {
                if new_pos.file() == en_passent.file() && new_pos.rank() == en_passent.rank() {
                    result.push(Move::new(*position, en_passent, MoveType::EnPassantCapture));
                }
            }
        }

        result
    }

    /// The legality filter for one candidate move, judged for the side of
    /// the piece on the origin square: pins, check evasion, king safety,
    /// castling rights and transit, and the en-passant exposure scan, all
    /// as `legal_spec` states them.
    fn is_move_legal(&self, mov: &Move) -> (r: bool)
        requires
            self.game.wf(),
            mov.from.wf(),
            mov.to.wf(),
            mov.move_type is Castle ==> mov.from.x == 4 && (mov.to.x == 2 || mov.to.x == 6),
        ensures
            r == legal_spec(self.game@, self.game.spec_bitboards(), *mov),
    {
        let ghost g = self.game@;
        let ghost bbg = self.game.spec_bitboards();
        let board = self.game.board();
        let piece_to_move = match board.piece_at(&mov.from) {
            Some(p) => *p,
            None => {
                return false;
            },
        };
        let to_move_color = piece_to_move.color();
        let opp = to_move_color.opposite();
        let bb = self.game.bitboards();
        let enemy_attacks = bb.attacks(opp);

        // Pinned pieces may only move along their own pin ray.
        let pinned = bb.pinned(to_move_color);
        let mut i: usize = 0;
        while i < pinned.len()
            invariant
                mov.from.wf(),
                mov.to.wf(),
                i <= pinned@.len(),
                g == self.game@,
                bbg == self.game.spec_bitboards(),
                g.board[mov.from.idx()] == Some(piece_to_move),
                to_move_color == piece_to_move.color,
                pinned@ == bbg.spec_pinned(to_move_color),
                forall|j: int|
                    0 <= j < i && bit64(#[trigger] pinned@[j].0, mov.from.idx()) ==> bit64(
                        pinned@[j].0,
                        mov.to.idx(),
                    ),
            decreases pinned@.len() - i,
        {
            if pinned[i].contains(&mov.from) && !pinned[i].contains(&mov.to) {
                proof {
                    assert(bit64(bbg.spec_pinned(to_move_color)[i as int].0, mov.from.idx()));
                    assert(!pin_ok(bbg, to_move_color, *mov));
                    assert(!legal_spec(g, bbg, *mov));
                }
                return false;
            }
            i += 1;
        }

        // In check: the king must leave the attacked squares; any other
        // piece must land on the single check-block mask.
        let king_pos = bb.king(to_move_color);
        proof {
            assert(king_pos.wf());
        }
        if enemy_attacks.contains(&king_pos) {
            if piece_to_move.piece_type() == PieceType::King {
                if enemy_attacks.contains(&mov.to) {
                    return false;
                }
            } else {
                let blockable = bb.blockable_checks(to_move_color);
                if blockable.len() != 1 {
                    return false;
                }
                if !blockable[0].contains(&mov.to) {
                    return false;
                }
            }
        }

        // A king never steps onto an attacked square; a castle further
        // needs its right and an unattacked start, transit and landing.
        if piece_to_move.piece_type() == PieceType::King {
            if enemy_attacks.contains(&mov.to) {
                return false;
            }
            if mov.move_type.is_castle() {
                let castle_dir: i8 = if mov.to.file() > mov.from.file() {
                    1
                } else {
                    -1
                };
                if castle_dir == -1 && !self.game.castle_rights(to_move_color).queen_side() {
                    return false;
                }
                if castle_dir == 1 && !self.game.castle_rights(to_move_color).king_side() {
                    return false;
                }
                let root_rank = to_move_color.root_rank();
                let x1: u8 = if castle_dir == 1 {
                    5
                } else {
                    3
                };
                let x2: u8 = if castle_dir == 1 {
                    6
                } else {
                    2
                };
                let p0 = Position::new_unchecked(mov.from.file(), root_rank);
                let p1 = Position::new_unchecked(x1, root_rank);
                let p2 = Position::new_unchecked(x2, root_rank);
                if enemy_attacks.contains(&p0) || enemy_attacks.contains(&p1)
                    || enemy_attacks.contains(&p2) {
                    return false;
                }
            }
        }

        // En-passant exposure: the capture removes two pawns from one
        // rank at once, which the pin rays cannot see. Scan each enemy
        // rook that shares the king's rank with the capturing pawn.
        if mov.move_type.is_en_passant() {
            if king_pos.rank() == mov.from.rank() {
                let pawn_dir: i8 = if king_pos.file() > mov.from.file() {
                    1
                } else {
                    -1
                };
                let rooks = bb.rooks(opp);
                let mut ri: usize = 0;
                while ri < 64
                    invariant
                        self.game.wf(),
                        g == self.game@,
                        bbg == self.game.spec_bitboards(),
                        board.wf(),
                        board@ == g.board,
                        mov.from.wf(),
                        mov.to.wf(),
                        king_pos == bbg.spec_king(to_move_color),
                        king_pos.wf(),
                        king_pos.y == mov.from.y,
                        g.board[mov.from.idx()] == Some(piece_to_move),
                        to_move_color == piece_to_move.color,
                        mov.move_type is EnPassantCapture,
                        rooks == bbg.spec_kind_set(PieceType::Rook, opp),
                        opp == to_move_color.spec_opposite(),
                        pawn_dir as int == (if king_pos.x > mov.from.x { 1int } else { -1 }),
                        ri <= 64,
                        forall|rj: int|
                            0 <= rj < ri ==> !(bit64(#[trigger] rooks.0, rj) && ep_rook_exposes(
                                g.board,
                                king_pos,
                                *mov,
                                rj,
                            )),
                    decreases 64 - ri,
                {
                    if (rooks.0 >> ri) & 1u64 == 1u64 {
                        let rook_pos = Position::from_board_index_unchecked(ri);
                        proof {
                            assert(rook_pos.y * 8 + rook_pos.x == ri);
                            assert(rook_pos.y == ri as int / 8 && rook_pos.x == ri as int % 8);
                        }
                        if rook_pos.rank() == mov.from.rank() {
                            let rook_dir: i8 = if mov.from.file() > rook_pos.file() {
                                1
                            } else {
                                -1
                            };
                            if rook_dir == pawn_dir {
                                // Walk from the rook toward the king,
                                // counting the pawns in the way.
                                let mut cur = rook_pos;
                                let mut found: u32 = 0;
                                while cur.file() != king_pos.file() && found <= 2
                                    invariant
                                        board.wf(),
                                        board@ == g.board,
                                        king_pos.wf(),
                                        cur.wf(),
                                        cur.y == rook_pos.y,
                                        king_pos.y == rook_pos.y,
                                        rook_dir == pawn_dir,
                                        (rook_dir == 1 ==> rook_pos.x <= cur.x <= king_pos.x),
                                        (rook_dir == -1 ==> king_pos.x <= cur.x <= rook_pos.x),
                                        rook_dir as int == (if king_pos.x > mov.from.x {
                                            1int
                                        } else {
                                            -1
                                        }),
                                        found <= 3,
                                        found + pawn_count_walk(
                                            g.board,
                                            rook_pos.y as int,
                                            cur.x as int,
                                            king_pos.x as int,
                                        ) == pawn_count_walk(
                                            g.board,
                                            rook_pos.y as int,
                                            rook_pos.x as int,
                                            king_pos.x as int,
                                        ),
                                    decreases (
                                    if rook_dir == 1 {
                                        king_pos.x as int - cur.x as int
                                    } else {
                                        cur.x as int - king_pos.x as int
                                    }
                                ),
                                {
                                    proof {
                                        lemma_pawn_count_walk_nonneg(
                                            g.board,
                                            rook_pos.y as int,
                                            cur.x as int,
                                            king_pos.x as int,
                                        );
                                    }
                                    let is_pawn = match board.piece_at(&cur) {
                                        Some(p) => p.piece_type() == PieceType::Pawn,
                                        None => false,
                                    };
                                    if is_pawn {
                                        found = found + 1;
                                    }
                                    cur = cur.offset(rook_dir, 0).unwrap();
                                }
                                proof {
                                    lemma_pawn_count_walk_nonneg(
                                        g.board,
                                        rook_pos.y as int,
                                        cur.x as int,
                                        king_pos.x as int,
                                    );
                                }
                                if found == 2 {
                                    proof {
                                        assert(cur.x == king_pos.x);
                                        assert(ep_rook_exposes(g.board, king_pos, *mov, ri as int));
                                        assert(bit64(
                                            bbg.spec_kind_set(
                                                PieceType::Rook,
                                                to_move_color.spec_opposite(),
                                            ).0,
                                            ri as int,
                                        ));
                                        assert(!ep_ok(g.board, bbg, to_move_color, *mov));
                                        assert(!legal_spec(g, bbg, *mov));
                                    }
                                    return false;
                                }
                            }
                        }
                    }
                    ri += 1;
                }
            }
        }

        true
    }

    /// All legal moves of the piece at `position`: the pseudo-legal moves
    /// that pass the legality filter.
    pub fn legal_moves(&self, position: &Position) -> (r: Vec<Move>)
        requires
            self.game.wf(),
            position.wf(),
        ensures
            forall|k: int|
                0 <= k < r@.len() ==> {
                    let m = #[trigger] r@[k];
                    &&& m.from == *position
                    &&& m.to.wf()
                    &&& legal_spec(self.game@, self.game.spec_bitboards(), m)
                    &&& (origin_held(self.game@.board, *position, self.game@.turn)
                        ==> move_compatible_for(self.game@.board, self.game@.turn, m))
                },
    {
        let pseudo = self.pseudo_legal_moves(position);
        let mut result: Vec<Move> = Vec::new();
        let mut i: usize = 0;
        while i < pseudo.len()
            invariant
                self.game.wf(),
                position.wf(),
                i <= pseudo@.len(),
                forall|k: int|
                    0 <= k < pseudo@.len() ==> {
                        let m = #[trigger] pseudo@[k];
                        &&& m.from == *position
                        &&& m.to.wf()
                        &&& (m.move_type is Castle ==> m.from.x == 4 && (m.to.x == 2 || m.to.x
                            == 6))
                        &&& (origin_held(self.game@.board, *position, self.game@.turn)
                            ==> move_compatible_for(self.game@.board, self.game@.turn, m))
                    },
                forall|k: int|
                    0 <= k < result@.len() ==> {
                        let m = #[trigger] result@[k];
                        &&& m.from == *position
                        &&& m.to.wf()
                        &&& legal_spec(self.game@, self.game.spec_bitboards(), m)
                        &&& (origin_held(self.game@.board, *position, self.game@.turn)
                            ==> move_compatible_for(self.game@.board, self.game@.turn, m))
                    },
            decreases pseudo@.len() - i,
        {
            let m = pseudo[i];
            if self.is_move_legal(&m) {
                result.push(m);
            }
            i += 1;
        }
        result
    }

    /// All legal moves of every piece of the given side.
    pub fn all_legal_moves(&self, color: Color) -> (r: Vec<Move>)
        requires
            self.game.wf(),
        ensures
            forall|k: int|
                0 <= k < r@.len() ==> {
                    let m = #[trigger] r@[k];
                    &&& m.from.wf()
                    &&& m.to.wf()
                    &&& origin_held(self.game@.board, m.from, color)
                    &&& legal_spec(self.game@, self.game.spec_bitboards(), m)
                    &&& (color == self.game@.turn ==> move_compatible_for(
                        self.game@.board,
                        color,
                        m,
                    ))
                },
    {
        let pieces = self.game.bitboards().pieces(color);
        let mut result: Vec<Move> = Vec::new();
        let mut i: usize = 0;
        while i < 64
            invariant
                self.game.wf(),
                i <= 64,
                pieces == self.game.spec_bitboards().spec_pieces(color),
                forall|k: int|
                    0 <= k < result@.len() ==> {
                        let m = #[trigger] result@[k];
                        &&& m.from.wf()
                        &&& m.to.wf()
                        &&& origin_held(self.game@.board, m.from, color)
                        &&& legal_spec(self.game@, self.game.spec_bitboards(), m)
                        &&& (color == self.game@.turn ==> move_compatible_for(
                            self.game@.board,
                            color,
                            m,
                        ))
                    },
            decreases 64 - i,
        {
            if (pieces.0 >> i) & 1u64 == 1u64 {
                let pos = Position::from_board_index_unchecked(i);
                let moves = self.legal_moves(&pos);
                let mut j: usize = 0;
                proof {
                    assert(crate::bitboards::occ_cell(
                        self.game.spec_bitboards(),
                        self.game@.board,
                        i as int,
                    ));
                }
                while j < moves.len()
                    invariant
                        self.game.wf(),
                        pos.wf(),
                        pos.idx() == i as int,
                        origin_held(self.game@.board, pos, color),
                        j <= moves@.len(),
                        forall|k: int|
                            0 <= k < moves@.len() ==> {
                                let m = #[trigger] moves@[k];
                                &&& m.from == pos
                                &&& m.to.wf()
                                &&& legal_spec(self.game@, self.game.spec_bitboards(), m)
                                &&& (origin_held(self.game@.board, pos, self.game@.turn)
                                    ==> move_compatible_for(
                                    self.game@.board,
                                    self.game@.turn,
                                    m,
                                ))
                            },
                        forall|k: int|
                            0 <= k < result@.len() ==> {
                                let m = #[trigger] result@[k];
                                &&& m.from.wf()
                                &&& m.to.wf()
                                &&& origin_held(self.game@.board, m.from, color)
                                &&& legal_spec(self.game@, self.game.spec_bitboards(), m)
                                &&& (color == self.game@.turn ==> move_compatible_for(
                                    self.game@.board,
                                    color,
                                    m,
                                ))
                            },
                    decreases moves@.len() - j,
                {
                    result.push(moves[j]);
                    j += 1;
                }
            }
            i += 1;
        }
        result
    }

    /// All squares a piece at `position` threatens, as moves. King rays of
    /// the other side are walked through, and protected friendly pieces
    /// count as threatened, so this feeds the attack sets used for king
    /// safety.
    pub fn possible_attacking_moves(&self, position: &Position) -> (r: Vec<Move>)
        requires
            self.game.board_len_ok(),
            position.wf(),
        ensures
            forall|k: int|
                0 <= k < r@.len() ==> {
                    let m = #[trigger] r@[k];
                    &&& m.from == *position
                    &&& m.from.wf()
                    &&& m.to.wf()
                    &&& (self.game@.board[position.idx()] matches Some(p) ==> piece_attacks(
                        self.game@.board,
                        p,
                        *position,
                        m.to,
                    ))
                },
            self.game@.board[position.idx()] matches Some(p) ==> forall|t: Position|
                t.wf() && piece_attacks(self.game@.board, p, *position, t) ==> exists|k: int|
                    0 <= k < r@.len() && (#[trigger] r@[k]).to == t,
    {
        let board = self.game.board();
        let piece = match board.piece_at(position) {
            Some(p) => *p,
            None => {
                return Vec::new();
            },
        };
        match piece.piece_type() {
            PieceType::Pawn => self.pawn_possible_attacking_moves(position, piece.color()),
            PieceType::Knight => self.knight_pseudo_legal_moves(position, piece.color(), true),
            PieceType::Bishop => self.bishop_pseudo_legal_moves(position, piece.color(), true),
            PieceType::Rook => self.rook_pseudo_legal_moves(position, piece.color(), true),
            PieceType::Queen => self.queen_pseudo_legal_moves(position, piece.color(), true),
            PieceType::King => self.king_pseudo_legal_moves(position, piece.color(), true),
        }
    }

    /// All pseudo-legal moves of the piece at `position`: every move its
    /// kind allows against the board, before the legality filter.
    pub fn pseudo_legal_moves(&self, position: &Position) -> (r: Vec<Move>)
        requires
            self.game.wf(),
            position.wf(),
        ensures
            forall|k: int|
                0 <= k < r@.len() ==> {
                    let m = #[trigger] r@[k];
                    &&& m.from == *position
                    &&& m.to.wf()
                    &&& (m.move_type is Castle ==> m.from.x == 4 && (m.to.x == 2 || m.to.x == 6))
                    &&& (origin_held(self.game@.board, *position, self.game@.turn)
                        ==> move_compatible_for(self.game@.board, self.game@.turn, m))
                },
    {
        let board = self.game.board();
        let piece = match board.piece_at(position) {
            Some(p) => *p,
            None => {
                return Vec::new();
            },
        };
        match piece.piece_type() {
            PieceType::Pawn => self.pawn_pseudo_legal_moves(position, piece.color()),
            PieceType::Knight => self.knight_pseudo_legal_moves(position, piece.color(), false),
            PieceType::Bishop => self.bishop_pseudo_legal_moves(position, piece.color(), false),
            PieceType::Rook => self.rook_pseudo_legal_moves(position, piece.color(), false),
            PieceType::Queen => self.queen_pseudo_legal_moves(position, piece.color(), false),
            PieceType::King => self.king_pseudo_legal_moves(position, piece.color(), false),
        }
    }
}

/// Check-evasion completeness: in a position where the moving side's
/// king square is genuinely attacked, the cache records exactly one
/// check-block mask and every legal move of a piece other than the king
/// lands inside it; a piece none of whose moves reach the mask therefore
/// has no legal move at all.
pub proof fn lemma_check_evasion_within_mask(g: GameModel, bb: GameBitBoards, p: Piece, m: Move)
    requires
        attacks_complete(bb, g.board),
        g.board[m.from.idx()] == Some(p),
        p.kind != PieceType::King,
        square_attacked(g.board, p.color.spec_opposite(), bb.spec_king(p.color).idx()),
        legal_spec(g, bb, m),
    ensures
        in_check_spec(bb, p.color),
        bb.spec_checks(p.color).len() == 1,
        bit64(bb.spec_checks(p.color)[0].0, m.to.idx()),
{
    if p.color == Color::White {
        assert(square_attacked(g.board, Color::Black, bb.spec_king(Color::White).idx()));
    } else {
        assert(square_attacked(g.board, Color::White, bb.spec_king(Color::Black).idx()));
    }
}

} // verus!
