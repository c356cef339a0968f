use vstd::prelude::*;

use crate::bitboards::{kings_consistent, occupancy_consistent, GameBitBoards};
use crate::board::Board;
use crate::color::Color;
use crate::errors::InvalidMove;
use crate::moves::{Move, MoveType};
use crate::piece::Piece;
use crate::piece_type::PieceType;
use crate::position::Position;

verus! {

/// One undo record: the move made, both sides' castling rights and the
/// en-passant target as they stood just before the move.
pub type UndoEntry = (Move, CastleRights, CastleRights, Option<Position>);

/// The castling options still open to one side.
#[derive(Debug, Clone, Copy, PartialEq, Eq, Structural)]
pub enum CastleRights {
    Neither,
    KingSide,
    QueenSide,
    Both,
}

impl CastleRights {
    pub open spec fn spec_remove_king_side(self) -> CastleRights {
        match self {
            CastleRights::KingSide => CastleRights::Neither,
            CastleRights::Both => CastleRights::QueenSide,
            _ => self,
        }
    }

    pub open spec fn spec_remove_queen_side(self) -> CastleRights {
        match self {
            CastleRights::QueenSide => CastleRights::Neither,
            CastleRights::Both => CastleRights::KingSide,
            _ => self,
        }
    }

    pub open spec fn spec_king_side(self) -> bool {
        self == CastleRights::KingSide || self == CastleRights::Both
    }

    pub open spec fn spec_queen_side(self) -> bool {
        self == CastleRights::QueenSide || self == CastleRights::Both
    }

    /// Revokes the king-side option, keeping the queen-side one if held.
    pub fn remove_king_side(&mut self)
        ensures
            *final(self) == old(self).spec_remove_king_side(),
    {
        match self {
            CastleRights::KingSide => *self = CastleRights::Neither,
            CastleRights::Both => *self = CastleRights::QueenSide,
            _ => {}
        }
    }

    /// Revokes the queen-side option, keeping the king-side one if held.
    pub fn remove_queen_side(&mut self)
        ensures
            *final(self) == old(self).spec_remove_queen_side(),
    {
        match self {
            CastleRights::QueenSide => *self = CastleRights::Neither,
            CastleRights::Both => *self = CastleRights::KingSide,
            _ => {}
        }
    }

    /// Revokes both options.
    pub fn remove_both(&mut self)
        ensures
            *final(self) == CastleRights::Neither,
    {
        *self = CastleRights::Neither;
    }

    pub fn queen_side(&self) -> (r: bool)
        ensures
            r == self.spec_queen_side(),
    {
        matches!(self, CastleRights::QueenSide | CastleRights::Both)
    }

    pub fn king_side(&self) -> (r: bool)
        ensures
            r == self.spec_king_side(),
    {
        matches!(self, CastleRights::KingSide | CastleRights::Both)
    }

    /// The letters these rights print as in a position record,
    /// upper case for white and lower case for black.
    pub fn to_string(&self, color: Color) -> (r: &'static str)
        ensures
            r@ == self.spec_text(color),
    {
        match (self, color) {
            (CastleRights::Neither, _) => "-",
            (CastleRights::KingSide, Color::White) => "K",
            (CastleRights::KingSide, Color::Black) => "k",
            (CastleRights::QueenSide, Color::White) => "Q",
            (CastleRights::QueenSide, Color::Black) => "q",
            (CastleRights::Both, Color::White) => "KQ",
            (CastleRights::Both, Color::Black) => "kq",
        }
    }

    pub open spec fn spec_text(self, color: Color) -> Seq<char> {
        match (self, color) {
            (CastleRights::Neither, _) => "-"@,
            (CastleRights::KingSide, Color::White) => "K"@,
            (CastleRights::KingSide, Color::Black) => "k"@,
            (CastleRights::QueenSide, Color::White) => "Q"@,
            (CastleRights::QueenSide, Color::Black) => "q"@,
            (CastleRights::Both, Color::White) => "KQ"@,
            (CastleRights::Both, Color::Black) => "kq"@,
        }
    }

    /// The rights holding exactly the options named by the two flags.
    pub fn from_flags(king_side: bool, queen_side: bool) -> (r: CastleRights)
        ensures
            r == spec_rights_from_flags(king_side, queen_side),
            r.spec_king_side() == king_side,
            r.spec_queen_side() == queen_side,
    {
        match (king_side, queen_side) {
            (true, true) => CastleRights::Both,
            (true, false) => CastleRights::KingSide,
            (false, true) => CastleRights::QueenSide,
            (false, false) => CastleRights::Neither,
        }
    }
}

/// The rights holding exactly the options named by the two flags.
pub open spec fn spec_rights_from_flags(king_side: bool, queen_side: bool) -> CastleRights {
    if king_side && queen_side {
        CastleRights::Both
    } else if king_side {
        CastleRights::KingSide
    } else if queen_side {
        CastleRights::QueenSide
    } else {
        CastleRights::Neither
    }
}

/// The observable state of a game, together with its undo stack:
/// the mathematical model that the mutation contracts speak of.
/// The derived bitboard cache is not part of it.
#[verifier::ext_equal]
pub struct GameModel {
    pub board: Seq<Option<Piece>>,
    pub turn: Color,
    pub white_rights: CastleRights,
    pub black_rights: CastleRights,
    pub ep: Option<Position>,
    pub stack: Seq<UndoEntry>,
}

/// The linear index of the square on file `x` and rank `y`.
pub open spec fn sqi(x: int, y: int) -> int {
    y * 8 + x
}

/// The board after lifting whatever stands at index `f` onto index `t`.
pub open spec fn move_sq(b: Seq<Option<Piece>>, f: int, t: int) -> Seq<Option<Piece>> {
    b.update(f, None).update(t, b[f])
}

/// The square of the pawn taken by an en-passant capture landing on `to`,
/// made by the side `turn`.
pub open spec fn ep_victim_idx(turn: Color, to: Position) -> int {
    sqi(to.x as int, to.y - turn.spec_board_direction())
}

/// The board after the side `turn` makes the move `m`.
pub open spec fn apply_board(b: Seq<Option<Piece>>, turn: Color, m: Move) -> Seq<Option<Piece>> {
    let f = m.from.idx();
    let t = m.to.idx();
    match m.move_type {
        MoveType::Quiet => move_sq(b, f, t),
        MoveType::Capture(_) => move_sq(b, f, t),
        MoveType::DoublePawnPush(_) => move_sq(b, f, t),
        MoveType::Castle => {
            let r = turn.spec_root_rank() as int;
            let b1 = move_sq(b, f, t);
            if m.to.x == 6 {
                move_sq(b1, sqi(7, r), sqi(5, r))
            } else {
                move_sq(b1, sqi(0, r), sqi(3, r))
            }
        },
        MoveType::EnPassantCapture => move_sq(b, f, t).update(ep_victim_idx(turn, m.to), None),
        MoveType::PromotionQuite(p) => move_sq(b, f, t).update(
            t,
            Some(Piece { kind: p.spec_piece_type(), color: turn }),
        ),
        MoveType::PromotionCapture(p, _) => move_sq(b, f, t).update(
            t,
            Some(Piece { kind: p.spec_piece_type(), color: turn }),
        ),
    }
}

/// The rights left to the moving side after it moves a piece of kind
/// `kind` by `m`: a king move revokes both, a rook move off a home
/// corner revokes that corner's side.
pub open spec fn rights_after(r: CastleRights, turn: Color, m: Move, kind: PieceType) -> CastleRights {
    match kind {
        PieceType::King => CastleRights::Neither,
        PieceType::Rook => {
            if m.from == (Position { x: 0u8, y: turn.spec_root_rank() }) {
                r.spec_remove_queen_side()
            } else if m.from == (Position { x: 7u8, y: turn.spec_root_rank() }) {
                r.spec_remove_king_side()
            } else {
                r
            }
        },
        _ => r,
    }
}

/// Whether `m` names an origin square held by a piece of the side to move:
/// exactly the condition under which applying the move succeeds.
pub open spec fn move_applies(g: GameModel, m: Move) -> bool {
    match g.board[m.from.idx()] {
        Some(p) => p.color == g.turn,
        None => false,
    }
}

/// Whether the move `m`, made by the side `c`, is consistent with the board:
/// the mover stands on the origin, the destination and any victim square hold
/// what the move's tag records, and a castle finds its full layout. Moves the
/// generator emits satisfy this; it is what reversing the move relies on.
pub open spec fn move_compatible_for(b: Seq<Option<Piece>>, c: Color, m: Move) -> bool {
    let p = b[m.from.idx()].unwrap();
    &&& m.from.wf()
    &&& m.to.wf()
    &&& m.from != m.to
    &&& b[m.from.idx()] is Some
    &&& p.color == c
    &&& match m.move_type {
        MoveType::Quiet => b[m.to.idx()] is None,
        MoveType::Capture(pt) => (b[m.to.idx()] matches Some(q) && q.color != c && q.kind == pt),
        MoveType::DoublePawnPush(skip) => {
            &&& p.kind == PieceType::Pawn
            &&& skip.wf()
            &&& m.to.x == m.from.x && skip.x == m.from.x
            &&& m.from.y == c.spec_pawn_rank()
            &&& m.to.y == m.from.y + 2 * c.spec_board_direction()
            &&& skip.y == m.from.y + c.spec_board_direction()
            &&& b[m.to.idx()] is None
            &&& b[skip.idx()] is None
        },
        MoveType::EnPassantCapture => {
            &&& p.kind == PieceType::Pawn
            &&& (m.to.x == m.from.x + 1 || m.to.x == m.from.x - 1)
            &&& m.to.y == m.from.y + c.spec_board_direction()
            &&& b[m.to.idx()] is None
            &&& 0 <= ep_victim_idx(c, m.to) < 64
            &&& b[ep_victim_idx(c, m.to)] == Some(
                Piece { kind: PieceType::Pawn, color: c.spec_opposite() },
            )
        },
        MoveType::Castle => {
            let r = c.spec_root_rank() as int;
            &&& p.kind == PieceType::King
            &&& m.from == (Position { x: 4u8, y: c.spec_root_rank() })
            &&& m.to.y == c.spec_root_rank()
            &&& (m.to.x == 2 || m.to.x == 6)
            &&& if m.to.x == 6 {
                &&& b[sqi(5, r)] is None
                &&& b[sqi(6, r)] is None
                &&& b[sqi(7, r)] == Some(Piece { kind: PieceType::Rook, color: c })
            } else {
                &&& b[sqi(1, r)] is None
                &&& b[sqi(2, r)] is None
                &&& b[sqi(3, r)] is None
                &&& b[sqi(0, r)] == Some(Piece { kind: PieceType::Rook, color: c })
            }
        },
        MoveType::PromotionQuite(_) => {
            &&& p.kind == PieceType::Pawn
            &&& m.to.x == m.from.x
            &&& m.to.y == c.spec_opposite().spec_root_rank()
            &&& m.to.y == m.from.y + c.spec_board_direction()
            &&& b[m.to.idx()] is None
        },
        MoveType::PromotionCapture(_, pt) => {
            &&& p.kind == PieceType::Pawn
            &&& (m.to.x == m.from.x + 1 || m.to.x == m.from.x - 1)
            &&& m.to.y == c.spec_opposite().spec_root_rank()
            &&& m.to.y == m.from.y + c.spec_board_direction()
            &&& (b[m.to.idx()] matches Some(q) && q.color != c && q.kind == pt)
        },
    }
}

/// The whole game state after the side to move makes `m`.
pub open spec fn game_after_move(g: GameModel, m: Move) -> GameModel {
    let kind = g.board[m.from.idx()].unwrap().kind;
    GameModel {
        board: apply_board(g.board, g.turn, m),
        turn: g.turn.spec_opposite(),
        white_rights: if g.turn == Color::White {
            rights_after(g.white_rights, g.turn, m, kind)
        } else {
            g.white_rights
        },
        black_rights: if g.turn == Color::Black {
            rights_after(g.black_rights, g.turn, m, kind)
        } else {
            g.black_rights
        },
        ep: match m.move_type {
            MoveType::DoublePawnPush(skip) => Some(skip),
            _ => None,
        },
        stack: g.stack.push((m, g.white_rights, g.black_rights, g.ep)),
    }
}

/// The board after reversing the move `m`, where `turn` is the side to move
/// before the reversal (so `m` was made by its opponent).
pub open spec fn undo_board(b: Seq<Option<Piece>>, turn: Color, m: Move) -> Seq<Option<Piece>> {
    let mover = turn.spec_opposite();
    let f = m.from.idx();
    let t = m.to.idx();
    match m.move_type {
        MoveType::PromotionCapture(_, pt) => b.update(
            f,
            Some(Piece { kind: PieceType::Pawn, color: mover }),
        ).update(t, None).update(t, Some(Piece { kind: pt, color: turn })),
        MoveType::PromotionQuite(_) => b.update(
            f,
            Some(Piece { kind: PieceType::Pawn, color: mover }),
        ).update(t, None),
        MoveType::Castle => {
            let r = mover.spec_root_rank() as int;
            let b1 = move_sq(b, t, f);
            if m.to.x == 6 {
                move_sq(b1, sqi(5, r), sqi(7, r))
            } else {
                move_sq(b1, sqi(3, r), sqi(0, r))
            }
        },
        MoveType::Capture(pt) => move_sq(b, t, f).update(t, Some(Piece { kind: pt, color: turn })),
        MoveType::Quiet => move_sq(b, t, f),
        MoveType::DoublePawnPush(_) => move_sq(b, t, f),
        MoveType::EnPassantCapture => move_sq(b, t, f).update(
            sqi(m.to.x as int, m.to.y + turn.spec_board_direction()),
            Some(Piece { kind: PieceType::Pawn, color: turn }),
        ),
    }
}

/// The whole game state after reversing the most recent move.
/// With an empty undo stack the state is unchanged.
pub open spec fn game_after_unmake(g: GameModel) -> GameModel {
    if g.stack.len() == 0 {
        g
    } else {
        let e = g.stack.last();
        GameModel {
            board: undo_board(g.board, g.turn, e.0),
            turn: g.turn.spec_opposite(),
            white_rights: e.1,
            black_rights: e.2,
            ep: e.3,
            stack: g.stack.drop_last(),
        }
    }
}

/// What reversing a recorded move needs so that it cannot fail:
/// the squares it touches are on the board, and a castle record has the
/// geometry the reversal infers from its destination file. `turn` is the
/// side to move before the reversal.
pub open spec fn entry_undo_shape_ok(turn: Color, m: Move) -> bool {
    &&& m.from.wf()
    &&& m.to.wf()
    &&& (m.move_type is Castle ==> m.to.y == turn.spec_opposite().spec_root_rank() && (m.to.x == 2
        || m.to.x == 6))
    &&& (m.move_type is EnPassantCapture ==> 0 <= m.to.y + turn.spec_board_direction() < 8)
}

/// An en-passant target is coherent with the board: it names the square a
/// pawn of the side that just moved skipped, standing one rank behind it,
/// with the target square itself empty. `turn` is the side now to move.
pub open spec fn ep_target_ok(b: Seq<Option<Piece>>, turn: Color, t: Position) -> bool {
    &&& t.wf()
    &&& t.y == (if turn == Color::White { 5int } else { 2int })
    &&& b[t.idx()] is None
    &&& 0 <= ep_victim_idx(turn, t) < 64
    &&& b[ep_victim_idx(turn, t)] == Some(
        Piece { kind: PieceType::Pawn, color: turn.spec_opposite() },
    )
}

/// Every undo record on the stack can be reversed without failure, and
/// reversing them one by one always lands on states whose en-passant
/// target is coherent. `turn` is the side to move with `stack` in place.
pub open spec fn history_wf(b: Seq<Option<Piece>>, turn: Color, stack: Seq<UndoEntry>) -> bool
    decreases stack.len(),
{
    stack.len() == 0 || {
        let e = stack.last();
        &&& entry_undo_shape_ok(turn, e.0)
        &&& {
            let b0 = undo_board(b, turn, e.0);
            &&& (e.3 matches Some(t) ==> ep_target_ok(b0, turn.spec_opposite(), t))
            &&& history_wf(b0, turn.spec_opposite(), stack.drop_last())
        }
    }
}

impl GameModel {
    /// The game invariant: 64 squares, a coherent en-passant target,
    /// and a reversible history.
    pub open spec fn wf(self) -> bool {
        &&& self.board.len() == 64
        &&& (self.ep matches Some(t) ==> ep_target_ok(self.board, self.turn, t))
        &&& history_wf(self.board, self.turn, self.stack)
    }

    pub open spec fn rights_of(self, color: Color) -> CastleRights {
        match color {
            Color::White => self.white_rights,
            Color::Black => self.black_rights,
        }
    }
}

/// Reversibility of the board transformation: reversing a compatible move
/// restores the board square for square.
pub proof fn lemma_board_restore(b: Seq<Option<Piece>>, turn: Color, m: Move)
    requires
        b.len() == 64,
        move_compatible_for(b, turn, m),
    ensures
        undo_board(apply_board(b, turn, m), turn.spec_opposite(), m) =~= b,
{
    let a = apply_board(b, turn, m);
    let u = undo_board(a, turn.spec_opposite(), m);
    assert forall|i: int| 0 <= i < 64 implies u[i] == b[i] by {
        assert(m.from.idx() != m.to.idx()) by {
            if m.from.y == m.to.y {
                assert(m.from.x != m.to.x);
            }
        }
    }
}

/// The game: board, side to move, castling rights, en-passant target,
/// undo stack and the derived bitboard cache. Make and unmake are the
/// sole mutators.
#[derive(Debug)]
pub struct Game {
    current_turn: Color,
    board: Board,
    move_stack: Vec<UndoEntry>,
    bitboards: GameBitBoards,

    white_castle_rights: CastleRights,
    black_castle_rights: CastleRights,
    en_passent_field: Option<Position>,
}

impl View for Game {
    type V = GameModel;

    closed spec fn view(&self) -> GameModel {
        GameModel {
            board: self.board@,
            turn: self.current_turn,
            white_rights: self.white_castle_rights,
            black_rights: self.black_castle_rights,
            ep: self.en_passent_field,
            stack: self.move_stack@,
        }
    }
}

impl Game {
    /// The board grid holds its 64 slots.
    pub open spec fn board_len_ok(&self) -> bool {
        self@.board.len() == 64
    }

    /// The derived bitboard cache as last rebuilt.
    pub closed spec fn spec_bitboards(&self) -> GameBitBoards {
        self.bitboards
    }

    /// The game invariant: the model invariant holds, the cache's
    /// occupancy sets and king squares agree with the board, its attack
    /// sets mark exactly the threatened squares, every recorded pin ray
    /// and check-block mask has its sound shape, and every checking
    /// piece and every pinned piece has its mask recorded.
    pub open spec fn wf(&self) -> bool {
        &&& self@.wf()
        &&& occupancy_consistent(self.spec_bitboards(), self@.board)
        &&& kings_consistent(self.spec_bitboards(), self@.board)
        &&& crate::move_generation::attacks_sound(self.spec_bitboards(), self@.board)
        &&& crate::move_generation::attacks_complete(self.spec_bitboards(), self@.board)
        &&& crate::bitboards::masks_sound(self.spec_bitboards(), self@.board)
        &&& crate::bitboards::checks_complete(self.spec_bitboards(), self@.board)
        &&& crate::bitboards::pins_complete(self.spec_bitboards(), self@.board)
    }

    pub fn new(
        board: Board,
        current_turn: Color,
        white_castle_rights: CastleRights,
        black_castle_rights: CastleRights,
        en_passent_field: Option<Position>,
    ) -> (r: Self)
        requires
            board.wf(),
            en_passent_field matches Some(t) ==> ep_target_ok(board@, current_turn, t),
        ensures
            r.wf(),
            r@.board == board@,
            r@.turn == current_turn,
            r@.white_rights == white_castle_rights,
            r@.black_rights == black_castle_rights,
            r@.ep == en_passent_field,
            r@.stack.len() == 0,
    {
        let mut res = Self {
            board,
            current_turn,
            move_stack: Vec::new(),
            bitboards: GameBitBoards::empty(),
            white_castle_rights,
            black_castle_rights,
            en_passent_field,
        };
        let bb = GameBitBoards::new(&res);
        res.bitboards = bb;
        res
    }

    /// Whether the side to move stands in check: its king square is
    /// genuinely attacked by the other side, equivalently the cache's
    /// attack set marks it.
    pub fn is_in_check(&self) -> (r: bool)
        requires
            self.wf(),
        ensures
            r == crate::move_generation::in_check_spec(self.spec_bitboards(), self@.turn),
            r == crate::move_generation::square_attacked(
                self@.board,
                self@.turn.spec_opposite(),
                self.spec_bitboards().spec_king(self@.turn).idx(),
            ),
    {
        let king_position = self.bitboards.king(self.current_turn);
        let opponent_color = self.current_turn.opposite();
        let opponent_moves = self.bitboards.attacks(opponent_color);
        proof {
            assert(king_position.wf());
            let k = king_position.idx();
            match self.current_turn {
                Color::White => {
                    if crate::move_generation::square_attacked(self@.board, Color::Black, k) {
                        assert(crate::bitboards::bit64(self.bitboards.black_attacks.0, k));
                    }
                },
                Color::Black => {
                    if crate::move_generation::square_attacked(self@.board, Color::White, k) {
                        assert(crate::bitboards::bit64(self.bitboards.white_attacks.0, k));
                    }
                },
            }
        }
        opponent_moves.contains(&king_position)
    }

    /// Applies `mov` for the side to move: snapshots rights and the
    /// en-passant target onto the undo stack, revokes rights on king and
    /// corner-rook moves, performs the board change the move's tag calls
    /// for, flips the side to move and rebuilds the bitboard cache.
    /// Fails, leaving the game unchanged, exactly when the origin square
    /// does not hold a piece of the side to move.
    ///
    /// A move that applies must be consistent with the board, as the
    /// generator produces them: applying a move whose tag belies the
    /// board would silently break the reversibility the undo stack
    /// promises, so such a call is a contract violation, not an error.
    pub fn make_move(&mut self, mov: Move) -> (r: Result<(), InvalidMove>)
        requires
            old(self).wf(),
            mov.from.wf(),
            move_applies(old(self)@, mov) ==> move_compatible_for(
                old(self)@.board,
                old(self)@.turn,
                mov,
            ),
        ensures
            r is Ok <==> move_applies(old(self)@, mov),
            r is Ok ==> final(self)@ =~~= game_after_move(old(self)@, mov),
            r is Err ==> final(self)@ == old(self)@,
            final(self).wf(),
    {
        let piece_to_move = match self.board.piece_at(&mov.from) {
            Some(p) => *p,
            None => {
                return Err(InvalidMove::new());
            },
        };
        if piece_to_move.color() != self.current_turn {
            return Err(InvalidMove::new());
        }

        let ghost g0 = self@;

        // Snapshot for the undo stack, and reset the en-passant target.
        let cur_white = self.white_castle_rights;
        let cur_black = self.black_castle_rights;
        let cur_en_passent = self.en_passent_field;
        self.en_passent_field = None;

        // A king move revokes both rights; a rook leaving a home corner
        // revokes that corner's side.
        match piece_to_move.piece_type() {
            PieceType::King => {
                match self.current_turn {
                    Color::White => self.white_castle_rights.remove_both(),
                    Color::Black => self.black_castle_rights.remove_both(),
                }
            },
            PieceType::Rook => {
                let root = self.current_turn.root_rank();
                if mov.from.file() == 0 && mov.from.rank() == root {
                    match self.current_turn {
                        Color::White => self.white_castle_rights.remove_queen_side(),
                        Color::Black => self.black_castle_rights.remove_queen_side(),
                    }
                } else if mov.from.file() == 7 && mov.from.rank() == root {
                    match self.current_turn {
                        Color::White => self.white_castle_rights.remove_king_side(),
                        Color::Black => self.black_castle_rights.remove_king_side(),
                    }
                }
            },
            _ => {},
        }

        match &mov.move_type {
            MoveType::Castle => {
                let root_rank = self.current_turn.root_rank();
                if mov.to.file() == 6 {
                    self.board.make_move(&mov.from, &mov.to);
                    self.board.make_move(
                        &Position::new_unchecked(7, root_rank),
                        &Position::new_unchecked(5, root_rank),
                    );
                } else {
                    self.board.make_move(&mov.from, &mov.to);
                    self.board.make_move(
                        &Position::new_unchecked(0, root_rank),
                        &Position::new_unchecked(3, root_rank),
                    );
                }
            },
            MoveType::PromotionCapture(promotion_type, _) => {
                self.board.make_move(&mov.from, &mov.to);
                self.board.place_piece(
                    Piece::new(promotion_type.piece_type(), self.current_turn),
                    &mov.to,
                );
            },
            MoveType::PromotionQuite(promotion_type) => {
                self.board.make_move(&mov.from, &mov.to);
                self.board.place_piece(
                    Piece::new(promotion_type.piece_type(), self.current_turn),
                    &mov.to,
                );
            },
            MoveType::DoublePawnPush(pos) => {
                self.board.make_move(&mov.from, &mov.to);
                self.en_passent_field = Some(*pos);
            },
            MoveType::EnPassantCapture => {
                self.board.make_move(&mov.from, &mov.to);
                let direction = self.current_turn.board_direction();
                let victim = mov.to.offset(0, -direction).unwrap();
                self.board.remove_piece(&victim);
            },
            _ => {
                self.board.make_move(&mov.from, &mov.to);
            },
        }

        self.move_stack.push((mov, cur_white, cur_black, cur_en_passent));
        self.current_turn = self.current_turn.opposite();

        let bb = GameBitBoards::new(self);
        self.bitboards = bb;

        proof {
            let g1 = game_after_move(g0, mov);
            assert(self@.board =~= g1.board);
            assert(self@.stack =~= g1.stack);
            assert(self@ =~~= g1);
            // The new state still satisfies the invariant: the pushed
            // entry can be reversed, and reversing it lands on the old
            // board with its coherent en-passant target.
            lemma_board_restore(g0.board, g0.turn, mov);
            assert(undo_board(self@.board, self@.turn, mov) =~= g0.board);
            assert(self@.stack.drop_last() =~= g0.stack);
            assert(self@.stack.last() == (mov, g0.white_rights, g0.black_rights, g0.ep));
            assert(history_wf(self@.board, self@.turn, self@.stack));
            match mov.move_type {
                MoveType::DoublePawnPush(skip) => {
                    assert(ep_target_ok(self@.board, self@.turn, skip));
                },
                _ => {},
            }
        }
        Ok(())
    }

    /// Reverses the most recent move: pops its undo record, restores the
    /// board by the move's tag, restores the snapshotted rights and
    /// en-passant target, flips the side to move and rebuilds the cache.
    /// With an empty stack the game is left unchanged.
    pub fn unmake_move(&mut self)
        requires
            old(self).wf(),
        ensures
            final(self)@ =~~= game_after_unmake(old(self)@),
            final(self).wf(),
    {
        if self.move_stack.len() == 0 {
            return;
        }
        let ghost g0 = self@;
        let entry = self.move_stack.pop().unwrap();
        let (mov, white_castle, black_castle, en_passent) = entry;

        match mov.move_type {
            MoveType::PromotionCapture(_, piece_type) => {
                self.board.place_piece(
                    Piece::new(PieceType::Pawn, self.current_turn.opposite()),
                    &mov.from,
                );
                self.board.remove_piece(&mov.to);
                self.board.place_piece(Piece::new(piece_type, self.current_turn), &mov.to);
            },
            MoveType::PromotionQuite(_) => {
                self.board.place_piece(
                    Piece::new(PieceType::Pawn, self.current_turn.opposite()),
                    &mov.from,
                );
                self.board.remove_piece(&mov.to);
            },
            MoveType::Castle => {
                let root_rank = self.current_turn.opposite().root_rank();
                if mov.to.file() == 6 {
                    self.board.make_move(&mov.to, &mov.from);
                    self.board.make_move(
                        &Position::new_unchecked(5, root_rank),
                        &Position::new_unchecked(7, root_rank),
                    );
                } else {
                    self.board.make_move(&mov.to, &mov.from);
                    self.board.make_move(
                        &Position::new_unchecked(3, root_rank),
                        &Position::new_unchecked(0, root_rank),
                    );
                }
            },
            MoveType::Capture(piece_type) => {
                self.board.make_move(&mov.to, &mov.from);
                self.board.place_piece(Piece::new(piece_type, self.current_turn), &mov.to);
            },
            MoveType::Quiet => {
                self.board.make_move(&mov.to, &mov.from);
            },
            MoveType::DoublePawnPush(_) => {
                self.board.make_move(&mov.to, &mov.from);
            },
            MoveType::EnPassantCapture => {
                self.board.make_move(&mov.to, &mov.from);
                let direction = self.current_turn.board_direction();
                let victim = mov.to.offset(0, direction).unwrap();
                self.board.place_piece(Piece::new(PieceType::Pawn, self.current_turn), &victim);
            },
        }
        self.white_castle_rights = white_castle;
        self.black_castle_rights = black_castle;
        self.en_passent_field = en_passent;

        self.current_turn = self.current_turn.opposite();

        let bb = GameBitBoards::new(self);
        self.bitboards = bb;

        proof {
            let g1 = game_after_unmake(g0);
            assert(self@.board =~= g1.board);
            assert(self@.stack =~= g1.stack);
            assert(self@ =~~= g1);
        }
    }

    pub fn board(&self) -> (r: &Board)
        requires
            self.board_len_ok(),
        ensures
            r@ == self@.board,
            r.wf(),
    {
        &self.board
    }

    pub fn current_turn(&self) -> (r: Color)
        ensures
            r == self@.turn,
    {
        self.current_turn
    }

    pub fn bitboards(&self) -> (r: &GameBitBoards)
        ensures
            *r == self.spec_bitboards(),
    {
        &self.bitboards
    }

    pub fn white_castle_rights(&self) -> (r: CastleRights)
        ensures
            r == self@.white_rights,
    {
        self.white_castle_rights
    }

    pub fn black_castle_rights(&self) -> (r: CastleRights)
        ensures
            r == self@.black_rights,
    {
        self.black_castle_rights
    }

    pub fn castle_rights(&self, color: Color) -> (r: CastleRights)
        ensures
            r == self@.rights_of(color),
    {
        match color {
            Color::White => self.white_castle_rights(),
            Color::Black => self.black_castle_rights(),
        }
    }

    pub fn en_passent_field(&self) -> (r: Option<Position>)
        ensures
            r == self@.ep,
    {
        self.en_passent_field
    }

    /// The most recently made move still on the undo stack.
    pub fn last_move(&self) -> (r: Option<Move>)
        ensures
            r == (if self@.stack.len() == 0 {
                None::<Move>
            } else {
                Some(self@.stack.last().0)
            }),
    {
        let n = self.move_stack.len();
        if n == 0 {
            None
        } else {
            Some(self.move_stack[n - 1].0)
        }
    }

    /// Every move on the undo stack, oldest first.
    pub fn move_stack(&self) -> (r: Vec<Move>)
        ensures
            r@.len() == self@.stack.len(),
            forall|i: int| 0 <= i < r@.len() ==> r@[i] == self@.stack[i].0,
    {
        let mut r: Vec<Move> = Vec::new();
        let mut i: usize = 0;
        while i < self.move_stack.len()
            invariant
                i <= self.move_stack@.len(),
                r@.len() == i,
                forall|j: int| 0 <= j < i ==> r@[j] == self.move_stack@[j].0,
            decreases self.move_stack@.len() - i,
        {
            r.push(self.move_stack[i].0);
            i += 1;
        }
        r
    }
}

impl Clone for Game {
    /// A copy with the same observable state, history and cache.
    fn clone(&self) -> (r: Self)
        ensures
            r@ == self@,
            crate::bitboards::cache_eq(r.spec_bitboards(), self.spec_bitboards()),
            self.wf() ==> r.wf(),
    {
        let r = Game {
            current_turn: self.current_turn,
            board: self.board.clone(),
            move_stack: clone_stack(&self.move_stack),
            bitboards: self.bitboards.clone(),
            white_castle_rights: self.white_castle_rights,
            black_castle_rights: self.black_castle_rights,
            en_passent_field: self.en_passent_field,
        };
        proof {
            assert(r@ =~~= self@);
            if self.wf() {
                assert forall|i: int| 0 <= i < 64 implies #[trigger] crate::bitboards::occ_cell(
                    r.spec_bitboards(),
                    r@.board,
                    i,
                ) by {
                    assert(crate::bitboards::occ_cell(self.spec_bitboards(), self@.board, i));
                }
                assert forall|i: int|
                    #[trigger] crate::bitboards::unique_king_at(
                        r@.board,
                        Color::White,
                        i,
                    ) implies r.spec_bitboards().white_king.idx() == i by {
                    assert(crate::bitboards::unique_king_at(self@.board, Color::White, i));
                }
                assert forall|i: int|
                    #[trigger] crate::bitboards::unique_king_at(
                        r@.board,
                        Color::Black,
                        i,
                    ) implies r.spec_bitboards().black_king.idx() == i by {
                    assert(crate::bitboards::unique_king_at(self@.board, Color::Black, i));
                }
                assert forall|k: int|
                    #[trigger] crate::bitboards::bit64(
                        r.spec_bitboards().spec_attacks(Color::White).0,
                        k,
                    ) implies crate::move_generation::square_attacked(
                    r@.board,
                    Color::White,
                    k,
                ) by {
                    assert(crate::bitboards::bit64(
                        self.spec_bitboards().spec_attacks(Color::White).0,
                        k,
                    ));
                }
                assert forall|k: int|
                    #[trigger] crate::bitboards::bit64(
                        r.spec_bitboards().spec_attacks(Color::Black).0,
                        k,
                    ) implies crate::move_generation::square_attacked(
                    r@.board,
                    Color::Black,
                    k,
                ) by {
                    assert(crate::bitboards::bit64(
                        self.spec_bitboards().spec_attacks(Color::Black).0,
                        k,
                    ));
                }
                assert forall|k: int|
                    #[trigger] crate::move_generation::square_attacked(
                        r@.board,
                        Color::White,
                        k,
                    ) implies crate::bitboards::bit64(
                    r.spec_bitboards().spec_attacks(Color::White).0,
                    k,
                ) by {
                    assert(crate::move_generation::square_attacked(self@.board, Color::White, k));
                }
                assert forall|k: int|
                    #[trigger] crate::move_generation::square_attacked(
                        r@.board,
                        Color::Black,
                        k,
                    ) implies crate::bitboards::bit64(
                    r.spec_bitboards().spec_attacks(Color::Black).0,
                    k,
                ) by {
                    assert(crate::move_generation::square_attacked(self@.board, Color::Black, k));
                }
                assert(crate::bitboards::masks_sound(r.spec_bitboards(), r@.board)) by {
                    assert forall|e: int|
                        0 <= e < r.spec_bitboards().spec_pinned(Color::White).len()
                        implies crate::bitboards::pin_entry_sound(
                        r@.board,
                        Color::White,
                        r.spec_bitboards().white_king,
                        (#[trigger] r.spec_bitboards().spec_pinned(Color::White)[e]).0,
                    ) by {
                        assert(crate::bitboards::pin_entry_sound(
                            self@.board,
                            Color::White,
                            self.spec_bitboards().white_king,
                            self.spec_bitboards().spec_pinned(Color::White)[e].0,
                        ));
                    }
                    assert forall|e: int|
                        0 <= e < r.spec_bitboards().spec_pinned(Color::Black).len()
                        implies crate::bitboards::pin_entry_sound(
                        r@.board,
                        Color::Black,
                        r.spec_bitboards().black_king,
                        (#[trigger] r.spec_bitboards().spec_pinned(Color::Black)[e]).0,
                    ) by {
                        assert(crate::bitboards::pin_entry_sound(
                            self@.board,
                            Color::Black,
                            self.spec_bitboards().black_king,
                            self.spec_bitboards().spec_pinned(Color::Black)[e].0,
                        ));
                    }
                    assert forall|e: int|
                        0 <= e < r.spec_bitboards().spec_checks(Color::White).len()
                        implies crate::bitboards::check_entry_sound(
                        r@.board,
                        Color::White,
                        r.spec_bitboards().white_king,
                        (#[trigger] r.spec_bitboards().spec_checks(Color::White)[e]).0,
                    ) by {
                        assert(crate::bitboards::check_entry_sound(
                            self@.board,
                            Color::White,
                            self.spec_bitboards().white_king,
                            self.spec_bitboards().spec_checks(Color::White)[e].0,
                        ));
                    }
                    assert forall|e: int|
                        0 <= e < r.spec_bitboards().spec_checks(Color::Black).len()
                        implies crate::bitboards::check_entry_sound(
                        r@.board,
                        Color::Black,
                        r.spec_bitboards().black_king,
                        (#[trigger] r.spec_bitboards().spec_checks(Color::Black)[e]).0,
                    ) by {
                        assert(crate::bitboards::check_entry_sound(
                            self@.board,
                            Color::Black,
                            self.spec_bitboards().black_king,
                            self.spec_bitboards().spec_checks(Color::Black)[e].0,
                        ));
                    }
                }
                assert(crate::bitboards::checks_complete(r.spec_bitboards(), r@.board)) by {
                    let bbs = self.spec_bitboards();
                    let bbr = r.spec_bitboards();
                    assert forall|dx: int, dy: int, n0: int|
                        #[trigger] crate::bitboards::sliding_check_config(
                            r@.board,
                            Color::White,
                            bbr.white_king,
                            dx,
                            dy,
                            n0,
                        ) implies exists|e: int|
                        0 <= e < bbr.spec_checks(Color::White).len()
                            && crate::bitboards::sliding_check_shape(
                            r@.board,
                            Color::White,
                            bbr.white_king,
                            dx,
                            dy,
                            n0,
                            (#[trigger] bbr.spec_checks(Color::White)[e]).0,
                        ) by {
                        let e = choose|e: int|
                            0 <= e < bbs.spec_checks(Color::White).len()
                                && crate::bitboards::sliding_check_shape(
                                self@.board,
                                Color::White,
                                bbs.white_king,
                                dx,
                                dy,
                                n0,
                                (#[trigger] bbs.spec_checks(Color::White)[e]).0,
                            );
                        assert(bbr.spec_checks(Color::White)[e] == bbs.spec_checks(
                            Color::White,
                        )[e]);
                    }
                    assert forall|dx: int, dy: int, n0: int|
                        #[trigger] crate::bitboards::sliding_check_config(
                            r@.board,
                            Color::Black,
                            bbr.black_king,
                            dx,
                            dy,
                            n0,
                        ) implies exists|e: int|
                        0 <= e < bbr.spec_checks(Color::Black).len()
                            && crate::bitboards::sliding_check_shape(
                            r@.board,
                            Color::Black,
                            bbr.black_king,
                            dx,
                            dy,
                            n0,
                            (#[trigger] bbr.spec_checks(Color::Black)[e]).0,
                        ) by {
                        let e = choose|e: int|
                            0 <= e < bbs.spec_checks(Color::Black).len()
                                && crate::bitboards::sliding_check_shape(
                                self@.board,
                                Color::Black,
                                bbs.black_king,
                                dx,
                                dy,
                                n0,
                                (#[trigger] bbs.spec_checks(Color::Black)[e]).0,
                            );
                        assert(bbr.spec_checks(Color::Black)[e] == bbs.spec_checks(
                            Color::Black,
                        )[e]);
                    }
                    assert forall|a: Position|
                        #[trigger] crate::bitboards::minor_checker(
                            r@.board,
                            Color::White,
                            bbr.white_king,
                            a,
                        ) implies exists|e: int|
                        0 <= e < bbr.spec_checks(Color::White).len()
                            && crate::bitboards::single_check_shape(
                            r@.board,
                            Color::White,
                            bbr.white_king,
                            a,
                            (#[trigger] bbr.spec_checks(Color::White)[e]).0,
                        ) by {
                        let e = choose|e: int|
                            0 <= e < bbs.spec_checks(Color::White).len()
                                && crate::bitboards::single_check_shape(
                                self@.board,
                                Color::White,
                                bbs.white_king,
                                a,
                                (#[trigger] bbs.spec_checks(Color::White)[e]).0,
                            );
                        assert(bbr.spec_checks(Color::White)[e] == bbs.spec_checks(
                            Color::White,
                        )[e]);
                    }
                    assert forall|a: Position|
                        #[trigger] crate::bitboards::minor_checker(
                            r@.board,
                            Color::Black,
                            bbr.black_king,
                            a,
                        ) implies exists|e: int|
                        0 <= e < bbr.spec_checks(Color::Black).len()
                            && crate::bitboards::single_check_shape(
                            r@.board,
                            Color::Black,
                            bbr.black_king,
                            a,
                            (#[trigger] bbr.spec_checks(Color::Black)[e]).0,
                        ) by {
                        let e = choose|e: int|
                            0 <= e < bbs.spec_checks(Color::Black).len()
                                && crate::bitboards::single_check_shape(
                                self@.board,
                                Color::Black,
                                bbs.black_king,
                                a,
                                (#[trigger] bbs.spec_checks(Color::Black)[e]).0,
                            );
                        assert(bbr.spec_checks(Color::Black)[e] == bbs.spec_checks(
                            Color::Black,
                        )[e]);
                    }
                }
                assert(crate::bitboards::pins_complete(r.spec_bitboards(), r@.board)) by {
                    let bbs = self.spec_bitboards();
                    let bbr = r.spec_bitboards();
                    assert forall|dx: int, dy: int, n0: int, fr: int|
                        #[trigger] crate::bitboards::pin_config(
                            r@.board,
                            Color::White,
                            bbr.white_king,
                            dx,
                            dy,
                            n0,
                            fr,
                        ) implies exists|e: int|
                        0 <= e < bbr.spec_pinned(Color::White).len()
                            && crate::bitboards::pin_shape(
                            r@.board,
                            Color::White,
                            bbr.white_king,
                            dx,
                            dy,
                            n0,
                            fr,
                            (#[trigger] bbr.spec_pinned(Color::White)[e]).0,
                        ) by {
                        let e = choose|e: int|
                            0 <= e < bbs.spec_pinned(Color::White).len()
                                && crate::bitboards::pin_shape(
                                self@.board,
                                Color::White,
                                bbs.white_king,
                                dx,
                                dy,
                                n0,
                                fr,
                                (#[trigger] bbs.spec_pinned(Color::White)[e]).0,
                            );
                        assert(bbr.spec_pinned(Color::White)[e] == bbs.spec_pinned(
                            Color::White,
                        )[e]);
                    }
                    assert forall|dx: int, dy: int, n0: int, fr: int|
                        #[trigger] crate::bitboards::pin_config(
                            r@.board,
                            Color::Black,
                            bbr.black_king,
                            dx,
                            dy,
                            n0,
                            fr,
                        ) implies exists|e: int|
                        0 <= e < bbr.spec_pinned(Color::Black).len()
                            && crate::bitboards::pin_shape(
                            r@.board,
                            Color::Black,
                            bbr.black_king,
                            dx,
                            dy,
                            n0,
                            fr,
                            (#[trigger] bbr.spec_pinned(Color::Black)[e]).0,
                        ) by {
                        let e = choose|e: int|
                            0 <= e < bbs.spec_pinned(Color::Black).len()
                                && crate::bitboards::pin_shape(
                                self@.board,
                                Color::Black,
                                bbs.black_king,
                                dx,
                                dy,
                                n0,
                                fr,
                                (#[trigger] bbs.spec_pinned(Color::Black)[e]).0,
                            );
                        assert(bbr.spec_pinned(Color::Black)[e] == bbs.spec_pinned(
                            Color::Black,
                        )[e]);
                    }
                }
            }
        }
        r
    }
}

/// A copy of an undo stack.
fn clone_stack(v: &Vec<UndoEntry>) -> (r: Vec<UndoEntry>)
    ensures
        r@ == v@,
{
    let mut r: Vec<UndoEntry> = Vec::new();
    let mut i: usize = 0;
    while i < v.len()
        invariant
            i <= v@.len(),
            r@.len() == i,
            forall|j: int| 0 <= j < i ==> r@[j] == v@[j],
        decreases v@.len() - i,
    {
        r.push(v[i]);
        i += 1;
    }
    proof {
        assert(r@ =~= v@);
    }
    r
}

impl PartialEq for Game {
    /// Two games are equal when board, side to move, rights, en-passant
    /// target and undo stack all agree; the derived cache is not compared.
    fn eq(&self, other: &Game) -> (r: bool) {
        if !(self.board == other.board) {
            return false;
        }
        if !(self.current_turn == other.current_turn) {
            return false;
        }
        if !(self.white_castle_rights == other.white_castle_rights) {
            return false;
        }
        if !(self.black_castle_rights == other.black_castle_rights) {
            return false;
        }
        let ep_same = match (self.en_passent_field, other.en_passent_field) {
            (Some(a), Some(b)) => a == b,
            (None, None) => true,
            _ => false,
        };
        if !ep_same {
            return false;
        }
        if self.move_stack.len() != other.move_stack.len() {
            return false;
        }
        let mut i: usize = 0;
        while i < self.move_stack.len()
            invariant
                self.move_stack@.len() == other.move_stack@.len(),
                i <= self.move_stack@.len(),
                forall|j: int| 0 <= j < i ==> self.move_stack@[j] == other.move_stack@[j],
            decreases self.move_stack@.len() - i,
        {
            let a = self.move_stack[i];
            let b = other.move_stack[i];
            let ep_eq = match (a.3, b.3) {
                (Some(x), Some(y)) => x == y,
                (None, None) => true,
                _ => false,
            };
            if !(a.0 == b.0 && a.1 == b.1 && a.2 == b.2 && ep_eq) {
                return false;
            }
            i += 1;
        }
        proof {
            assert(self.move_stack@ =~= other.move_stack@);
            assert(self@ =~~= other@);
        }
        true
    }
}

impl vstd::std_specs::cmp::PartialEqSpecImpl for Game {
    open spec fn obeys_eq_spec() -> bool {
        true
    }

    open spec fn eq_spec(&self, other: &Game) -> bool {
        self@ == other@
    }
}

impl Default for Game {
    /// The standard starting position: the game its textual record
    /// parses to.
    fn default() -> (r: Self)
        ensures
            r.wf(),
            r@.stack.len() == 0,
            crate::fen::fen_parse(
                "rnbqkbnr/pppppppp/8/8/8/8/PPPPPPPP/RNBQKBNR w KQkq - 0 1"@,
            ) matches Some(f) ==> {
                &&& r@.board == f.0
                &&& r@.turn == f.1
                &&& r@.white_rights == f.2
                &&& r@.black_rights == f.3
                &&& r@.ep == crate::fen::ep_filtered(f.0, f.1, f.4)
            },
    {
        match crate::fen::Fen::parse_game(
            "rnbqkbnr/pppppppp/8/8/8/8/PPPPPPPP/RNBQKBNR w KQkq - 0 1",
        ) {
            Ok(g) => g,
            // The record above always parses; an empty game stands in so
            // that this function is total.
            Err(_) => Game::new(
                Board::default(),
                Color::White,
                CastleRights::Both,
                CastleRights::Both,
                None,
            ),
        }
    }
}

/// `a` allows no castling option that `b` withholds.
pub open spec fn rights_leq(a: CastleRights, b: CastleRights) -> bool {
    &&& (a.spec_king_side() ==> b.spec_king_side())
    &&& (a.spec_queen_side() ==> b.spec_queen_side())
}

/// Castling rights can only be revoked, never re-granted, by making a
/// move; they only ever come back through the undo stack.
pub proof fn lemma_rights_only_revoked(g: GameModel, m: Move)
    ensures
        rights_leq(game_after_move(g, m).white_rights, g.white_rights),
        rights_leq(game_after_move(g, m).black_rights, g.black_rights),
{
}

/// Reversibility: after any compatible move by the side to move, one
/// reversal restores the game, stack included, exactly. The move
/// generator's postconditions state exactly these premises of its legal
/// moves, so the law covers every move it produces for the side to move.
pub proof fn lemma_unmake_restores_make(g: GameModel, m: Move)
    requires
        g.wf(),
        move_applies(g, m),
        move_compatible_for(g.board, g.turn, m),
    ensures
        game_after_unmake(game_after_move(g, m)) =~= g,
{
    let g1 = game_after_move(g, m);
    assert(g1.stack.len() == g.stack.len() + 1);
    assert(g1.stack.last() == (m, g.white_rights, g.black_rights, g.ep));
    assert(g1.stack.drop_last() =~= g.stack);
    lemma_board_restore(g.board, g.turn, m);
}

} // verus!
