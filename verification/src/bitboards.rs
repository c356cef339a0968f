use vstd::prelude::*;

use crate::board::Board;
use crate::color::Color;
use crate::game::Game;
use crate::move_generation::{lemma_mul_sign, MoveGenerator};
use crate::piece::Piece;
use crate::piece_type::PieceType;
use crate::position::Position;

verus! {

/// Whether bit `i` of `b` is set.
pub open spec fn bit64(b: u64, i: int) -> bool {
    0 <= i < 64 && (b >> (i as u64)) & 1u64 == 1u64
}

/// Setting one bit leaves every other bit alone.
pub proof fn lemma_bit64_or_one(b: u64, j: u64, i: int)
    requires
        j < 64,
    ensures
        bit64(b | (1u64 << j), i) <==> (bit64(b, i) || i == j),
{
    if 0 <= i < 64 {
        let iu = i as u64;
        assert(iu < 64 && j < 64 ==> (((b | (1u64 << j)) >> iu) & 1u64 == 1u64 <==> ((b >> iu)
            & 1u64 == 1u64 || iu == j))) by (bit_vector);
    }
}

/// The empty bit set has no bits.
pub proof fn lemma_bit64_zero(i: int)
    ensures
        !bit64(0u64, i),
{
    if 0 <= i < 64 {
        let iu = i as u64;
        assert(iu < 64 ==> (0u64 >> iu) & 1u64 == 0u64) by (bit_vector);
    }
}

/// The union of two bit sets holds the bits of either.
pub proof fn lemma_bit64_or(a: u64, b: u64, i: int)
    ensures
        bit64(a | b, i) <==> (bit64(a, i) || bit64(b, i)),
{
    if 0 <= i < 64 {
        let iu = i as u64;
        assert(iu < 64 ==> (((a | b) >> iu) & 1u64 == 1u64 <==> ((a >> iu) & 1u64 == 1u64 || (b
            >> iu) & 1u64 == 1u64))) by (bit_vector);
    }
}

/// A one-bit set holds exactly its own square.
pub proof fn lemma_bit64_single(j: u64, k: int)
    requires
        j < 64,
    ensures
        bit64(1u64 << j, k) <==> k == j,
{
    lemma_bit64_zero(k);
    assert(0u64 | (1u64 << j) == 1u64 << j) by (bit_vector);
    lemma_bit64_or_one(0u64, j, k);
}

/// A set of squares, one bit per square in board-index order.
#[derive(Debug, PartialEq, Eq, Structural, Copy, Clone)]
pub struct Bitboard(pub u64);

impl Bitboard {
    /// The squares of the set, in strictly increasing board-index order:
    /// exactly the squares whose bit is set, each exactly once.
    pub fn iter(&self) -> (r: Vec<Position>)
        ensures
            forall|j: int| 0 <= j < r@.len() ==> (#[trigger] r@[j]).wf() && bit64(
                self.0,
                r@[j].idx(),
            ),
            forall|i: int| #[trigger] bit64(self.0, i) ==> exists|j: int|
                0 <= j < r@.len() && r@[j].idx() == i,
            forall|j1: int, j2: int| 0 <= j1 < j2 < r@.len() ==> (#[trigger] r@[j1]).idx() < (
            #[trigger] r@[j2]).idx(),
    {
        let mut r: Vec<Position> = Vec::new();
        let mut i: usize = 0;
        while i < 64
            invariant
                i <= 64,
                forall|j: int| 0 <= j < r@.len() ==> (#[trigger] r@[j]).wf() && bit64(
                    self.0,
                    r@[j].idx(),
                ) && r@[j].idx() < i,
                forall|k: int| 0 <= k < i && #[trigger] bit64(self.0, k) ==> exists|j: int|
                    0 <= j < r@.len() && r@[j].idx() == k,
                forall|j1: int, j2: int| 0 <= j1 < j2 < r@.len() ==> (#[trigger] r@[j1]).idx() < (
                #[trigger] r@[j2]).idx(),
            decreases 64 - i,
        {
            let ghost r0 = r@;
            if (self.0 >> i) & 1u64 == 1u64 {
                let p = Position::from_board_index_unchecked(i);
                r.push(p);
                assert(r@[r@.len() - 1].idx() == i);
            }
            proof {
                assert forall|k: int| 0 <= k < i + 1 && #[trigger] bit64(self.0, k)
                    implies exists|j: int| 0 <= j < r@.len() && r@[j].idx() == k by {
                    if k < i {
                        let j = choose|j: int| 0 <= j < r0.len() && r0[j].idx() == k;
                        assert(r@[j].idx() == k);
                    } else {
                        assert(r@[r@.len() - 1].idx() == k);
                    }
                }
            }
            i += 1;
        }
        r
    }

    /// Whether the set holds the given square.
    pub fn contains(&self, position: &Position) -> (r: bool)
        requires
            position.wf(),
        ensures
            r == bit64(self.0, position.idx()),
    {
        let index = position.board_index();
        (self.0 >> index) & 1u64 == 1u64
    }

    /// The raw bits of the set.
    pub fn inner(&self) -> (r: u64)
        ensures
            r == self.0,
    {
        self.0
    }
}

impl core::ops::BitOr<u64> for Bitboard {
    type Output = u64;

    /// The raw union of the set with loose bits.
    fn bitor(self, rhs: u64) -> (r: u64) {
        self.0 | rhs
    }
}

impl vstd::std_specs::ops::BitOrSpecImpl<u64> for Bitboard {
    open spec fn obeys_bitor_spec() -> bool {
        true
    }

    open spec fn bitor_req(self, rhs: u64) -> bool {
        true
    }

    open spec fn bitor_spec(self, rhs: u64) -> u64 {
        self.0 | rhs
    }
}

impl core::ops::BitOr<Bitboard> for Bitboard {
    type Output = Bitboard;

    /// The union of two sets.
    fn bitor(self, rhs: Bitboard) -> (r: Bitboard) {
        Bitboard(self.0 | rhs.0)
    }
}

impl vstd::std_specs::ops::BitOrSpecImpl<Bitboard> for Bitboard {
    open spec fn obeys_bitor_spec() -> bool {
        true
    }

    open spec fn bitor_req(self, rhs: Bitboard) -> bool {
        true
    }

    open spec fn bitor_spec(self, rhs: Bitboard) -> Bitboard {
        Bitboard(self.0 | rhs.0)
    }
}

impl core::ops::BitAnd<u64> for Bitboard {
    type Output = u64;

    /// The raw intersection of the set with loose bits.
    fn bitand(self, rhs: u64) -> (r: u64) {
        self.0 & rhs
    }
}

impl vstd::std_specs::ops::BitAndSpecImpl<u64> for Bitboard {
    open spec fn obeys_bitand_spec() -> bool {
        true
    }

    open spec fn bitand_req(self, rhs: u64) -> bool {
        true
    }

    open spec fn bitand_spec(self, rhs: u64) -> u64 {
        self.0 & rhs
    }
}

impl core::ops::BitAnd<Bitboard> for Bitboard {
    type Output = Bitboard;

    /// The intersection of two sets.
    fn bitand(self, rhs: Bitboard) -> (r: Bitboard) {
        Bitboard(self.0 & rhs.0)
    }
}

impl vstd::std_specs::ops::BitAndSpecImpl<Bitboard> for Bitboard {
    open spec fn obeys_bitand_spec() -> bool {
        true
    }

    open spec fn bitand_req(self, rhs: Bitboard) -> bool {
        true
    }

    open spec fn bitand_spec(self, rhs: Bitboard) -> Bitboard {
        Bitboard(self.0 & rhs.0)
    }
}

impl core::ops::Not for Bitboard {
    type Output = u64;

    /// The raw complement of the set.
    fn not(self) -> (r: u64) {
        !self.0
    }
}

impl vstd::std_specs::ops::NotSpecImpl for Bitboard {
    open spec fn obeys_not_spec() -> bool {
        true
    }

    open spec fn not_req(self) -> bool {
        true
    }

    open spec fn not_spec(self) -> u64 {
        !self.0
    }
}

impl From<u64> for Bitboard {
    /// The set with exactly the given bits.
    fn from(value: u64) -> (r: Self) {
        Bitboard(value)
    }
}

impl vstd::std_specs::convert::FromSpecImpl<u64> for Bitboard {
    open spec fn obeys_from_spec() -> bool {
        true
    }

    open spec fn from_spec(value: u64) -> Bitboard {
        Bitboard(value)
    }
}

impl From<Position> for Bitboard {
    /// The set holding exactly the given square; an off-board position
    /// gives the empty set.
    fn from(position: Position) -> (r: Self) {
        let index = position.board_index();
        if index < 64 {
            Bitboard(1u64 << index)
        } else {
            Bitboard(0)
        }
    }
}

impl vstd::std_specs::convert::FromSpecImpl<Position> for Bitboard {
    open spec fn obeys_from_spec() -> bool {
        true
    }

    open spec fn from_spec(position: Position) -> Bitboard {
        if position.idx() < 64 {
            Bitboard(1u64 << (position.idx() as u64))
        } else {
            Bitboard(0)
        }
    }
}

/// What one square contributes to its side's material: the value of the
/// piece whose occupancy set holds the square, kings excluded.
pub open spec fn mat_cell(bb: GameBitBoards, c: Color, i: int) -> int {
    if bit64(bb.spec_kind_set(PieceType::Pawn, c).0, i) {
        100
    } else if bit64(bb.spec_kind_set(PieceType::Knight, c).0, i) {
        330
    } else if bit64(bb.spec_kind_set(PieceType::Bishop, c).0, i) {
        320
    } else if bit64(bb.spec_kind_set(PieceType::Rook, c).0, i) {
        500
    } else if bit64(bb.spec_kind_set(PieceType::Queen, c).0, i) {
        900
    } else {
        0
    }
}

/// The material of the first `n` squares.
pub open spec fn mat_sum(bb: GameBitBoards, c: Color, n: int) -> int
    decreases n,
{
    if n <= 0 {
        0
    } else {
        mat_sum(bb, c, n - 1) + mat_cell(bb, c, n - 1)
    }
}

/// Material never leaves the range a 64-square board allows.
pub proof fn lemma_mat_sum_bounds(bb: GameBitBoards, c: Color, n: int)
    requires
        0 <= n <= 64,
    ensures
        0 <= mat_sum(bb, c, n) <= 900 * n,
    decreases n,
{
    if n > 0 {
        lemma_mat_sum_bounds(bb, c, n - 1);
    }
}

/// One square of the occupancy relation between the cache and the board.
pub open spec fn occ_cell(bb: GameBitBoards, b: Seq<Option<Piece>>, i: int) -> bool {
    &&& (bit64(bb.white_pawns.0, i) <==> b[i] == Some(
        Piece { kind: PieceType::Pawn, color: Color::White },
    ))
    &&& (bit64(bb.white_knights.0, i) <==> b[i] == Some(
        Piece { kind: PieceType::Knight, color: Color::White },
    ))
    &&& (bit64(bb.white_bishops.0, i) <==> b[i] == Some(
        Piece { kind: PieceType::Bishop, color: Color::White },
    ))
    &&& (bit64(bb.white_rooks.0, i) <==> b[i] == Some(
        Piece { kind: PieceType::Rook, color: Color::White },
    ))
    &&& (bit64(bb.white_queens.0, i) <==> b[i] == Some(
        Piece { kind: PieceType::Queen, color: Color::White },
    ))
    &&& (bit64(bb.white_kings.0, i) <==> b[i] == Some(
        Piece { kind: PieceType::King, color: Color::White },
    ))
    &&& (bit64(bb.black_pawns.0, i) <==> b[i] == Some(
        Piece { kind: PieceType::Pawn, color: Color::Black },
    ))
    &&& (bit64(bb.black_knights.0, i) <==> b[i] == Some(
        Piece { kind: PieceType::Knight, color: Color::Black },
    ))
    &&& (bit64(bb.black_bishops.0, i) <==> b[i] == Some(
        Piece { kind: PieceType::Bishop, color: Color::Black },
    ))
    &&& (bit64(bb.black_rooks.0, i) <==> b[i] == Some(
        Piece { kind: PieceType::Rook, color: Color::Black },
    ))
    &&& (bit64(bb.black_queens.0, i) <==> b[i] == Some(
        Piece { kind: PieceType::Queen, color: Color::Black },
    ))
    &&& (bit64(bb.black_kings.0, i) <==> b[i] == Some(
        Piece { kind: PieceType::King, color: Color::Black },
    ))
    &&& (bit64(bb.white_pieces.0, i) <==> (b[i] matches Some(p) && p.color == Color::White))
    &&& (bit64(bb.black_pieces.0, i) <==> (b[i] matches Some(p) && p.color == Color::Black))
}

/// The occupancy sets of the cache describe the board exactly.
pub open spec fn occupancy_consistent(bb: GameBitBoards, b: Seq<Option<Piece>>) -> bool {
    forall|i: int| 0 <= i < 64 ==> #[trigger] occ_cell(bb, b, i)
}

/// `i` is the only square of the board holding a king of side `c`.
pub open spec fn unique_king_at(b: Seq<Option<Piece>>, c: Color, i: int) -> bool {
    &&& 0 <= i < 64
    &&& b[i] == Some(Piece { kind: PieceType::King, color: c })
    &&& forall|j: int| 0 <= j < 64 && j != i ==> b[j] != Some(
        Piece { kind: PieceType::King, color: c },
    )
}

/// Wherever a side has exactly one king, the cache records its square.
pub open spec fn kings_consistent(bb: GameBitBoards, b: Seq<Option<Piece>>) -> bool {
    &&& bb.white_king.wf()
    &&& bb.black_king.wf()
    &&& forall|i: int| #[trigger] unique_king_at(b, Color::White, i) ==> bb.white_king.idx() == i
    &&& forall|i: int| #[trigger] unique_king_at(b, Color::Black, i) ==> bb.black_king.idx() == i
}

/// The derived index of a position: per-side occupancy by piece kind,
/// king squares, attack sets, pin rays and check-block masks. It is
/// recomputed wholesale from the board after every state change and
/// never updated incrementally.
#[derive(Debug)]
pub struct GameBitBoards {
    pub white_pawns: Bitboard,
    pub white_knights: Bitboard,
    pub white_bishops: Bitboard,
    pub white_rooks: Bitboard,
    pub white_queens: Bitboard,
    pub white_kings: Bitboard,
    pub black_pawns: Bitboard,
    pub black_knights: Bitboard,
    pub black_bishops: Bitboard,
    pub black_rooks: Bitboard,
    pub black_queens: Bitboard,
    pub black_kings: Bitboard,
    pub black_pieces: Bitboard,
    pub white_pieces: Bitboard,

    pub white_king: Position,
    pub black_king: Position,

    pub white_attacks: Bitboard,
    pub black_attacks: Bitboard,

    pub white_pinned: Vec<Bitboard>,
    pub black_pinned: Vec<Bitboard>,

    pub white_blockable_check: Vec<Bitboard>,
    pub black_blockable_check: Vec<Bitboard>,
}

impl GameBitBoards {
    pub open spec fn spec_kind_set(self, kind: PieceType, color: Color) -> Bitboard {
        match (kind, color) {
            (PieceType::Pawn, Color::White) => self.white_pawns,
            (PieceType::Knight, Color::White) => self.white_knights,
            (PieceType::Bishop, Color::White) => self.white_bishops,
            (PieceType::Rook, Color::White) => self.white_rooks,
            (PieceType::Queen, Color::White) => self.white_queens,
            (PieceType::King, Color::White) => self.white_kings,
            (PieceType::Pawn, Color::Black) => self.black_pawns,
            (PieceType::Knight, Color::Black) => self.black_knights,
            (PieceType::Bishop, Color::Black) => self.black_bishops,
            (PieceType::Rook, Color::Black) => self.black_rooks,
            (PieceType::Queen, Color::Black) => self.black_queens,
            (PieceType::King, Color::Black) => self.black_kings,
        }
    }

    pub open spec fn spec_pieces(self, color: Color) -> Bitboard {
        match color {
            Color::White => self.white_pieces,
            Color::Black => self.black_pieces,
        }
    }

    pub open spec fn spec_attacks(self, color: Color) -> Bitboard {
        match color {
            Color::White => self.white_attacks,
            Color::Black => self.black_attacks,
        }
    }

    pub open spec fn spec_king(self, color: Color) -> Position {
        match color {
            Color::White => self.white_king,
            Color::Black => self.black_king,
        }
    }

    pub open spec fn spec_pinned(self, color: Color) -> Seq<Bitboard> {
        match color {
            Color::White => self.white_pinned@,
            Color::Black => self.black_pinned@,
        }
    }

    pub open spec fn spec_checks(self, color: Color) -> Seq<Bitboard> {
        match color {
            Color::White => self.white_blockable_check@,
            Color::Black => self.black_blockable_check@,
        }
    }

    pub open spec fn spec_material(self, color: Color) -> int {
        mat_sum(self, color, 64)
    }

    /// An index with every set empty and both king squares defaulted.
    pub(crate) fn empty() -> (r: GameBitBoards)
        ensures
            forall|i: int| !bit64(#[trigger] r.spec_pieces(Color::White).0, i),
            forall|i: int| !bit64(#[trigger] r.spec_pieces(Color::Black).0, i),
            r.spec_pinned(Color::White).len() == 0,
            r.spec_pinned(Color::Black).len() == 0,
            r.spec_checks(Color::White).len() == 0,
            r.spec_checks(Color::Black).len() == 0,
            r.white_king.wf(),
            r.black_king.wf(),
    {
        proof {
            lemma_bit64_zero(0);
            assert forall|i: int| !bit64(0u64, i) by {
                lemma_bit64_zero(i);
            }
        }
        GameBitBoards {
            white_pawns: Bitboard(0),
            white_knights: Bitboard(0),
            white_bishops: Bitboard(0),
            white_rooks: Bitboard(0),
            white_queens: Bitboard(0),
            white_kings: Bitboard(0),
            black_pawns: Bitboard(0),
            black_knights: Bitboard(0),
            black_bishops: Bitboard(0),
            black_rooks: Bitboard(0),
            black_queens: Bitboard(0),
            black_kings: Bitboard(0),
            black_pieces: Bitboard(0),
            white_pieces: Bitboard(0),
            white_king: Position::new_unchecked(0, 0),
            black_king: Position::new_unchecked(0, 0),
            white_attacks: Bitboard(0),
            black_attacks: Bitboard(0),
            white_pinned: Vec::new(),
            black_pinned: Vec::new(),
            white_blockable_check: Vec::new(),
            black_blockable_check: Vec::new(),
        }
    }

    /// Rebuilds the whole index from the game's board: occupancy and king
    /// squares are stated exactly; attack, pin and check-block sets are
    /// derived by the move generator's attack walk.
    pub fn new(game: &Game) -> (r: GameBitBoards)
        requires
            game.board_len_ok(),
        ensures
            occupancy_consistent(r, game@.board),
            kings_consistent(r, game@.board),
            crate::move_generation::attacks_sound(r, game@.board),
            crate::move_generation::attacks_complete(r, game@.board),
            masks_sound(r, game@.board),
            checks_complete(r, game@.board),
            pins_complete(r, game@.board),
    {
        let mut this = Self::empty();

        this.white_pawns = Bitboard(occ_mask(game.board(), PieceType::Pawn, Color::White));
        this.white_knights = Bitboard(occ_mask(game.board(), PieceType::Knight, Color::White));
        this.white_bishops = Bitboard(occ_mask(game.board(), PieceType::Bishop, Color::White));
        this.white_rooks = Bitboard(occ_mask(game.board(), PieceType::Rook, Color::White));
        this.white_queens = Bitboard(occ_mask(game.board(), PieceType::Queen, Color::White));
        this.white_kings = Bitboard(occ_mask(game.board(), PieceType::King, Color::White));
        this.black_pawns = Bitboard(occ_mask(game.board(), PieceType::Pawn, Color::Black));
        this.black_knights = Bitboard(occ_mask(game.board(), PieceType::Knight, Color::Black));
        this.black_bishops = Bitboard(occ_mask(game.board(), PieceType::Bishop, Color::Black));
        this.black_rooks = Bitboard(occ_mask(game.board(), PieceType::Rook, Color::Black));
        this.black_queens = Bitboard(occ_mask(game.board(), PieceType::Queen, Color::Black));
        this.black_kings = Bitboard(occ_mask(game.board(), PieceType::King, Color::Black));
        this.white_pieces = Bitboard(color_mask(game.board(), Color::White));
        this.black_pieces = Bitboard(color_mask(game.board(), Color::Black));
        this.white_king = king_square(game.board(), Color::White);
        this.black_king = king_square(game.board(), Color::Black);

        this.white_attacks = attack_mask(game, this.white_pieces, Ghost(Color::White));
        this.black_attacks = attack_mask(game, this.black_pieces, Ghost(Color::Black));

        let (wp, wc) = king_pins_and_checks(
            game,
            this.white_king,
            Color::White,
            this.black_knights,
            this.black_pawns,
        );
        this.white_pinned = wp;
        this.white_blockable_check = wc;
        let (bp, bc) = king_pins_and_checks(
            game,
            this.black_king,
            Color::Black,
            this.white_knights,
            this.white_pawns,
        );
        this.black_pinned = bp;
        this.black_blockable_check = bc;

        assert forall|i: int| 0 <= i < 64 implies #[trigger] occ_cell(this, game@.board, i) by {
            assert(game@.board[i] matches Some(p) ==> p.kind is Pawn || p.kind is Knight
                || p.kind is Bishop || p.kind is Rook || p.kind is Queen || p.kind is King);
        }
        proof {
            let b = game@.board;
            assert forall|dx: int, dy: int, n0: int|
                #[trigger] sliding_check_config(b, Color::White, this.white_king, dx, dy, n0)
                    implies exists|e: int|
                0 <= e < this.spec_checks(Color::White).len() && sliding_check_shape(
                    b,
                    Color::White,
                    this.white_king,
                    dx,
                    dy,
                    n0,
                    (#[trigger] this.spec_checks(Color::White)[e]).0,
                ) by {
                let e = choose|e: int|
                    0 <= e < wc@.len() && sliding_check_shape(
                        b,
                        Color::White,
                        this.white_king,
                        dx,
                        dy,
                        n0,
                        (#[trigger] wc@[e]).0,
                    );
                assert(this.spec_checks(Color::White)[e] == wc@[e]);
            }
            assert forall|dx: int, dy: int, n0: int|
                #[trigger] sliding_check_config(b, Color::Black, this.black_king, dx, dy, n0)
                    implies exists|e: int|
                0 <= e < this.spec_checks(Color::Black).len() && sliding_check_shape(
                    b,
                    Color::Black,
                    this.black_king,
                    dx,
                    dy,
                    n0,
                    (#[trigger] this.spec_checks(Color::Black)[e]).0,
                ) by {
                let e = choose|e: int|
                    0 <= e < bc@.len() && sliding_check_shape(
                        b,
                        Color::Black,
                        this.black_king,
                        dx,
                        dy,
                        n0,
                        (#[trigger] bc@[e]).0,
                    );
                assert(this.spec_checks(Color::Black)[e] == bc@[e]);
            }
            assert forall|a: Position|
                #[trigger] minor_checker(b, Color::White, this.white_king, a) implies exists|
                e: int,
            |
                0 <= e < this.spec_checks(Color::White).len() && single_check_shape(
                    b,
                    Color::White,
                    this.white_king,
                    a,
                    (#[trigger] this.spec_checks(Color::White)[e]).0,
                ) by {
                let e = choose|e: int|
                    0 <= e < wc@.len() && single_check_shape(
                        b,
                        Color::White,
                        this.white_king,
                        a,
                        (#[trigger] wc@[e]).0,
                    );
                assert(this.spec_checks(Color::White)[e] == wc@[e]);
            }
            assert forall|a: Position|
                #[trigger] minor_checker(b, Color::Black, this.black_king, a) implies exists|
                e: int,
            |
                0 <= e < this.spec_checks(Color::Black).len() && single_check_shape(
                    b,
                    Color::Black,
                    this.black_king,
                    a,
                    (#[trigger] this.spec_checks(Color::Black)[e]).0,
                ) by {
                let e = choose|e: int|
                    0 <= e < bc@.len() && single_check_shape(
                        b,
                        Color::Black,
                        this.black_king,
                        a,
                        (#[trigger] bc@[e]).0,
                    );
                assert(this.spec_checks(Color::Black)[e] == bc@[e]);
            }
            assert forall|dx: int, dy: int, n0: int, fr: int|
                #[trigger] pin_config(b, Color::White, this.white_king, dx, dy, n0, fr)
                    implies exists|e: int|
                0 <= e < this.spec_pinned(Color::White).len() && pin_shape(
                    b,
                    Color::White,
                    this.white_king,
                    dx,
                    dy,
                    n0,
                    fr,
                    (#[trigger] this.spec_pinned(Color::White)[e]).0,
                ) by {
                let e = choose|e: int|
                    0 <= e < wp@.len() && pin_shape(
                        b,
                        Color::White,
                        this.white_king,
                        dx,
                        dy,
                        n0,
                        fr,
                        (#[trigger] wp@[e]).0,
                    );
                assert(this.spec_pinned(Color::White)[e] == wp@[e]);
            }
            assert forall|dx: int, dy: int, n0: int, fr: int|
                #[trigger] pin_config(b, Color::Black, this.black_king, dx, dy, n0, fr)
                    implies exists|e: int|
                0 <= e < this.spec_pinned(Color::Black).len() && pin_shape(
                    b,
                    Color::Black,
                    this.black_king,
                    dx,
                    dy,
                    n0,
                    fr,
                    (#[trigger] this.spec_pinned(Color::Black)[e]).0,
                ) by {
                let e = choose|e: int|
                    0 <= e < bp@.len() && pin_shape(
                        b,
                        Color::Black,
                        this.black_king,
                        dx,
                        dy,
                        n0,
                        fr,
                        (#[trigger] bp@[e]).0,
                    );
                assert(this.spec_pinned(Color::Black)[e] == bp@[e]);
            }
        }
        this
    }

    /// The material value of the given side: the summed piece values of
    /// its occupancy sets, kings excluded.
    pub fn material(&self, color: Color) -> (r: i32)
        ensures
            r == self.spec_material(color),
            0 <= r <= 57600,
    {
        let mut sum: i32 = 0;
        let mut i: usize = 0;
        while i < 64
            invariant
                i <= 64,
                sum == mat_sum(*self, color, i as int),
                0 <= sum <= 900 * i,
            decreases 64 - i,
        {
            let pawns = self.pawns(color);
            let knights = self.knights(color);
            let bishops = self.bishops(color);
            let rooks = self.rooks(color);
            let queens = self.queens(color);
            if (pawns.0 >> i) & 1u64 == 1u64 {
                sum = sum + 100;
            } else if (knights.0 >> i) & 1u64 == 1u64 {
                sum = sum + 330;
            } else if (bishops.0 >> i) & 1u64 == 1u64 {
                sum = sum + 320;
            } else if (rooks.0 >> i) & 1u64 == 1u64 {
                sum = sum + 500;
            } else if (queens.0 >> i) & 1u64 == 1u64 {
                sum = sum + 900;
            }
            i += 1;
        }
        proof {
            lemma_mat_sum_bounds(*self, color, 64);
        }
        sum
    }

    // Helper functions to pick the correct set for a side.
    pub fn pawns(&self, color: Color) -> (r: Bitboard)
        ensures
            r == self.spec_kind_set(PieceType::Pawn, color),
    {
        match color {
            Color::White => self.white_pawns,
            Color::Black => self.black_pawns,
        }
    }

    pub fn knights(&self, color: Color) -> (r: Bitboard)
        ensures
            r == self.spec_kind_set(PieceType::Knight, color),
    {
        match color {
            Color::White => self.white_knights,
            Color::Black => self.black_knights,
        }
    }

    pub fn bishops(&self, color: Color) -> (r: Bitboard)
        ensures
            r == self.spec_kind_set(PieceType::Bishop, color),
    {
        match color {
            Color::White => self.white_bishops,
            Color::Black => self.black_bishops,
        }
    }

    pub fn rooks(&self, color: Color) -> (r: Bitboard)
        ensures
            r == self.spec_kind_set(PieceType::Rook, color),
    {
        match color {
            Color::White => self.white_rooks,
            Color::Black => self.black_rooks,
        }
    }

    pub fn queens(&self, color: Color) -> (r: Bitboard)
        ensures
            r == self.spec_kind_set(PieceType::Queen, color),
    {
        match color {
            Color::White => self.white_queens,
            Color::Black => self.black_queens,
        }
    }

    pub fn king(&self, color: Color) -> (r: Position)
        ensures
            r == self.spec_king(color),
    {
        match color {
            Color::White => self.white_king,
            Color::Black => self.black_king,
        }
    }

    pub fn pieces(&self, color: Color) -> (r: Bitboard)
        ensures
            r == self.spec_pieces(color),
    {
        match color {
            Color::White => self.white_pieces,
            Color::Black => self.black_pieces,
        }
    }

    pub fn attacks(&self, color: Color) -> (r: Bitboard)
        ensures
            r == self.spec_attacks(color),
    {
        match color {
            Color::White => self.white_attacks,
            Color::Black => self.black_attacks,
        }
    }

    pub fn pinned(&self, color: Color) -> (r: &Vec<Bitboard>)
        ensures
            r@ == self.spec_pinned(color),
    {
        match color {
            Color::White => &self.white_pinned,
            Color::Black => &self.black_pinned,
        }
    }

    pub fn blockable_checks(&self, color: Color) -> (r: &Vec<Bitboard>)
        ensures
            r@ == self.spec_checks(color),
    {
        match color {
            Color::White => &self.white_blockable_check,
            Color::Black => &self.black_blockable_check,
        }
    }
}

/// Field-for-field equality of two caches, the mask lists compared by
/// their contents.
pub open spec fn cache_eq(a: GameBitBoards, b: GameBitBoards) -> bool {
    &&& a.white_pawns == b.white_pawns
    &&& a.white_knights == b.white_knights
    &&& a.white_bishops == b.white_bishops
    &&& a.white_rooks == b.white_rooks
    &&& a.white_queens == b.white_queens
    &&& a.white_kings == b.white_kings
    &&& a.black_pawns == b.black_pawns
    &&& a.black_knights == b.black_knights
    &&& a.black_bishops == b.black_bishops
    &&& a.black_rooks == b.black_rooks
    &&& a.black_queens == b.black_queens
    &&& a.black_kings == b.black_kings
    &&& a.white_pieces == b.white_pieces
    &&& a.black_pieces == b.black_pieces
    &&& a.white_king == b.white_king
    &&& a.black_king == b.black_king
    &&& a.white_attacks == b.white_attacks
    &&& a.black_attacks == b.black_attacks
    &&& a.white_pinned@ == b.white_pinned@
    &&& a.black_pinned@ == b.black_pinned@
    &&& a.white_blockable_check@ == b.white_blockable_check@
    &&& a.black_blockable_check@ == b.black_blockable_check@
}

/// A copy of a list of square sets.
fn clone_masks(v: &Vec<Bitboard>) -> (r: Vec<Bitboard>)
    ensures
        r@ == v@,
{
    let mut r: Vec<Bitboard> = Vec::new();
    let mut i: usize = 0;
    while i < v.len()
        invariant
            i <= v@.len(),
            r@.len() == i,
            forall|j: int| 0 <= j < i ==> r@[j] == v@[j],
        decreases v@.len() - i,
    {
        r.push(v[i]);
        i += 1;
    }
    proof {
        assert(r@ =~= v@);
    }
    r
}

impl Clone for GameBitBoards {
    /// A copy with exactly the same sets and king squares.
    fn clone(&self) -> (r: Self)
        ensures
            cache_eq(r, *self),
    {
        GameBitBoards {
            white_pawns: self.white_pawns,
            white_knights: self.white_knights,
            white_bishops: self.white_bishops,
            white_rooks: self.white_rooks,
            white_queens: self.white_queens,
            white_kings: self.white_kings,
            black_pawns: self.black_pawns,
            black_knights: self.black_knights,
            black_bishops: self.black_bishops,
            black_rooks: self.black_rooks,
            black_queens: self.black_queens,
            black_kings: self.black_kings,
            black_pieces: self.black_pieces,
            white_pieces: self.white_pieces,
            white_king: self.white_king,
            black_king: self.black_king,
            white_attacks: self.white_attacks,
            black_attacks: self.black_attacks,
            white_pinned: clone_masks(&self.white_pinned),
            black_pinned: clone_masks(&self.black_pinned),
            white_blockable_check: clone_masks(&self.white_blockable_check),
            black_blockable_check: clone_masks(&self.black_blockable_check),
        }
    }
}

/// Which derived set a diagnostic renderer overlays on the board.
#[derive(Debug, Clone, Copy)]
pub enum BitBoardPrinter {
    WhitePawns,
    WhiteKnights,
    WhiteBishops,
    WhiteRooks,
    WhiteQueens,
    WhiteKing,
    BlackPawns,
    BlackKnights,
    BlackBishops,
    BlackRooks,
    BlackQueens,
    BlackKing,

    WhitePieces,
    BlackPieces,

    WhiteAttacks,
    BlackAttacks,

    WhitePinned,
    BlackPinned,

    WhiteBlockableChecks,
    BlackBlockableChecks,
}

/// The bits of the union of a list of square sets, up to entry `n`.
pub open spec fn masks_union(s: Seq<Bitboard>, n: int, k: int) -> bool {
    exists|e: int| 0 <= e < n && bit64((#[trigger] s[e]).0, k)
}

/// The union of a list of square sets: it holds exactly the squares some
/// entry holds.
fn fold_masks(masks: &Vec<Bitboard>) -> (r: Bitboard)
    ensures
        forall|k: int| #[trigger] bit64(r.0, k) <==> masks_union(masks@, masks@.len() as int, k),
{
    let mut acc: u64 = 0;
    let mut i: usize = 0;
    proof {
        assert forall|k: int| !bit64(0u64, k) by {
            lemma_bit64_zero(k);
        }
    }
    while i < masks.len()
        invariant
            i <= masks@.len(),
            forall|k: int| #[trigger] bit64(acc, k) <==> masks_union(masks@, i as int, k),
        decreases masks@.len() - i,
    {
        let ghost acc0 = acc;
        acc = acc | masks[i].0;
        proof {
            let m = masks@[i as int].0;
            assert forall|k: int| #[trigger] bit64(acc, k) implies masks_union(
                masks@,
                i + 1,
                k,
            ) by {
                lemma_bit64_or(acc0, m, k);
                if bit64(acc0, k) {
                    let e = choose|e: int| 0 <= e < i && bit64((#[trigger] masks@[e]).0, k);
                    assert(bit64(masks@[e].0, k));
                } else {
                    assert(bit64(masks@[i as int].0, k));
                }
            }
            assert forall|k: int| masks_union(masks@, i + 1, k) implies #[trigger] bit64(
                acc,
                k,
            ) by {
                lemma_bit64_or(acc0, m, k);
                let e = choose|e: int| 0 <= e < i + 1 && bit64((#[trigger] masks@[e]).0, k);
                if e < i {
                    assert(masks_union(masks@, i as int, k));
                }
            }
        }
        i += 1;
    }
    Bitboard(acc)
}

impl BitBoardPrinter {
    /// The derived set this overlay draws, read from the game's cache:
    /// an occupancy set as it stands, a king's square as a one-square
    /// set, or the union of the pin or check-block masks.
    pub open spec fn spec_overlay(self, bb: GameBitBoards) -> u64 {
        match self {
            Self::WhitePawns => bb.white_pawns.0,
            Self::WhiteKnights => bb.white_knights.0,
            Self::WhiteBishops => bb.white_bishops.0,
            Self::WhiteRooks => bb.white_rooks.0,
            Self::WhiteQueens => bb.white_queens.0,
            Self::WhiteKing => 1u64 << (bb.white_king.idx() as u64),
            Self::BlackPawns => bb.black_pawns.0,
            Self::BlackKnights => bb.black_knights.0,
            Self::BlackBishops => bb.black_bishops.0,
            Self::BlackRooks => bb.black_rooks.0,
            Self::BlackQueens => bb.black_queens.0,
            Self::BlackKing => 1u64 << (bb.black_king.idx() as u64),
            Self::WhitePieces => bb.white_pieces.0,
            Self::BlackPieces => bb.black_pieces.0,
            Self::WhiteAttacks => bb.white_attacks.0,
            Self::BlackAttacks => bb.black_attacks.0,
            Self::WhitePinned => 0,
            Self::BlackPinned => 0,
            Self::WhiteBlockableChecks => 0,
            Self::BlackBlockableChecks => 0,
        }
    }

    /// Whether this overlay is one of the mask unions rather than a
    /// plain set of the cache.
    pub open spec fn is_mask_union(self) -> bool {
        self is WhitePinned || self is BlackPinned || self is WhiteBlockableChecks
            || self is BlackBlockableChecks
    }

    /// The set of squares this overlay marks on the given game.
    pub fn overlay(&self, game: &Game) -> (r: Bitboard)
        requires
            game.wf(),
        ensures
            !self.is_mask_union() ==> r.0 == self.spec_overlay(game.spec_bitboards()),
            self is WhitePinned ==> forall|k: int| #[trigger] bit64(r.0, k) <==> masks_union(
                game.spec_bitboards().spec_pinned(Color::White),
                game.spec_bitboards().spec_pinned(Color::White).len() as int,
                k,
            ),
            self is BlackPinned ==> forall|k: int| #[trigger] bit64(r.0, k) <==> masks_union(
                game.spec_bitboards().spec_pinned(Color::Black),
                game.spec_bitboards().spec_pinned(Color::Black).len() as int,
                k,
            ),
            self is WhiteBlockableChecks ==> forall|k: int| #[trigger] bit64(r.0, k)
                <==> masks_union(
                game.spec_bitboards().spec_checks(Color::White),
                game.spec_bitboards().spec_checks(Color::White).len() as int,
                k,
            ),
            self is BlackBlockableChecks ==> forall|k: int| #[trigger] bit64(r.0, k)
                <==> masks_union(
                game.spec_bitboards().spec_checks(Color::Black),
                game.spec_bitboards().spec_checks(Color::Black).len() as int,
                k,
            ),
    {
        let bb = game.bitboards();
        match self {
            Self::WhitePawns => bb.white_pawns,
            Self::WhiteKnights => bb.white_knights,
            Self::WhiteBishops => bb.white_bishops,
            Self::WhiteRooks => bb.white_rooks,
            Self::WhiteQueens => bb.white_queens,
            Self::WhiteKing => Bitboard::from(bb.king(Color::White)),
            Self::BlackPawns => bb.black_pawns,
            Self::BlackKnights => bb.black_knights,
            Self::BlackBishops => bb.black_bishops,
            Self::BlackRooks => bb.black_rooks,
            Self::BlackQueens => bb.black_queens,
            Self::BlackKing => Bitboard::from(bb.king(Color::Black)),
            Self::WhitePieces => bb.white_pieces,
            Self::BlackPieces => bb.black_pieces,
            Self::WhiteAttacks => bb.white_attacks,
            Self::BlackAttacks => bb.black_attacks,
            Self::WhitePinned => fold_masks(&bb.white_pinned),
            Self::BlackPinned => fold_masks(&bb.black_pinned),
            Self::WhiteBlockableChecks => fold_masks(&bb.white_blockable_check),
            Self::BlackBlockableChecks => fold_masks(&bb.black_blockable_check),
        }
    }
}

impl crate::print_board::BoardPrinter for BitBoardPrinter {
    /// Marks the squares of the chosen derived set with an `X`.
    fn get_char(&self, position: Position, game: &Game) -> (r: char) {
        let bit_value = self.overlay(game);
        let is_occupied = bit_value.contains(&position);
        if is_occupied {
            'X'
        } else {
            ' '
        }
    }
}

/// The set of squares occupied by a piece of exactly this kind and side.
fn occ_mask(board: &Board, kind: PieceType, color: Color) -> (r: u64)
    requires
        board.wf(),
    ensures
        forall|i: int| bit64(r, i) <==> (0 <= i < 64 && board@[i] == Some(Piece { kind, color })),
{
    let mut r: u64 = 0;
    let mut i: usize = 0;
    proof {
        assert forall|k: int| !bit64(0u64, k) by {
            lemma_bit64_zero(k);
        }
    }
    while i < 64
        invariant
            board.wf(),
            i <= 64,
            forall|k: int| bit64(r, k) <==> (0 <= k < i && board@[k] == Some(
                Piece { kind, color },
            )),
        decreases 64 - i,
    {
        let pos = Position::from_board_index_unchecked(i);
        let matched = match board.piece_at(&pos) {
            Some(p) => p.piece_type() == kind && p.color() == color,
            None => false,
        };
        if matched {
            let ghost old_r = r;
            r = r | (1u64 << i);
            proof {
                assert forall|k: int| bit64(r, k) <==> (bit64(old_r, k) || k == i) by {
                    lemma_bit64_or_one(old_r, i as u64, k);
                }
            }
        }
        i += 1;
    }
    r
}

/// The set of squares occupied by any piece of this side.
fn color_mask(board: &Board, color: Color) -> (r: u64)
    requires
        board.wf(),
    ensures
        forall|i: int| bit64(r, i) <==> (0 <= i < 64 && (board@[i] matches Some(p) && p.color
            == color)),
{
    let mut r: u64 = 0;
    let mut i: usize = 0;
    proof {
        assert forall|k: int| !bit64(0u64, k) by {
            lemma_bit64_zero(k);
        }
    }
    while i < 64
        invariant
            board.wf(),
            i <= 64,
            forall|k: int| bit64(r, k) <==> (0 <= k < i && (board@[k] matches Some(p) && p.color
                == color)),
        decreases 64 - i,
    {
        let pos = Position::from_board_index_unchecked(i);
        let matched = match board.piece_at(&pos) {
            Some(p) => p.color() == color,
            None => false,
        };
        if matched {
            let ghost old_r = r;
            r = r | (1u64 << i);
            proof {
                assert forall|k: int| bit64(r, k) <==> (bit64(old_r, k) || k == i) by {
                    lemma_bit64_or_one(old_r, i as u64, k);
                }
            }
        }
        i += 1;
    }
    r
}

/// The square of this side's king; where the side has several kings the
/// highest square wins, and with none the lower-left corner stands in.
fn king_square(board: &Board, color: Color) -> (r: Position)
    requires
        board.wf(),
    ensures
        r.wf(),
        forall|i: int| #[trigger] unique_king_at(board@, color, i) ==> r.idx() == i,
{
    let mut r = Position::new_unchecked(0, 0);
    let mut i: usize = 0;
    while i < 64
        invariant
            board.wf(),
            r.wf(),
            i <= 64,
            forall|k: int|
                (0 <= k < i && board@[k] == Some(Piece { kind: PieceType::King, color })
                    && (forall|j: int| 0 <= j < i && j != k ==> board@[j] != Some(
                    Piece { kind: PieceType::King, color },
                ))) ==> r.idx() == k,
        decreases 64 - i,
    {
        let pos = Position::from_board_index_unchecked(i);
        let matched = match board.piece_at(&pos) {
            Some(p) => p.piece_type() == PieceType::King && p.color() == color,
            None => false,
        };
        if matched {
            r = pos;
        }
        i += 1;
    }
    r
}

/// The union of the destinations of every attack walk of this side's
/// pieces: exactly the squares the side threatens. Every marked square is
/// genuinely threatened by a piece of the side, and every threatened
/// square is marked.
fn attack_mask(game: &Game, pieces: Bitboard, Ghost(color): Ghost<Color>) -> (r: Bitboard)
    requires
        game.board_len_ok(),
        forall|i: int| #[trigger] bit64(pieces.0, i) ==> (game@.board[i] matches Some(p) && p.color
            == color),
        forall|i: int|
            0 <= i < 64 && (game@.board[i] matches Some(p) && p.color == color) ==> #[trigger]
            bit64(pieces.0, i),
    ensures
        forall|k: int| #[trigger] bit64(r.0, k) ==> crate::move_generation::square_attacked(
            game@.board,
            color,
            k,
        ),
        forall|k: int| #[trigger] crate::move_generation::square_attacked(game@.board, color, k)
            ==> bit64(r.0, k),
{
    let ghost b = game@.board;
    let mut r: u64 = 0;
    let mut i: usize = 0;
    let generator = MoveGenerator::new(game);
    proof {
        assert forall|k: int| !bit64(0u64, k) by {
            lemma_bit64_zero(k);
        }
    }
    while i < 64
        invariant
            game.board_len_ok(),
            b == game@.board,
            generator.game_is(*game),
            i <= 64,
            forall|i2: int| #[trigger] bit64(pieces.0, i2) ==> (b[i2] matches Some(p) && p.color
                == color),
            forall|i2: int| 0 <= i2 < 64 && (b[i2] matches Some(p) && p.color == color)
                ==> #[trigger] bit64(pieces.0, i2),
            forall|k: int| #[trigger] bit64(r, k) ==> crate::move_generation::square_attacked(
                b,
                color,
                k,
            ),
            forall|from: Position, t: Position|
                from.wf() && t.wf() && from.idx() < i
                    && #[trigger] crate::move_generation::attack_witness(b, color, from, t)
                    ==> bit64(r, t.idx()),
        decreases 64 - i,
    {
        if (pieces.0 >> i) & 1u64 == 1u64 {
            let pos = Position::from_board_index_unchecked(i);
            proof {
                assert(bit64(pieces.0, i as int));
            }
            let attacks = generator.possible_attacking_moves(&pos);
            let mut j: usize = 0;
            while j < attacks.len()
                invariant
                    j <= attacks@.len(),
                    b == game@.board,
                    pos.wf(),
                    pos.idx() == i as int,
                    bit64(pieces.0, i as int),
                    forall|i2: int| #[trigger] bit64(pieces.0, i2) ==> (b[i2] matches Some(p)
                        && p.color == color),
                    forall|k: int| 0 <= k < attacks@.len() ==> {
                        let m = #[trigger] attacks@[k];
                        &&& m.from == pos
                        &&& m.to.wf()
                        &&& (b[pos.idx()] matches Some(p)
                            ==> crate::move_generation::piece_attacks(b, p, pos, m.to))
                    },
                    forall|k2: int| 0 <= k2 < j ==> bit64(r, (#[trigger] attacks@[k2]).to.idx()),
                    forall|k: int| #[trigger] bit64(r, k)
                        ==> crate::move_generation::square_attacked(b, color, k),
                    forall|from: Position, t: Position|
                        from.wf() && t.wf() && from.idx() < i
                            && #[trigger] crate::move_generation::attack_witness(b, color, from, t)
                            ==> bit64(r, t.idx()),
                decreases attacks@.len() - j,
            {
                let m = attacks[j];
                let ghost r0 = r;
                r = r | (1u64 << m.to.board_index());
                proof {
                    assert forall|k: int| #[trigger] bit64(r0, k) implies bit64(r, k) by {
                        lemma_bit64_or_one(r0, m.to.idx() as u64, k);
                    }
                    assert(bit64(r, m.to.idx())) by {
                        lemma_bit64_or_one(r0, m.to.idx() as u64, m.to.idx());
                    }
                    assert(crate::move_generation::attack_witness(b, color, pos, m.to));
                    assert(crate::move_generation::square_attacked(b, color, m.to.idx()));
                    assert forall|k: int| #[trigger] bit64(r, k)
                        implies crate::move_generation::square_attacked(b, color, k) by {
                        lemma_bit64_or_one(r0, m.to.idx() as u64, k);
                    }
                }
                j += 1;
            }
            proof {
                assert forall|from: Position, t: Position|
                    from.wf() && t.wf() && from.idx() < i + 1
                        && #[trigger] crate::move_generation::attack_witness(b, color, from, t)
                        implies bit64(r, t.idx()) by {
                    if from.idx() == i as int {
                        assert(from == pos);
                        let k2 = choose|k2: int|
                            0 <= k2 < attacks@.len() && (#[trigger] attacks@[k2]).to == t;
                        assert(bit64(r, attacks@[k2].to.idx()));
                    }
                }
            }
        } else {
            proof {
                assert forall|from: Position, t: Position|
                    from.wf() && t.wf() && from.idx() < i + 1
                        && #[trigger] crate::move_generation::attack_witness(b, color, from, t)
                        implies bit64(r, t.idx()) by {
                    if from.idx() == i as int {
                        assert(bit64(pieces.0, i as int));
                        assert(false);
                    }
                }
            }
        }
        i += 1;
    }
    proof {
        assert forall|k: int|
            #[trigger] crate::move_generation::square_attacked(b, color, k) implies bit64(
            r,
            k,
        ) by {
            let (from, t) = choose|from: Position, t: Position|
                {
                    &&& from.wf()
                    &&& t.wf()
                    &&& t.idx() == k
                    &&& #[trigger] crate::move_generation::attack_witness(b, color, from, t)
                };
            assert(bit64(r, t.idx()));
        }
    }
    Bitboard(r)
}

/// The square `j` steps from `king` along the direction `(dx, dy)`.
pub open spec fn ray_sq(king: Position, dx: int, dy: int, j: int) -> int {
    crate::game::sqi(king.x + j * dx, king.y + j * dy)
}

/// `k` is the square `j` steps from `king` along `(dx, dy)`.
pub open spec fn ray_on(king: Position, dx: int, dy: int, j: int, k: int) -> bool {
    k == ray_sq(king, dx, dy, j)
}

/// The slider kinds whose geometry matches the direction `(dx, dy)`.
pub open spec fn slider_matches_dir(kind: PieceType, dx: int, dy: int) -> bool {
    if dx == 0 || dy == 0 {
        kind == PieceType::Rook || kind == PieceType::Queen
    } else {
        kind == PieceType::Bishop || kind == PieceType::Queen
    }
}

/// A sliding check-block mask: the mask holds exactly the squares of one
/// ray cast from the king, from the square beside it to the checker
/// inclusive; every ray square short of the checker is empty, and the
/// checker is an enemy slider whose geometry matches the ray.
pub open spec fn sliding_check_shape(
    b: Seq<Option<Piece>>,
    c: Color,
    king: Position,
    dx: int,
    dy: int,
    n: int,
    mask: u64,
) -> bool {
    &&& -1 <= dx <= 1 && -1 <= dy <= 1 && (dx != 0 || dy != 0)
    &&& n >= 1
    &&& forall|k: int| #[trigger] bit64(mask, k) ==> exists|j: int|
        1 <= j <= n && #[trigger] ray_on(king, dx, dy, j, k)
    &&& forall|j: int| 1 <= j <= n ==> bit64(mask, #[trigger] ray_sq(king, dx, dy, j))
    &&& forall|j: int| 1 <= j < n ==> b[#[trigger] ray_sq(king, dx, dy, j)] is None
    &&& (b[ray_sq(king, dx, dy, n)] matches Some(q) && q.color == c.spec_opposite()
        && slider_matches_dir(q.kind, dx, dy))
}

/// A pin mask: as a sliding check mask, except that exactly one friendly
/// piece stands on the ray between king and slider; the mask holds
/// exactly the ray's squares, the pinned piece's among them.
pub open spec fn pin_shape(
    b: Seq<Option<Piece>>,
    c: Color,
    king: Position,
    dx: int,
    dy: int,
    n: int,
    fr: int,
    mask: u64,
) -> bool {
    &&& -1 <= dx <= 1 && -1 <= dy <= 1 && (dx != 0 || dy != 0)
    &&& n >= 1
    &&& 1 <= fr < n
    &&& forall|k: int| #[trigger] bit64(mask, k) ==> exists|j: int|
        1 <= j <= n && #[trigger] ray_on(king, dx, dy, j, k)
    &&& forall|j: int| 1 <= j <= n ==> bit64(mask, #[trigger] ray_sq(king, dx, dy, j))
    &&& (b[ray_sq(king, dx, dy, fr)] matches Some(q) && q.color == c)
    &&& forall|j: int| 1 <= j < n && j != fr ==> b[#[trigger] ray_sq(king, dx, dy, j)] is None
    &&& (b[ray_sq(king, dx, dy, n)] matches Some(q) && q.color == c.spec_opposite()
        && slider_matches_dir(q.kind, dx, dy))
}

/// A single-square check-block mask: a knight or pawn of the other side
/// stands on the square and threatens the king; only the checker's own
/// square can block such a check.
pub open spec fn single_check_shape(
    b: Seq<Option<Piece>>,
    c: Color,
    king: Position,
    a: Position,
    mask: u64,
) -> bool {
    &&& a.wf()
    &&& (b[a.idx()] matches Some(q) && q.color == c.spec_opposite() && (q.kind == PieceType::Knight
        || q.kind == PieceType::Pawn) && crate::move_generation::piece_attacks(b, q, a, king))
    &&& forall|k: int| #[trigger] bit64(mask, k) ==> k == a.idx()
    &&& bit64(mask, a.idx())
}

/// A matching enemy slider checks the king along `(dx, dy)`: standing
/// `n0` steps out on the board, with every square in between empty.
pub open spec fn sliding_check_config(
    b: Seq<Option<Piece>>,
    c: Color,
    king: Position,
    dx: int,
    dy: int,
    n0: int,
) -> bool {
    &&& -1 <= dx <= 1 && -1 <= dy <= 1 && (dx != 0 || dy != 0)
    &&& n0 >= 1
    &&& 0 <= king.x + n0 * dx < 8
    &&& 0 <= king.y + n0 * dy < 8
    &&& forall|j: int| 1 <= j < n0 ==> b[#[trigger] ray_sq(king, dx, dy, j)] is None
    &&& (b[ray_sq(king, dx, dy, n0)] matches Some(q) && q.color == c.spec_opposite()
        && slider_matches_dir(q.kind, dx, dy))
}

/// A matching enemy slider pins one friendly piece along `(dx, dy)`:
/// the slider stands `n0` steps out on the board, a piece of the king's
/// own side stands `fr` steps out, and every other square between is
/// empty.
pub open spec fn pin_config(
    b: Seq<Option<Piece>>,
    c: Color,
    king: Position,
    dx: int,
    dy: int,
    n0: int,
    fr: int,
) -> bool {
    &&& -1 <= dx <= 1 && -1 <= dy <= 1 && (dx != 0 || dy != 0)
    &&& n0 >= 1
    &&& 1 <= fr < n0
    &&& 0 <= king.x + n0 * dx < 8
    &&& 0 <= king.y + n0 * dy < 8
    &&& (b[ray_sq(king, dx, dy, fr)] matches Some(q) && q.color == c)
    &&& forall|j: int| 1 <= j < n0 && j != fr ==> b[#[trigger] ray_sq(king, dx, dy, j)] is None
    &&& (b[ray_sq(king, dx, dy, n0)] matches Some(q) && q.color == c.spec_opposite()
        && slider_matches_dir(q.kind, dx, dy))
}

/// A knight or pawn of the other side stands on `a` and gives check.
pub open spec fn minor_checker(b: Seq<Option<Piece>>, c: Color, king: Position, a: Position) -> bool {
    &&& a.wf()
    &&& (b[a.idx()] matches Some(q) && q.color == c.spec_opposite() && (q.kind == PieceType::Knight
        || q.kind == PieceType::Pawn) && crate::move_generation::piece_attacks(b, q, a, king))
}

/// A recorded check-block mask is one of the two sound shapes.
pub open spec fn check_entry_sound(b: Seq<Option<Piece>>, c: Color, king: Position, mask: u64) -> bool {
    ||| exists|dx: int, dy: int, n: int| #[trigger] sliding_check_shape(b, c, king, dx, dy, n, mask)
    ||| exists|a: Position| #[trigger] single_check_shape(b, c, king, a, mask)
}

/// A recorded pin mask is a sound pin ray.
pub open spec fn pin_entry_sound(b: Seq<Option<Piece>>, c: Color, king: Position, mask: u64) -> bool {
    exists|dx: int, dy: int, n: int, fr: int| #[trigger] pin_shape(b, c, king, dx, dy, n, fr, mask)
}

/// Soundness of the cache's pin rays and check-block masks, for each side
/// relative to its recorded king square.
pub open spec fn masks_sound(bb: GameBitBoards, b: Seq<Option<Piece>>) -> bool {
    &&& forall|e: int| 0 <= e < bb.spec_pinned(Color::White).len() ==> pin_entry_sound(
        b,
        Color::White,
        bb.white_king,
        (#[trigger] bb.spec_pinned(Color::White)[e]).0,
    )
    &&& forall|e: int| 0 <= e < bb.spec_pinned(Color::Black).len() ==> pin_entry_sound(
        b,
        Color::Black,
        bb.black_king,
        (#[trigger] bb.spec_pinned(Color::Black)[e]).0,
    )
    &&& forall|e: int| 0 <= e < bb.spec_checks(Color::White).len() ==> check_entry_sound(
        b,
        Color::White,
        bb.white_king,
        (#[trigger] bb.spec_checks(Color::White)[e]).0,
    )
    &&& forall|e: int| 0 <= e < bb.spec_checks(Color::Black).len() ==> check_entry_sound(
        b,
        Color::Black,
        bb.black_king,
        (#[trigger] bb.spec_checks(Color::Black)[e]).0,
    )
}

/// Completeness of the recorded check-block masks, for each side
/// relative to its recorded king square: every matching enemy slider
/// with a clear run to the king has an entry spanning exactly its ray,
/// and every knight or pawn giving check has its single-square entry.
pub open spec fn checks_complete(bb: GameBitBoards, b: Seq<Option<Piece>>) -> bool {
    &&& forall|dx: int, dy: int, n0: int|
        #[trigger] sliding_check_config(b, Color::White, bb.white_king, dx, dy, n0) ==> exists|
            e: int,
        |
            0 <= e < bb.spec_checks(Color::White).len() && sliding_check_shape(
                b,
                Color::White,
                bb.white_king,
                dx,
                dy,
                n0,
                (#[trigger] bb.spec_checks(Color::White)[e]).0,
            )
    &&& forall|dx: int, dy: int, n0: int|
        #[trigger] sliding_check_config(b, Color::Black, bb.black_king, dx, dy, n0) ==> exists|
            e: int,
        |
            0 <= e < bb.spec_checks(Color::Black).len() && sliding_check_shape(
                b,
                Color::Black,
                bb.black_king,
                dx,
                dy,
                n0,
                (#[trigger] bb.spec_checks(Color::Black)[e]).0,
            )
    &&& forall|a: Position|
        #[trigger] minor_checker(b, Color::White, bb.white_king, a) ==> exists|e: int|
            0 <= e < bb.spec_checks(Color::White).len() && single_check_shape(
                b,
                Color::White,
                bb.white_king,
                a,
                (#[trigger] bb.spec_checks(Color::White)[e]).0,
            )
    &&& forall|a: Position|
        #[trigger] minor_checker(b, Color::Black, bb.black_king, a) ==> exists|e: int|
            0 <= e < bb.spec_checks(Color::Black).len() && single_check_shape(
                b,
                Color::Black,
                bb.black_king,
                a,
                (#[trigger] bb.spec_checks(Color::Black)[e]).0,
            )
}

/// Completeness of the recorded pin rays, for each side relative to its
/// recorded king square: every matching enemy slider with exactly one
/// friendly piece before it has a pin entry spanning exactly its ray.
pub open spec fn pins_complete(bb: GameBitBoards, b: Seq<Option<Piece>>) -> bool {
    &&& forall|dx: int, dy: int, n0: int, fr: int|
        #[trigger] pin_config(b, Color::White, bb.white_king, dx, dy, n0, fr) ==> exists|e: int|
            0 <= e < bb.spec_pinned(Color::White).len() && pin_shape(
                b,
                Color::White,
                bb.white_king,
                dx,
                dy,
                n0,
                fr,
                (#[trigger] bb.spec_pinned(Color::White)[e]).0,
            )
    &&& forall|dx: int, dy: int, n0: int, fr: int|
        #[trigger] pin_config(b, Color::Black, bb.black_king, dx, dy, n0, fr) ==> exists|e: int|
            0 <= e < bb.spec_pinned(Color::Black).len() && pin_shape(
                b,
                Color::Black,
                bb.black_king,
                dx,
                dy,
                n0,
                fr,
                (#[trigger] bb.spec_pinned(Color::Black)[e]).0,
            )
}

/// Casts the eight rays from this side's king to collect pin rays and
/// sliding check-block masks, then adds one single-square entry for each
/// knight or pawn giving check.
#[verifier::rlimit(80)]
fn king_pins_and_checks(
    game: &Game,
    king: Position,
    color: Color,
    enemy_knights: Bitboard,
    enemy_pawns: Bitboard,
) -> (r: (Vec<Bitboard>, Vec<Bitboard>))
    requires
        game.board_len_ok(),
        king.wf(),
        forall|i: int| #[trigger] bit64(enemy_knights.0, i) ==> game@.board[i] == Some(
            Piece { kind: PieceType::Knight, color: color.spec_opposite() },
        ),
        forall|i: int| #[trigger] bit64(enemy_pawns.0, i) ==> game@.board[i] == Some(
            Piece { kind: PieceType::Pawn, color: color.spec_opposite() },
        ),
        forall|i: int|
            0 <= i < 64 && game@.board[i] == Some(
                Piece { kind: PieceType::Knight, color: color.spec_opposite() },
            ) ==> #[trigger] bit64(enemy_knights.0, i),
        forall|i: int|
            0 <= i < 64 && game@.board[i] == Some(
                Piece { kind: PieceType::Pawn, color: color.spec_opposite() },
            ) ==> #[trigger] bit64(enemy_pawns.0, i),
    ensures
        forall|e: int| 0 <= e < r.0@.len() ==> pin_entry_sound(
            game@.board,
            color,
            king,
            (#[trigger] r.0@[e]).0,
        ),
        forall|e: int| 0 <= e < r.1@.len() ==> check_entry_sound(
            game@.board,
            color,
            king,
            (#[trigger] r.1@[e]).0,
        ),
        forall|dx: int, dy: int, n0: int|
            #[trigger] sliding_check_config(game@.board, color, king, dx, dy, n0) ==> exists|
                e: int,
            |
                0 <= e < r.1@.len() && sliding_check_shape(
                    game@.board,
                    color,
                    king,
                    dx,
                    dy,
                    n0,
                    (#[trigger] r.1@[e]).0,
                ),
        forall|a: Position|
            #[trigger] minor_checker(game@.board, color, king, a) ==> exists|e: int|
                0 <= e < r.1@.len() && single_check_shape(
                    game@.board,
                    color,
                    king,
                    a,
                    (#[trigger] r.1@[e]).0,
                ),
        forall|dx: int, dy: int, n0: int, fr: int|
            #[trigger] pin_config(game@.board, color, king, dx, dy, n0, fr) ==> exists|e: int|
                0 <= e < r.0@.len() && pin_shape(
                    game@.board,
                    color,
                    king,
                    dx,
                    dy,
                    n0,
                    fr,
                    (#[trigger] r.0@[e]).0,
                ),
{
    let ghost b = game@.board;
    let mut pins: Vec<Bitboard> = Vec::new();
    let mut checks: Vec<Bitboard> = Vec::new();

    scan_ray(game, king, color, 1, 0, &mut pins, &mut checks);
    scan_ray(game, king, color, 1, 1, &mut pins, &mut checks);
    scan_ray(game, king, color, 0, 1, &mut pins, &mut checks);
    scan_ray(game, king, color, -1, 1, &mut pins, &mut checks);
    scan_ray(game, king, color, -1, 0, &mut pins, &mut checks);
    scan_ray(game, king, color, -1, -1, &mut pins, &mut checks);
    scan_ray(game, king, color, 0, -1, &mut pins, &mut checks);
    scan_ray(game, king, color, 1, -1, &mut pins, &mut checks);
    proof {
        assert forall|dx: int, dy: int, n0: int|
            #[trigger] sliding_check_config(b, color, king, dx, dy, n0) implies exists|e: int|
            0 <= e < checks@.len() && sliding_check_shape(
                b,
                color,
                king,
                dx,
                dy,
                n0,
                (#[trigger] checks@[e]).0,
            ) by {
            if dx == 1 && dy == 0 {
            } else if dx == 1 && dy == 1 {
            } else if dx == 0 && dy == 1 {
            } else if dx == -1 && dy == 1 {
            } else if dx == -1 && dy == 0 {
            } else if dx == -1 && dy == -1 {
            } else if dx == 0 && dy == -1 {
            } else {
                assert(dx == 1 && dy == -1);
            }
        }
        assert forall|dx: int, dy: int, n0: int, fr: int|
            #[trigger] pin_config(b, color, king, dx, dy, n0, fr) implies exists|e: int|
            0 <= e < pins@.len() && pin_shape(
                b,
                color,
                king,
                dx,
                dy,
                n0,
                fr,
                (#[trigger] pins@[e]).0,
            ) by {
            if dx == 1 && dy == 0 {
            } else if dx == 1 && dy == 1 {
            } else if dx == 0 && dy == 1 {
            } else if dx == -1 && dy == 1 {
            } else if dx == -1 && dy == 0 {
            } else if dx == -1 && dy == -1 {
            } else if dx == 0 && dy == -1 {
            } else {
                assert(dx == 1 && dy == -1);
            }
        }
    }

    // Knight and pawn checks: only the checker's own square can block them.
    let generator = MoveGenerator::new(game);
    let mut i: usize = 0;
    while i < 64
        invariant
            game.board_len_ok(),
            b == game@.board,
            generator.game_is(*game),
            king.wf(),
            i <= 64,
            forall|i2: int| #[trigger] bit64(enemy_knights.0, i2) ==> b[i2] == Some(
                Piece { kind: PieceType::Knight, color: color.spec_opposite() },
            ),
            forall|i2: int| #[trigger] bit64(enemy_pawns.0, i2) ==> b[i2] == Some(
                Piece { kind: PieceType::Pawn, color: color.spec_opposite() },
            ),
            forall|i2: int|
                0 <= i2 < 64 && b[i2] == Some(
                    Piece { kind: PieceType::Knight, color: color.spec_opposite() },
                ) ==> #[trigger] bit64(enemy_knights.0, i2),
            forall|i2: int|
                0 <= i2 < 64 && b[i2] == Some(
                    Piece { kind: PieceType::Pawn, color: color.spec_opposite() },
                ) ==> #[trigger] bit64(enemy_pawns.0, i2),
            forall|e: int| 0 <= e < pins@.len() ==> pin_entry_sound(
                b,
                color,
                king,
                (#[trigger] pins@[e]).0,
            ),
            forall|e: int| 0 <= e < checks@.len() ==> check_entry_sound(
                b,
                color,
                king,
                (#[trigger] checks@[e]).0,
            ),
            forall|dx: int, dy: int, n0: int|
                #[trigger] sliding_check_config(b, color, king, dx, dy, n0) ==> exists|e: int|
                    0 <= e < checks@.len() && sliding_check_shape(
                        b,
                        color,
                        king,
                        dx,
                        dy,
                        n0,
                        (#[trigger] checks@[e]).0,
                    ),
            forall|a: Position|
                a.idx() < i && #[trigger] minor_checker(b, color, king, a) ==> exists|e: int|
                    0 <= e < checks@.len() && single_check_shape(
                        b,
                        color,
                        king,
                        a,
                        (#[trigger] checks@[e]).0,
                    ),
        decreases 64 - i,
    {
        let is_minor_attacker = (enemy_knights.0 >> i) & 1u64 == 1u64 || (enemy_pawns.0 >> i)
            & 1u64 == 1u64;
        if is_minor_attacker {
            let pos = Position::from_board_index_unchecked(i);
            proof {
                assert(bit64(enemy_knights.0, i as int) || bit64(enemy_pawns.0, i as int));
            }
            let attacks = generator.possible_attacking_moves(&pos);
            let mut j: usize = 0;
            while j < attacks.len()
                invariant
                    j <= attacks@.len(),
                    b == game@.board,
                    king.wf(),
                    pos.wf(),
                    pos.idx() == i as int,
                    b[pos.idx()] matches Some(q) && q.color == color.spec_opposite() && (q.kind
                        == PieceType::Knight || q.kind == PieceType::Pawn),
                    forall|k: int| 0 <= k < attacks@.len() ==> {
                        let m = #[trigger] attacks@[k];
                        &&& m.from == pos
                        &&& m.to.wf()
                        &&& (b[pos.idx()] matches Some(p)
                            ==> crate::move_generation::piece_attacks(b, p, pos, m.to))
                    },
                    forall|k: int|
                        0 <= k < j && (#[trigger] attacks@[k]).to == king ==> exists|e: int|
                            0 <= e < checks@.len() && single_check_shape(
                                b,
                                color,
                                king,
                                pos,
                                (#[trigger] checks@[e]).0,
                            ),
                    forall|e: int| 0 <= e < checks@.len() ==> check_entry_sound(
                        b,
                        color,
                        king,
                        (#[trigger] checks@[e]).0,
                    ),
                    forall|dx: int, dy: int, n0: int|
                        #[trigger] sliding_check_config(b, color, king, dx, dy, n0) ==> exists|
                            e: int,
                        |
                            0 <= e < checks@.len() && sliding_check_shape(
                                b,
                                color,
                                king,
                                dx,
                                dy,
                                n0,
                                (#[trigger] checks@[e]).0,
                            ),
                    forall|a: Position|
                        a.idx() < i && #[trigger] minor_checker(b, color, king, a) ==> exists|
                            e: int,
                        |
                            0 <= e < checks@.len() && single_check_shape(
                                b,
                                color,
                                king,
                                a,
                                (#[trigger] checks@[e]).0,
                            ),
                decreases attacks@.len() - j,
            {
                let a = attacks[j];
                if a.to.file() == king.file() && a.to.rank() == king.rank() {
                    proof {
                        assert(a.to == king);
                        assert forall|k: int| #[trigger] bit64(1u64 << (pos.idx() as u64), k)
                            implies k == pos.idx() by {
                            lemma_bit64_single(pos.idx() as u64, k);
                        }
                        lemma_bit64_single(pos.idx() as u64, pos.idx());
                        assert(single_check_shape(b, color, king, pos, 1u64 << (pos.idx() as u64)));
                    }
                    let ghost checks0 = checks@;
                    checks.push(Bitboard(1u64 << a.from.board_index()));
                    proof {
                        assert(checks@[checks@.len() - 1].0 == 1u64 << (pos.idx() as u64));
                        assert forall|dx: int, dy: int, n0: int|
                            #[trigger] sliding_check_config(b, color, king, dx, dy, n0)
                                implies exists|e: int|
                            0 <= e < checks@.len() && sliding_check_shape(
                                b,
                                color,
                                king,
                                dx,
                                dy,
                                n0,
                                (#[trigger] checks@[e]).0,
                            ) by {
                            let e = choose|e: int|
                                0 <= e < checks0.len() && sliding_check_shape(
                                    b,
                                    color,
                                    king,
                                    dx,
                                    dy,
                                    n0,
                                    (#[trigger] checks0[e]).0,
                                );
                            assert(checks@[e] == checks0[e]);
                        }
                        assert forall|a2: Position|
                            a2.idx() < i && #[trigger] minor_checker(b, color, king, a2)
                                implies exists|e: int|
                            0 <= e < checks@.len() && single_check_shape(
                                b,
                                color,
                                king,
                                a2,
                                (#[trigger] checks@[e]).0,
                            ) by {
                            let e = choose|e: int|
                                0 <= e < checks0.len() && single_check_shape(
                                    b,
                                    color,
                                    king,
                                    a2,
                                    (#[trigger] checks0[e]).0,
                                );
                            assert(checks@[e] == checks0[e]);
                        }
                    }
                }
                j += 1;
            }
            proof {
                assert forall|a: Position|
                    a.idx() < i + 1 && #[trigger] minor_checker(b, color, king, a) implies exists|
                    e: int,
                |
                    0 <= e < checks@.len() && single_check_shape(
                        b,
                        color,
                        king,
                        a,
                        (#[trigger] checks@[e]).0,
                    ) by {
                    if a.idx() == i as int {
                        assert(a == pos);
                        let k = choose|k: int|
                            0 <= k < attacks@.len() && (#[trigger] attacks@[k]).to == king;
                        assert(attacks@[k].to == king);
                    }
                }
            }
        } else {
            proof {
                assert forall|a: Position|
                    a.idx() < i + 1 && #[trigger] minor_checker(b, color, king, a) implies exists|
                    e: int,
                |
                    0 <= e < checks@.len() && single_check_shape(
                        b,
                        color,
                        king,
                        a,
                        (#[trigger] checks@[e]).0,
                    ) by {
                    if a.idx() == i as int {
                        assert(bit64(enemy_knights.0, i as int) || bit64(enemy_pawns.0, i as int));
                        assert(false);
                    }
                }
            }
        }
        i += 1;
    }
    proof {
        assert forall|a: Position| #[trigger] minor_checker(b, color, king, a) implies exists|
            e: int,
        |
            0 <= e < checks@.len() && single_check_shape(
                b,
                color,
                king,
                a,
                (#[trigger] checks@[e]).0,
            ) by {
            assert(a.idx() < 64);
        }
    }

    let ghost checks_final = checks@;
    let ghost pins_final = pins@;
    let r_out = (pins, checks);
    proof {
        assert(r_out.1@ == checks_final);
        assert(r_out.0@ == pins_final);
        assert forall|dx: int, dy: int, n0: int, fr: int|
            #[trigger] pin_config(game@.board, color, king, dx, dy, n0, fr) implies exists|e: int|
            0 <= e < r_out.0@.len() && pin_shape(
                game@.board,
                color,
                king,
                dx,
                dy,
                n0,
                fr,
                (#[trigger] r_out.0@[e]).0,
            ) by {
            assert(pin_config(b, color, king, dx, dy, n0, fr));
            let e = choose|e: int|
                0 <= e < pins_final.len() && pin_shape(
                    b,
                    color,
                    king,
                    dx,
                    dy,
                    n0,
                    fr,
                    (#[trigger] pins_final[e]).0,
                );
            assert(r_out.0@[e] == pins_final[e]);
        }
        assert forall|dx: int, dy: int, n0: int|
            #[trigger] sliding_check_config(game@.board, color, king, dx, dy, n0) implies exists|
            e: int,
        |
            0 <= e < r_out.1@.len() && sliding_check_shape(
                game@.board,
                color,
                king,
                dx,
                dy,
                n0,
                (#[trigger] r_out.1@[e]).0,
            ) by {
            assert(sliding_check_config(b, color, king, dx, dy, n0));
            let e = choose|e: int|
                0 <= e < checks_final.len() && sliding_check_shape(
                    b,
                    color,
                    king,
                    dx,
                    dy,
                    n0,
                    (#[trigger] checks_final[e]).0,
                );
            assert(r_out.1@[e] == checks_final[e]);
        }
        assert forall|a: Position|
            #[trigger] minor_checker(game@.board, color, king, a) implies exists|e: int|
            0 <= e < r_out.1@.len() && single_check_shape(
                game@.board,
                color,
                king,
                a,
                (#[trigger] r_out.1@[e]).0,
            ) by {
            assert(minor_checker(b, color, king, a));
            assert(a.idx() < 64);
            let e = choose|e: int|
                0 <= e < checks_final.len() && single_check_shape(
                    b,
                    color,
                    king,
                    a,
                    (#[trigger] checks_final[e]).0,
                );
            assert(r_out.1@[e] == checks_final[e]);
        }
    }
    r_out
}

/// Walks one ray away from the king. A matching enemy slider met with no
/// friendly piece in between records a check-block mask; met past exactly
/// one friendly piece it records a pin ray. The mask spans every square
/// from the king (exclusive) to the slider (inclusive), and each recorded
/// mask satisfies its sound shape.
#[verifier::rlimit(80)]
fn scan_ray(
    game: &Game,
    king: Position,
    color: Color,
    dx: i8,
    dy: i8,
    pins: &mut Vec<Bitboard>,
    checks: &mut Vec<Bitboard>,
)
    requires
        game.board_len_ok(),
        king.wf(),
        -1 <= dx <= 1,
        -1 <= dy <= 1,
        dx != 0 || dy != 0,
    ensures
        final(pins)@.len() >= old(pins)@.len(),
        forall|e: int| 0 <= e < old(pins)@.len() ==> final(pins)@[e] == old(pins)@[e],
        forall|e: int|
            old(pins)@.len() <= e < final(pins)@.len() ==> pin_entry_sound(
                game@.board,
                color,
                king,
                (#[trigger] final(pins)@[e]).0,
            ),
        final(checks)@.len() >= old(checks)@.len(),
        forall|e: int| 0 <= e < old(checks)@.len() ==> final(checks)@[e] == old(checks)@[e],
        forall|e: int|
            old(checks)@.len() <= e < final(checks)@.len() ==> check_entry_sound(
                game@.board,
                color,
                king,
                (#[trigger] final(checks)@[e]).0,
            ),
        forall|n0: int|
            #[trigger] sliding_check_config(game@.board, color, king, dx as int, dy as int, n0)
                ==> exists|e: int|
                0 <= e < final(checks)@.len() && sliding_check_shape(
                    game@.board,
                    color,
                    king,
                    dx as int,
                    dy as int,
                    n0,
                    (#[trigger] final(checks)@[e]).0,
                ),
        forall|n0: int, fr0: int|
            #[trigger] pin_config(game@.board, color, king, dx as int, dy as int, n0, fr0)
                ==> exists|e: int|
                0 <= e < final(pins)@.len() && pin_shape(
                    game@.board,
                    color,
                    king,
                    dx as int,
                    dy as int,
                    n0,
                    fr0,
                    (#[trigger] final(pins)@[e]).0,
                ),
{
    let ghost b = game@.board;
    let rook_like = dx == 0 || dy == 0;
    let mut position = king;
    let mut count: u32 = 0;
    let mut pinned: u64 = 0;
    let ghost mut n: int = 0;
    let ghost mut fr: int = 0;
    proof {
        assert forall|k: int| !bit64(0u64, k) by {
            lemma_bit64_zero(k);
        }
    }
    loop
        invariant_except_break
            count <= 1,
            n >= 0,
            position.x == king.x + n * dx,
            position.y == king.y + n * dy,
            forall|k: int| #[trigger] bit64(pinned, k) ==> exists|j: int|
                1 <= j <= n && #[trigger] ray_on(king, dx as int, dy as int, j, k),
            forall|j: int| 1 <= j <= n ==> bit64(pinned, #[trigger] ray_sq(
                king,
                dx as int,
                dy as int,
                j,
            )),
            count == 0 ==> forall|j: int| 1 <= j <= n ==> b[#[trigger] ray_sq(
                king,
                dx as int,
                dy as int,
                j,
            )] is None,
            count == 1 ==> {
                &&& 1 <= fr <= n
                &&& (b[ray_sq(king, dx as int, dy as int, fr)] matches Some(q) && q.color == color)
                &&& forall|j: int| 1 <= j <= n && j != fr ==> b[#[trigger] ray_sq(
                    king,
                    dx as int,
                    dy as int,
                    j,
                )] is None
            },
        invariant
            game.board_len_ok(),
            b == game@.board,
            king.wf(),
            position.wf(),
            -1 <= dx <= 1,
            -1 <= dy <= 1,
            dx != 0 || dy != 0,
            rook_like == (dx == 0 || dy == 0),
            pins@.len() >= old(pins)@.len(),
            forall|e: int| 0 <= e < old(pins)@.len() ==> pins@[e] == old(pins)@[e],
            forall|e: int|
                old(pins)@.len() <= e < pins@.len() ==> pin_entry_sound(
                    b,
                    color,
                    king,
                    (#[trigger] pins@[e]).0,
                ),
            checks@.len() >= old(checks)@.len(),
            forall|e: int| 0 <= e < old(checks)@.len() ==> checks@[e] == old(checks)@[e],
            forall|e: int|
                old(checks)@.len() <= e < checks@.len() ==> check_entry_sound(
                    b,
                    color,
                    king,
                    (#[trigger] checks@[e]).0,
                ),
        ensures
            forall|n0: int|
                #[trigger] sliding_check_config(b, color, king, dx as int, dy as int, n0)
                    ==> exists|e: int|
                    0 <= e < checks@.len() && sliding_check_shape(
                        b,
                        color,
                        king,
                        dx as int,
                        dy as int,
                        n0,
                        (#[trigger] checks@[e]).0,
                    ),
            forall|n0: int, fr0: int|
                #[trigger] pin_config(b, color, king, dx as int, dy as int, n0, fr0) ==> exists|
                    e: int,
                |
                    0 <= e < pins@.len() && pin_shape(
                        b,
                        color,
                        king,
                        dx as int,
                        dy as int,
                        n0,
                        fr0,
                        (#[trigger] pins@[e]).0,
                    ),
        decreases (
            if dx > 0 {
                7 - position.x as int
            } else if dx < 0 {
                position.x as int
            } else if dy > 0 {
                7 - position.y as int
            } else {
                position.y as int
            }
        ),
    {
        position = match position.offset(dx, dy) {
            Some(p) => p,
            None => {
                // The ray leaves the board with no checker found: no
                // on-board configuration reaches past the walked squares.
                proof {
                    assert forall|n0: int|
                        #[trigger] sliding_check_config(b, color, king, dx as int, dy as int, n0)
                            implies exists|e: int|
                        0 <= e < checks@.len() && sliding_check_shape(
                            b,
                            color,
                            king,
                            dx as int,
                            dy as int,
                            n0,
                            (#[trigger] checks@[e]).0,
                        ) by {
                        if n0 <= n {
                            if count == 1 && n0 == fr {
                                assert(false);
                            } else {
                                assert(b[ray_sq(king, dx as int, dy as int, n0)] is None);
                                assert(false);
                            }
                        } else {
                            lemma_mul_sign(n0, dx as int);
                            lemma_mul_sign(n, dx as int);
                            lemma_mul_sign(n0, dy as int);
                            lemma_mul_sign(n, dy as int);
                            if !(0 <= position.x + dx && position.x + dx < 8) {
                                assert(false);
                            } else {
                                assert(dy != 0);
                                assert(false);
                            }
                        }
                    }
                    assert forall|n0: int, fr0: int|
                        #[trigger] pin_config(b, color, king, dx as int, dy as int, n0, fr0)
                            implies exists|e: int|
                        0 <= e < pins@.len() && pin_shape(
                            b,
                            color,
                            king,
                            dx as int,
                            dy as int,
                            n0,
                            fr0,
                            (#[trigger] pins@[e]).0,
                        ) by {
                        if n0 <= n {
                            if count == 1 && n0 == fr {
                                assert(false);
                            } else {
                                assert(b[ray_sq(king, dx as int, dy as int, n0)] is None);
                                assert(false);
                            }
                        } else {
                            lemma_mul_sign(n0, dx as int);
                            lemma_mul_sign(n, dx as int);
                            lemma_mul_sign(n0, dy as int);
                            lemma_mul_sign(n, dy as int);
                            if !(0 <= position.x + dx && position.x + dx < 8) {
                                assert(false);
                            } else {
                                assert(dy != 0);
                                assert(false);
                            }
                        }
                    }
                }
                break;
            }
        };
        proof {
            assert((n + 1) * dx == n * dx + dx) by (nonlinear_arith);
            assert((n + 1) * dy == n * dy + dy) by (nonlinear_arith);
            n = n + 1;
        }
        let ghost pinned0 = pinned;
        pinned = pinned | (1u64 << position.board_index());
        proof {
            assert(ray_on(king, dx as int, dy as int, n, position.idx()));
            assert forall|k: int| #[trigger] bit64(pinned, k) implies exists|j: int|
                1 <= j <= n && #[trigger] ray_on(king, dx as int, dy as int, j, k) by {
                lemma_bit64_or_one(pinned0, position.idx() as u64, k);
            }
            assert forall|j: int| 1 <= j <= n implies bit64(pinned, #[trigger] ray_sq(
                king,
                dx as int,
                dy as int,
                j,
            )) by {
                lemma_bit64_or_one(pinned0, position.idx() as u64, ray_sq(
                    king,
                    dx as int,
                    dy as int,
                    j,
                ));
                if j == n {
                    assert(ray_sq(king, dx as int, dy as int, n) == position.idx());
                }
            }
        }

        let occupant = match game.board().piece_at(&position) {
            Some(p) => Some(*p),
            None => None,
        };
        if let Some(piece) = occupant {
            if piece.color() != color {
                let matches_ray = if rook_like {
                    piece.piece_type() == PieceType::Rook || piece.piece_type() == PieceType::Queen
                } else {
                    piece.piece_type() == PieceType::Bishop || piece.piece_type()
                        == PieceType::Queen
                };
                if matches_ray {
                    if count == 0 {
                        proof {
                            assert(sliding_check_shape(
                                b,
                                color,
                                king,
                                dx as int,
                                dy as int,
                                n,
                                pinned,
                            ));
                        }
                        checks.push(Bitboard(pinned));
                    } else if count == 1 {
                        proof {
                            assert(pin_shape(b, color, king, dx as int, dy as int, n, fr, pinned));
                        }
                        pins.push(Bitboard(pinned));
                    }
                }
                // The enemy blocker ends the ray: the only possible
                // checker on it is this blocker itself, and when it is a
                // matching slider with a clear run its entry was just
                // recorded.
                proof {
                    assert forall|n0: int|
                        #[trigger] sliding_check_config(b, color, king, dx as int, dy as int, n0)
                            implies exists|e: int|
                        0 <= e < checks@.len() && sliding_check_shape(
                            b,
                            color,
                            king,
                            dx as int,
                            dy as int,
                            n0,
                            (#[trigger] checks@[e]).0,
                        ) by {
                        assert(ray_sq(king, dx as int, dy as int, n) == position.idx());
                        if n0 < n {
                            if count == 1 && n0 == fr {
                                assert(false);
                            } else {
                                assert(b[ray_sq(king, dx as int, dy as int, n0)] is None);
                                assert(false);
                            }
                        } else if n0 == n {
                            if matches_ray && count == 0 {
                                assert(checks@[checks@.len() - 1].0 == pinned);
                                assert(sliding_check_shape(
                                    b,
                                    color,
                                    king,
                                    dx as int,
                                    dy as int,
                                    n0,
                                    checks@[checks@.len() - 1].0,
                                ));
                            } else if !matches_ray {
                                assert(false);
                            } else {
                                assert(b[ray_sq(king, dx as int, dy as int, fr)] is Some);
                                assert(false);
                            }
                        } else {
                            assert(b[ray_sq(king, dx as int, dy as int, n)] is None);
                            assert(false);
                        }
                    }
                    assert forall|n0: int, fr0: int|
                        #[trigger] pin_config(b, color, king, dx as int, dy as int, n0, fr0)
                            implies exists|e: int|
                        0 <= e < pins@.len() && pin_shape(
                            b,
                            color,
                            king,
                            dx as int,
                            dy as int,
                            n0,
                            fr0,
                            (#[trigger] pins@[e]).0,
                        ) by {
                        assert(ray_sq(king, dx as int, dy as int, n) == position.idx());
                        if n0 < n {
                            if count == 1 && n0 == fr {
                                assert(false);
                            } else {
                                assert(b[ray_sq(king, dx as int, dy as int, n0)] is None);
                                assert(false);
                            }
                        } else if n0 == n {
                            if count == 0 {
                                assert(b[ray_sq(king, dx as int, dy as int, fr0)] is None);
                                assert(false);
                            } else if !matches_ray {
                                assert(false);
                            } else {
                                assert(fr0 == fr);
                                assert(pins@[pins@.len() - 1].0 == pinned);
                            }
                        } else {
                            assert(b[ray_sq(king, dx as int, dy as int, n)] is None);
                            assert(false);
                        }
                    }
                }
                break;
            } else {
                proof {
                    if count == 0 {
                        fr = n;
                    }
                }
                count = count + 1;
            }
        }

        if count >= 2 {
            // Two friendly pieces in between: no pin or check on this
            // ray, and no configuration's empty run can span them.
            proof {
                assert forall|n0: int|
                    #[trigger] sliding_check_config(b, color, king, dx as int, dy as int, n0)
                        implies exists|e: int|
                    0 <= e < checks@.len() && sliding_check_shape(
                        b,
                        color,
                        king,
                        dx as int,
                        dy as int,
                        n0,
                        (#[trigger] checks@[e]).0,
                    ) by {
                    assert(ray_sq(king, dx as int, dy as int, n) == position.idx());
                    if n0 < n {
                        if n0 == fr {
                            assert(false);
                        } else {
                            assert(b[ray_sq(king, dx as int, dy as int, n0)] is None);
                            assert(false);
                        }
                    } else if n0 == n {
                        assert(false);
                    } else {
                        assert(b[ray_sq(king, dx as int, dy as int, fr)] is Some);
                        assert(false);
                    }
                }
                assert forall|n0: int, fr0: int|
                    #[trigger] pin_config(b, color, king, dx as int, dy as int, n0, fr0)
                        implies exists|e: int|
                    0 <= e < pins@.len() && pin_shape(
                        b,
                        color,
                        king,
                        dx as int,
                        dy as int,
                        n0,
                        fr0,
                        (#[trigger] pins@[e]).0,
                    ) by {
                    assert(ray_sq(king, dx as int, dy as int, n) == position.idx());
                    if n0 < n {
                        if n0 == fr {
                            assert(false);
                        } else {
                            assert(b[ray_sq(king, dx as int, dy as int, n0)] is None);
                            assert(false);
                        }
                    } else if n0 == n {
                        assert(false);
                    } else {
                        if fr0 == fr {
                            assert(b[ray_sq(king, dx as int, dy as int, n)] is None);
                        } else {
                            assert(b[ray_sq(king, dx as int, dy as int, fr)] is None);
                        }
                        assert(false);
                    }
                }
            }
            break;
        }
    }
}

} // verus!
