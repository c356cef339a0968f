use vstd::prelude::*;

use crate::board::Board;
use crate::color::Color;
use crate::errors::MalformedRecord;
use crate::game::{ep_target_ok, sqi, CastleRights, Game, GameModel};
use crate::piece::Piece;
use crate::piece_type::PieceType;
use crate::position::Position;

verus! {

/// The digit character for a run of `n` empty squares.
pub open spec fn digit_char(n: int) -> char {
    (('0' as u8) + n) as char
}

/// The text of one rank from file `col` on, with `pending` empty squares
/// seen and not yet flushed: runs of empties print as one digit, pieces
/// print as their letters.
pub open spec fn rank_text(b: Seq<Option<Piece>>, row: int, col: int, pending: int) -> Seq<char>
    decreases 8 - col,
{
    if col >= 8 {
        if pending > 0 {
            seq![digit_char(pending)]
        } else {
            Seq::<char>::empty()
        }
    } else {
        match b[sqi(col, row)] {
            Some(p) => (if pending > 0 {
                seq![digit_char(pending)]
            } else {
                Seq::<char>::empty()
            }) + seq![p.spec_print_char()] + rank_text(b, row, col + 1, 0),
            None => rank_text(b, row, col + 1, pending + 1),
        }
    }
}

/// The placement text of the ranks from `row` down to rank 1 (row 0),
/// separated by `/`.
pub open spec fn rows_text(b: Seq<Option<Piece>>, row: int) -> Seq<char>
    decreases row,
{
    rank_text(b, row, 0, 0) + if row > 0 {
        seq!['/'] + rows_text(b, row - 1)
    } else {
        Seq::<char>::empty()
    }
}

/// The side-to-move letter.
pub open spec fn turn_char(c: Color) -> char {
    if c == Color::White {
        'w'
    } else {
        'b'
    }
}

/// The castling-rights field: white's letters then black's, or a dash
/// when neither side retains any right.
pub open spec fn rights_text(w: CastleRights, b: CastleRights) -> Seq<char> {
    if w == CastleRights::Neither && b == CastleRights::Neither {
        "-"@
    } else if w == CastleRights::Neither {
        b.spec_text(Color::Black)
    } else if b == CastleRights::Neither {
        w.spec_text(Color::White)
    } else {
        w.spec_text(Color::White) + b.spec_text(Color::Black)
    }
}

/// The en-passant field: the target square's name or a dash.
pub open spec fn ep_text(ep: Option<Position>) -> Seq<char> {
    match ep {
        Some(p) => p.text(),
        None => "-"@,
    }
}

/// The whole textual record of a game: placement, side to move, rights
/// and en-passant target, with the two move counters fixed at 0 and 1.
pub open spec fn fen_text(g: GameModel) -> Seq<char> {
    rows_text(g.board, 7) + seq![' ', turn_char(g.turn), ' '] + rights_text(
        g.white_rights,
        g.black_rights,
    ) + seq![' '] + ep_text(g.ep) + seq![' ', '0', ' ', '1']
}

/// The empty 64-slot board.
pub open spec fn empty_board() -> Seq<Option<Piece>> {
    Seq::new(64, |i: int| None::<Piece>)
}

/// The board described by the placement characters `cs[i..]`, filling in
/// onto `b` from file `col` of rank `row`: `/` steps down one rank, a
/// digit skips that many files, a piece letter places its piece. A run
/// past the board or an unknown letter parses to nothing.
pub open spec fn place_chars(
    cs: Seq<char>,
    i: int,
    row: int,
    col: int,
    b: Seq<Option<Piece>>,
) -> Option<Seq<Option<Piece>>>
    decreases cs.len() - i,
{
    if i >= cs.len() {
        Some(b)
    } else {
        let c = cs[i];
        if c == '/' {
            if row == 0 {
                None
            } else {
                place_chars(cs, i + 1, row - 1, 0, b)
            }
        } else if '0' <= c && c <= '9' {
            let skip = c as int - '0' as int;
            if col + skip > 8 {
                None
            } else {
                place_chars(cs, i + 1, row, col + skip, b)
            }
        } else {
            match spec_piece_of_char(c) {
                Some(p) => if col >= 8 {
                    None
                } else {
                    place_chars(cs, i + 1, row, col + 1, b.update(sqi(col, row), Some(p)))
                },
                None => None,
            }
        }
    }
}

/// The index just past the spaces running from `i`.
pub open spec fn spec_skip(cs: Seq<char>, i: int) -> int
    decreases cs.len() - i,
{
    if 0 <= i < cs.len() && cs[i] == ' ' {
        spec_skip(cs, i + 1)
    } else {
        i
    }
}

/// The index just past the non-space characters running from `i`.
pub open spec fn spec_token_end(cs: Seq<char>, i: int) -> int
    decreases cs.len() - i,
{
    if 0 <= i < cs.len() && cs[i] != ' ' {
        spec_token_end(cs, i + 1)
    } else {
        i
    }
}

/// The side to move named by the token `cs[a..b]`; an absent token
/// defaults to white.
pub open spec fn turn_of_token(cs: Seq<char>, a: int, b: int) -> Option<Color> {
    if a == b {
        Some(Color::White)
    } else if b - a == 1 {
        let c = cs[a];
        if c == 'w' || c == 'W' {
            Some(Color::White)
        } else if c == 'b' || c == 'B' {
            Some(Color::Black)
        } else {
            None
        }
    } else {
        None
    }
}

/// The rights flags after reading the token characters `cs[a..b]` onto
/// the given flags, letter by letter.
pub open spec fn rights_flags(
    cs: Seq<char>,
    a: int,
    b: int,
    wk: bool,
    wq: bool,
    bk: bool,
    bq: bool,
) -> Option<(bool, bool, bool, bool)>
    decreases b - a,
{
    if a >= b {
        Some((wk, wq, bk, bq))
    } else {
        let c = cs[a];
        if c == 'K' {
            rights_flags(cs, a + 1, b, true, wq, bk, bq)
        } else if c == 'Q' {
            rights_flags(cs, a + 1, b, wk, true, bk, bq)
        } else if c == 'k' {
            rights_flags(cs, a + 1, b, wk, wq, true, bq)
        } else if c == 'q' {
            rights_flags(cs, a + 1, b, wk, wq, bk, true)
        } else if c == '-' {
            rights_flags(cs, a + 1, b, wk, wq, bk, bq)
        } else {
            None
        }
    }
}

/// Both sides' castling rights named by the token `cs[a..b]`.
pub open spec fn rights_of_token(cs: Seq<char>, a: int, b: int) -> Option<
    (CastleRights, CastleRights),
> {
    match rights_flags(cs, a, b, false, false, false, false) {
        Some(f) => Some(
            (crate::game::spec_rights_from_flags(f.0, f.1), crate::game::spec_rights_from_flags(
                f.2,
                f.3,
            )),
        ),
        None => None,
    }
}

/// The en-passant target named by the token `cs[a..b]`: a dash or an
/// absent token names none, a square name names that square.
pub open spec fn ep_of_token(cs: Seq<char>, a: int, b: int) -> Option<Option<Position>> {
    if a == b {
        Some(None)
    } else if b - a == 1 && cs[a] == '-' {
        Some(None)
    } else if b - a == 2 {
        let c0 = cs[a];
        let c1 = cs[a + 1];
        if 'a' <= c0 <= 'h' && '1' <= c1 <= '8' {
            Some(
                Some(
                    Position {
                        x: (c0 as u8 - ('a' as u8)) as u8,
                        y: (c1 as u8 - ('1' as u8)) as u8,
                    },
                ),
            )
        } else {
            None
        }
    } else {
        None
    }
}

/// The whole record: four space-separated fields (the trailing move
/// counters are ignored), of which only the placement is mandatory.
pub open spec fn fen_parse(cs: Seq<char>) -> Option<
    (Seq<Option<Piece>>, Color, CastleRights, CastleRights, Option<Position>),
> {
    let a0 = spec_skip(cs, 0);
    let b0 = spec_token_end(cs, a0);
    let a1 = spec_skip(cs, b0);
    let b1 = spec_token_end(cs, a1);
    let a2 = spec_skip(cs, b1);
    let b2 = spec_token_end(cs, a2);
    let a3 = spec_skip(cs, b2);
    let b3 = spec_token_end(cs, a3);
    if a0 == b0 {
        None
    } else {
        match place_chars(cs.subrange(a0, b0), 0, 7, 0, empty_board()) {
            None => None,
            Some(board) => match turn_of_token(cs, a1, b1) {
                None => None,
                Some(turn) => match rights_of_token(cs, a2, b2) {
                    None => None,
                    Some(rights) => match ep_of_token(cs, a3, b3) {
                        None => None,
                        Some(ep) => Some((board, turn, rights.0, rights.1, ep)),
                    },
                },
            },
        }
    }
}

/// The coherent part of a parsed en-passant target: kept only where the
/// board shows the double push it claims.
pub open spec fn ep_filtered(
    board: Seq<Option<Piece>>,
    turn: Color,
    ep: Option<Position>,
) -> Option<Position> {
    match ep {
        Some(t) => if ep_target_ok(board, turn, t) {
            Some(t)
        } else {
            None
        },
        None => None,
    }
}

/// The textual position codec: between a `Game` and the compact
/// board-layout record.
///
/// Reading is lenient in exactly one place: an en-passant field that
/// names a syntactically valid square which no double pawn push just
/// made (wrong rank, occupied target, or no enemy pawn behind it) is
/// dropped rather than kept or rejected, because the data model allows
/// a target only immediately after a double push. `ep_filtered` in the
/// reader's contract states this exactly.
pub struct Fen;

impl Fen {
    /// The textual record of `game`, exactly as `fen_text` lays it out.
    #[verifier::rlimit(60)]
    pub fn from_game(game: &Game) -> (r: String)
        requires
            game.wf(),
        ensures
            r@ =~= fen_text(game@),
    {
        let mut fen = String::new();
        let board = game.board();

        let mut row_plus: u8 = 8;
        while row_plus > 0
            invariant
                game.wf(),
                board.wf(),
                board@ == game@.board,
                row_plus <= 8,
                rows_text(game@.board, 7) =~= fen@ + if row_plus > 0 {
                    rows_text(game@.board, row_plus - 1)
                } else {
                    Seq::<char>::empty()
                },
            decreases row_plus,
        {
            let row = row_plus - 1;
            let ghost fen_at_row_start = fen@;
            let mut empty: u8 = 0;
            let mut col: u8 = 0;
            while col < 8
                invariant
                    game.wf(),
                    board.wf(),
                    board@ == game@.board,
                    row < 8,
                    col <= 8,
                    empty <= col,
                    rank_text(game@.board, row as int, 0, 0) =~= fen@.skip(
                        fen_at_row_start.len() as int,
                    ) + rank_text(game@.board, row as int, col as int, empty as int),
                    fen@.take(fen_at_row_start.len() as int) =~= fen_at_row_start,
                    fen@.len() >= fen_at_row_start.len(),
                decreases 8 - col,
            {
                let position = Position::new_unchecked(col, row);
                match board.piece_at(&position) {
                    Some(piece) => {
                        if empty > 0 {
                            crate::strings::push_char(&mut fen, (('0' as u8) + empty) as char);
                            empty = 0;
                        }
                        crate::strings::push_char(&mut fen, piece.get_print_char());
                    },
                    None => {
                        empty = empty + 1;
                    },
                }
                col = col + 1;
            }
            if empty > 0 {
                crate::strings::push_char(&mut fen, (('0' as u8) + empty) as char);
            }
            if row > 0 {
                crate::strings::push_char(&mut fen, '/');
            }
            row_plus = row_plus - 1;
        }

        proof {
            assert(fen@ =~= rows_text(game@.board, 7));
        }
        let ghost placement = fen@;
        crate::strings::push_char(&mut fen, ' ');
        match game.current_turn() {
            Color::White => crate::strings::push_char(&mut fen, 'w'),
            Color::Black => crate::strings::push_char(&mut fen, 'b'),
        }
        crate::strings::push_char(&mut fen, ' ');

        let white_castling = game.white_castle_rights();
        let black_castling = game.black_castle_rights();
        let white_none = matches!(white_castling, CastleRights::Neither);
        let black_none = matches!(black_castling, CastleRights::Neither);
        if white_none && black_none {
            crate::strings::push_char(&mut fen, '-');
        } else if white_none {
            fen.append(black_castling.to_string(Color::Black));
        } else if black_none {
            fen.append(white_castling.to_string(Color::White));
        } else {
            fen.append(white_castling.to_string(Color::White));
            fen.append(black_castling.to_string(Color::Black));
        }

        proof {
            reveal_strlit("-");
            assert(fen@ =~= placement + seq![' ', turn_char(game@.turn), ' '] + rights_text(
                game@.white_rights,
                game@.black_rights,
            ));
        }
        let ghost with_rights = fen@;
        crate::strings::push_char(&mut fen, ' ');
        match game.en_passent_field() {
            Some(p) => {
                let t = p.to_string();
                fen.append(t.as_str());
            },
            None => {
                crate::strings::push_char(&mut fen, '-');
            },
        }

        proof {
            reveal_strlit("-");
            assert(fen@ =~= with_rights + seq![' '] + ep_text(game@.ep));
        }
        crate::strings::push_char(&mut fen, ' ');
        crate::strings::push_char(&mut fen, '0');
        crate::strings::push_char(&mut fen, ' ');
        crate::strings::push_char(&mut fen, '1');

        fen
    }

    /// The piece a placement letter names.
    fn piece_of_char(c: char) -> (r: Option<Piece>)
        ensures
            r == spec_piece_of_char(c),
    {
        match c {
            'P' => Some(Piece::new(PieceType::Pawn, Color::White)),
            'p' => Some(Piece::new(PieceType::Pawn, Color::Black)),
            'N' => Some(Piece::new(PieceType::Knight, Color::White)),
            'n' => Some(Piece::new(PieceType::Knight, Color::Black)),
            'B' => Some(Piece::new(PieceType::Bishop, Color::White)),
            'b' => Some(Piece::new(PieceType::Bishop, Color::Black)),
            'R' => Some(Piece::new(PieceType::Rook, Color::White)),
            'r' => Some(Piece::new(PieceType::Rook, Color::Black)),
            'Q' => Some(Piece::new(PieceType::Queen, Color::White)),
            'q' => Some(Piece::new(PieceType::Queen, Color::Black)),
            'K' => Some(Piece::new(PieceType::King, Color::White)),
            'k' => Some(Piece::new(PieceType::King, Color::Black)),
            _ => None,
        }
    }

    /// Reads the placement field (characters `start..end` of `s`) onto an
    /// empty board, exactly as `place_chars` describes it.
    fn parse_placement(s: &str, start: usize, end: usize) -> (r: Result<Board, MalformedRecord>)
        requires
            start <= end <= s@.len(),
        ensures
            r is Ok <==> place_chars(
                s@.subrange(start as int, end as int),
                0,
                7,
                0,
                empty_board(),
            ) is Some,
            r matches Ok(b) ==> b.wf() && Some(b@) == place_chars(
                s@.subrange(start as int, end as int),
                0,
                7,
                0,
                empty_board(),
            ),
    {
        let ghost cs = s@.subrange(start as int, end as int);
        let mut board = Board::default();
        proof {
            assert(board@ =~= empty_board());
        }
        let mut row: u8 = 7;
        let mut col: u8 = 0;
        let mut i: usize = start;
        while i < end
            invariant
                start <= i <= end <= s@.len(),
                cs == s@.subrange(start as int, end as int),
                board.wf(),
                row < 8,
                col <= 8,
                place_chars(cs, 0, 7, 0, empty_board()) == place_chars(
                    cs,
                    i - start,
                    row as int,
                    col as int,
                    board@,
                ),
            decreases end - i,
        {
            let c = s.get_char(i);
            proof {
                assert(cs[i - start] == s@[i as int]);
            }
            if c == '/' {
                if row == 0 {
                    return Err(MalformedRecord::new());
                }
                row = row - 1;
                col = 0;
            } else if '0' <= c && c <= '9' {
                let skip = c as u8 - ('0' as u8);
                if col + skip > 8 {
                    return Err(MalformedRecord::new());
                }
                col = col + skip;
            } else {
                let piece = match Self::piece_of_char(c) {
                    Some(p) => p,
                    None => {
                        return Err(MalformedRecord::new());
                    },
                };
                if col >= 8 {
                    return Err(MalformedRecord::new());
                }
                board.place_piece(piece, &Position::new_unchecked(col, row));
                col = col + 1;
            }
            i += 1;
        }
        Ok(board)
    }

    /// Reads a game out of its textual record, exactly as `fen_parse`
    /// describes it: placement, then the optional side-to-move,
    /// castling-rights and en-passant fields, each separated by spaces;
    /// missing fields default to white to move, no rights and no target.
    /// An en-passant square that does not name the skipped square of a
    /// double pawn push just made is dropped, so that the target is only
    /// ever set as the data model allows. Anything after the en-passant
    /// field (the move counters) is ignored.
    pub fn parse_game(fen: &str) -> (r: Result<Game, MalformedRecord>)
        ensures
            r is Ok <==> fen_parse(fen@) is Some,
            r matches Ok(g) ==> {
                let f = fen_parse(fen@).unwrap();
                &&& g.wf()
                &&& g@.stack.len() == 0
                &&& g@.board == f.0
                &&& g@.turn == f.1
                &&& g@.white_rights == f.2
                &&& g@.black_rights == f.3
                &&& g@.ep == ep_filtered(f.0, f.1, f.4)
            },
    {
        let ghost cs = fen@;

        // Placement field.
        let start0 = skip_spaces(fen, 0);
        let end0 = token_end(fen, start0);
        if start0 == end0 {
            return Err(MalformedRecord::new());
        }
        let board = match Self::parse_placement(fen, start0, end0) {
            Ok(b) => b,
            Err(e) => {
                return Err(e);
            },
        };

        // Side to move.
        let start1 = skip_spaces(fen, end0);
        let end1 = token_end(fen, start1);
        let turn_color = if start1 == end1 {
            Color::White
        } else if end1 - start1 == 1 {
            let c = fen.get_char(start1);
            if c == 'w' || c == 'W' {
                Color::White
            } else if c == 'b' || c == 'B' {
                Color::Black
            } else {
                return Err(MalformedRecord::new());
            }
        } else {
            return Err(MalformedRecord::new());
        };
        proof {
            assert(turn_of_token(cs, start1 as int, end1 as int) == Some(turn_color));
        }

        // Castling rights.
        let start2 = skip_spaces(fen, end1);
        let end2 = token_end(fen, start2);
        let mut white_king = false;
        let mut white_queen = false;
        let mut black_king = false;
        let mut black_queen = false;
        let mut i = start2;
        while i < end2
            invariant
                start2 <= i <= end2 <= fen@.len(),
                cs == fen@,
                start0 == spec_skip(cs, 0),
                end0 == spec_token_end(cs, start0 as int),
                start0 != end0,
                start1 == spec_skip(cs, end0 as int),
                end1 == spec_token_end(cs, start1 as int),
                start2 == spec_skip(cs, end1 as int),
                end2 == spec_token_end(cs, start2 as int),
                place_chars(
                    cs.subrange(start0 as int, end0 as int),
                    0,
                    7,
                    0,
                    empty_board(),
                ) is Some,
                turn_of_token(cs, start1 as int, end1 as int) is Some,
                rights_flags(cs, start2 as int, end2 as int, false, false, false, false)
                    == rights_flags(
                    cs,
                    i as int,
                    end2 as int,
                    white_king,
                    white_queen,
                    black_king,
                    black_queen,
                ),
            decreases end2 - i,
        {
            let c = fen.get_char(i);
            if c == 'K' {
                white_king = true;
            } else if c == 'Q' {
                white_queen = true;
            } else if c == 'k' {
                black_king = true;
            } else if c == 'q' {
                black_queen = true;
            } else if c == '-' {
                // No rights at all.
            } else {
                return Err(MalformedRecord::new());
            }
            i += 1;
        }
        let castle_white = CastleRights::from_flags(white_king, white_queen);
        let castle_black = CastleRights::from_flags(black_king, black_queen);
        proof {
            assert(rights_of_token(cs, start2 as int, end2 as int) == Some(
                (castle_white, castle_black),
            ));
        }

        // En-passant target.
        let start3 = skip_spaces(fen, end2);
        let end3 = token_end(fen, start3);
        let parsed_ep: Option<Position> = if start3 == end3 {
            None
        } else if end3 - start3 == 1 && fen.get_char(start3) == '-' {
            None
        } else if end3 - start3 == 2 {
            let sub = fen.substring_char(start3, end3);
            match Position::parse_text(sub) {
                Ok(p) => {
                    proof {
                        assert(cs[start3 as int] == (('a' as u8) + p.x) as char);
                        assert(cs[start3 + 1] == (('1' as u8) + p.y) as char);
                        assert(ep_of_token(cs, start3 as int, end3 as int) == Some(
                            Some(p),
                        ));
                    }
                    Some(p)
                },
                Err(e) => {
                    return Err(e);
                },
            }
        } else {
            return Err(MalformedRecord::new());
        };

        // Keep the target only where it is coherent with the board: the
        // skipped square of a double push just made by the other side.
        let en_passent_field = match parsed_ep {
            Some(t) => {
                if ep_coherent(&board, turn_color, &t) {
                    Some(t)
                } else {
                    None
                }
            },
            None => None,
        };

        Ok(
            Game::new(
                board,
                turn_color,
                castle_white,
                castle_black,
                en_passent_field,
            ),
        )
    }
}

pub open spec fn spec_piece_of_char(c: char) -> Option<Piece> {
    if c == 'P' {
        Some(Piece { kind: PieceType::Pawn, color: Color::White })
    } else if c == 'p' {
        Some(Piece { kind: PieceType::Pawn, color: Color::Black })
    } else if c == 'N' {
        Some(Piece { kind: PieceType::Knight, color: Color::White })
    } else if c == 'n' {
        Some(Piece { kind: PieceType::Knight, color: Color::Black })
    } else if c == 'B' {
        Some(Piece { kind: PieceType::Bishop, color: Color::White })
    } else if c == 'b' {
        Some(Piece { kind: PieceType::Bishop, color: Color::Black })
    } else if c == 'R' {
        Some(Piece { kind: PieceType::Rook, color: Color::White })
    } else if c == 'r' {
        Some(Piece { kind: PieceType::Rook, color: Color::Black })
    } else if c == 'Q' {
        Some(Piece { kind: PieceType::Queen, color: Color::White })
    } else if c == 'q' {
        Some(Piece { kind: PieceType::Queen, color: Color::Black })
    } else if c == 'K' {
        Some(Piece { kind: PieceType::King, color: Color::White })
    } else if c == 'k' {
        Some(Piece { kind: PieceType::King, color: Color::Black })
    } else {
        None
    }
}

/// Whether `t` is a coherent en-passant target for the side `turn` now to
/// move: the right rank, an empty target square, and the just-pushed
/// enemy pawn one rank behind it.
fn ep_coherent(board: &Board, turn: Color, t: &Position) -> (r: bool)
    requires
        board.wf(),
        t.wf(),
    ensures
        r == ep_target_ok(board@, turn, *t),
{
    let expected_rank: u8 = match turn {
        Color::White => 5,
        Color::Black => 2,
    };
    if t.rank() != expected_rank {
        return false;
    }
    let target_empty = board.piece_at(t).is_none();
    if !target_empty {
        return false;
    }
    let dir = turn.board_direction();
    let victim_square = match t.offset(0, -dir) {
        Some(v) => v,
        None => {
            return false;
        },
    };
    match board.piece_at(&victim_square) {
        Some(p) => p.piece_type() == PieceType::Pawn && p.color() == turn.opposite(),
        None => false,
    }
}

/// The index just past the run of spaces starting at `i`.
fn skip_spaces(s: &str, i: usize) -> (j: usize)
    requires
        i <= s@.len(),
    ensures
        i <= j <= s@.len(),
        j == spec_skip(s@, i as int),
        j < s@.len() ==> s@[j as int] != ' ',
{
    let len = s.unicode_len();
    let mut j = i;
    while j < len && s.get_char(j) == ' '
        invariant
            i <= j <= s@.len(),
            len == s@.len(),
            spec_skip(s@, i as int) == spec_skip(s@, j as int),
        decreases len - j,
    {
        j += 1;
    }
    j
}

/// The index just past the run of non-space characters starting at `i`.
fn token_end(s: &str, i: usize) -> (j: usize)
    requires
        i <= s@.len(),
    ensures
        i <= j <= s@.len(),
        j == spec_token_end(s@, i as int),
        j < s@.len() ==> s@[j as int] == ' ',
{
    let len = s.unicode_len();
    let mut j = i;
    while j < len && s.get_char(j) != ' '
        invariant
            i <= j <= s@.len(),
            len == s@.len(),
            spec_token_end(s@, i as int) == spec_token_end(s@, j as int),
        decreases len - j,
    {
        j += 1;
    }
    j
}

} // verus!
