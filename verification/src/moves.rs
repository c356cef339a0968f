use vstd::prelude::*;

use crate::errors::MalformedRecord;
use crate::piece_type::PieceType;
use crate::position::Position;

verus! {

/// The piece kind a pawn turns into on reaching the back rank.
#[derive(Debug, PartialEq, Eq, Structural, Clone, Copy)]
pub enum PromotionType {
    Queen,
    Rook,
    Bishop,
    Knight,
}

impl PromotionType {
    pub open spec fn spec_piece_type(self) -> PieceType {
        match self {
            PromotionType::Knight => PieceType::Knight,
            PromotionType::Bishop => PieceType::Bishop,
            PromotionType::Rook => PieceType::Rook,
            PromotionType::Queen => PieceType::Queen,
        }
    }

    /// The piece kind this promotion produces.
    pub fn piece_type(&self) -> (r: PieceType)
        ensures
            r == self.spec_piece_type(),
    {
        match self {
            PromotionType::Knight => PieceType::Knight,
            PromotionType::Bishop => PieceType::Bishop,
            PromotionType::Rook => PieceType::Rook,
            PromotionType::Queen => PieceType::Queen,
        }
    }

    /// The lower-case letter this promotion prints as.
    pub open spec fn letter(self) -> char {
        match self {
            PromotionType::Queen => 'q',
            PromotionType::Rook => 'r',
            PromotionType::Bishop => 'b',
            PromotionType::Knight => 'n',
        }
    }

    pub fn to_char(&self) -> (r: char)
        ensures
            r == self.letter(),
    {
        match self {
            PromotionType::Queen => 'q',
            PromotionType::Rook => 'r',
            PromotionType::Bishop => 'b',
            PromotionType::Knight => 'n',
        }
    }

    /// Reads a promotion letter, either case.
    pub fn from_char(c: char) -> (r: Option<Self>)
        ensures
            r matches Some(p) ==> (c == p.letter() || c == p.upper_letter()),
            r is Some <==> (c == 'Q' || c == 'q' || c == 'R' || c == 'r' || c == 'B' || c == 'b'
                || c == 'N' || c == 'n'),
    {
        match c {
            'Q' | 'q' => Some(PromotionType::Queen),
            'R' | 'r' => Some(PromotionType::Rook),
            'B' | 'b' => Some(PromotionType::Bishop),
            'N' | 'n' => Some(PromotionType::Knight),
            _ => None,
        }
    }

    pub open spec fn upper_letter(self) -> char {
        match self {
            PromotionType::Queen => 'Q',
            PromotionType::Rook => 'R',
            PromotionType::Bishop => 'B',
            PromotionType::Knight => 'N',
        }
    }
}

/// How a move changes the board, carrying exactly the extra data
/// needed to reverse it.
#[derive(Debug, PartialEq, Eq, Structural, Clone, Copy)]
pub enum MoveType {
    Quiet,
    Capture(PieceType),
    EnPassantCapture,
    Castle,
    DoublePawnPush(Position),
    PromotionQuite(PromotionType),
    PromotionCapture(PromotionType, PieceType),
}

impl MoveType {
    /// The kind of the piece this move captures, if it captures one.
    pub fn capture_type(&self) -> (r: Option<PieceType>)
        ensures
            r == self.spec_capture_type(),
    {
        match self {
            MoveType::Capture(t) => Some(*t),
            MoveType::PromotionCapture(_, t) => Some(*t),
            MoveType::EnPassantCapture => Some(PieceType::Pawn),
            _ => None,
        }
    }

    pub open spec fn spec_capture_type(self) -> Option<PieceType> {
        match self {
            MoveType::Capture(t) => Some(t),
            MoveType::PromotionCapture(_, t) => Some(t),
            MoveType::EnPassantCapture => Some(PieceType::Pawn),
            _ => None,
        }
    }

    /// Whether this move is a castle.
    pub fn is_castle(&self) -> (r: bool)
        ensures
            r <==> *self is Castle,
    {
        matches!(self, MoveType::Castle)
    }

    /// Whether this move is an en-passant capture.
    pub fn is_en_passant(&self) -> (r: bool)
        ensures
            r <==> *self is EnPassantCapture,
    {
        matches!(self, MoveType::EnPassantCapture)
    }

    /// Whether this move removes an enemy piece from the board.
    pub fn is_capture(&self) -> (r: bool)
        ensures
            r == (self.spec_capture_type() is Some),
    {
        match self {
            MoveType::Capture(_) => true,
            MoveType::PromotionCapture(_, _) => true,
            MoveType::EnPassantCapture => true,
            _ => false,
        }
    }
}

/// A transition between two squares, tagged with how it changes the board.
#[derive(Debug, PartialEq, Eq, Structural, Clone, Copy)]
pub struct Move {
    pub from: Position,
    pub to: Position,
    pub move_type: MoveType,
}

impl Move {
    pub fn new(from: Position, to: Position, move_type: MoveType) -> (r: Self)
        ensures
            r == (Move { from, to, move_type }),
    {
        Self { from, to, move_type }
    }

    /// The coordinate text of this move: origin square, destination square,
    /// and for promotions the lower-case promotion letter.
    pub open spec fn text(self) -> Seq<char> {
        self.from.text() + self.to.text() + match self.move_type {
            MoveType::PromotionQuite(p) => seq![p.letter()],
            MoveType::PromotionCapture(p, _) => seq![p.letter()],
            _ => Seq::<char>::empty(),
        }
    }

    pub fn to_string(&self) -> (r: String)
        requires
            self.from.wf(),
            self.to.wf(),
        ensures
            r@ =~= self.text(),
    {
        let mut s = self.from.to_string();
        let t = self.to.to_string();
        s.append(t.as_str());
        match &self.move_type {
            MoveType::PromotionQuite(p) => {
                crate::strings::push_char(&mut s, p.to_char());
            }
            MoveType::PromotionCapture(p, _) => {
                crate::strings::push_char(&mut s, p.to_char());
            }
            _ => {}
        }
        s
    }

    /// Parses coordinate move text: four square characters, optionally
    /// followed by a promotion letter (either case). A four-character text
    /// parses as a quiet move, a five-character one as a quiet promotion;
    /// other move subtypes carry no marker in this format.
    pub fn parse_text(s: &str) -> (r: Result<Self, MalformedRecord>)
        ensures
            r matches Ok(m) ==> {
                &&& m.from.wf()
                &&& m.to.wf()
                &&& s@.subrange(0, 2) =~= m.from.text()
                &&& s@.subrange(2, 4) =~= m.to.text()
                &&& (s@.len() == 4 ==> m.move_type == MoveType::Quiet)
                &&& (s@.len() == 5 ==> (m.move_type matches MoveType::PromotionQuite(p)
                    && (s@[4] == p.letter() || s@[4] == p.upper_letter())))
            },
            r is Ok <==> {
                &&& (s@.len() == 4 || s@.len() == 5)
                &&& 'a' <= s@[0] <= 'h'
                &&& '1' <= s@[1] <= '8'
                &&& 'a' <= s@[2] <= 'h'
                &&& '1' <= s@[3] <= '8'
                &&& (s@.len() == 5 ==> (s@[4] == 'Q' || s@[4] == 'q' || s@[4] == 'R' || s@[4] == 'r'
                    || s@[4] == 'B' || s@[4] == 'b' || s@[4] == 'N' || s@[4] == 'n'))
            },
    {
        let len = s.unicode_len();
        let move_type = if len == 4 {
            MoveType::Quiet
        } else if len == 5 {
            let p = match PromotionType::from_char(s.get_char(4)) {
                Some(p) => p,
                None => {
                    return Err(MalformedRecord::new());
                }
            };
            MoveType::PromotionQuite(p)
        } else {
            return Err(MalformedRecord::new());
        };
        let from = match Position::parse_text(s.substring_char(0, 2)) {
            Ok(p) => p,
            Err(e) => {
                return Err(e);
            }
        };
        let to = match Position::parse_text(s.substring_char(2, 4)) {
            Ok(p) => p,
            Err(e) => {
                return Err(e);
            }
        };
        Ok(Move { from, to, move_type })
    }
}

impl core::str::FromStr for Move {
    type Err = MalformedRecord;

    fn from_str(s: &str) -> Result<Self, Self::Err> {
        Move::parse_text(s)
    }
}

} // verus!
