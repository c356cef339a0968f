use vstd::prelude::*;

use crate::piece::Piece;
use crate::position::Position;

verus! {

/// A fixed 64-slot grid of optional pieces, indexed by `rank * 8 + file`.
/// It owns no chess semantics beyond "what occupies this square".
#[derive(Debug)]
pub struct Board {
    squares: Vec<Option<Piece>>,
}

impl View for Board {
    type V = Seq<Option<Piece>>;

    closed spec fn view(&self) -> Seq<Option<Piece>> {
        self.squares@
    }
}

impl Board {
    /// The grid always holds exactly 64 slots.
    pub open spec fn wf(self) -> bool {
        self@.len() == 64
    }

    /// Moves whatever stands at `from` onto `to`, discarding
    /// whatever stood at `to`.
    pub fn make_move(&mut self, from: &Position, to: &Position)
        requires
            old(self).wf(),
            from.wf(),
            to.wf(),
        ensures
            final(self)@ =~= old(self)@.update(from.idx(), None).update(to.idx(), old(self)@[from.idx()]),
            final(self).wf(),
    {
        let move_piece = self.remove_piece(from);
        self.set_square(to, move_piece);
    }

    /// Puts `piece` on `position`, discarding whatever stood there.
    pub fn place_piece(&mut self, piece: Piece, position: &Position)
        requires
            old(self).wf(),
            position.wf(),
        ensures
            final(self)@ =~= old(self)@.update(position.idx(), Some(piece)),
            final(self).wf(),
    {
        self.set_square(position, Some(piece));
    }

    /// The piece standing on `position`, if any.
    pub fn piece_at(&self, position: &Position) -> (r: Option<&Piece>)
        requires
            self.wf(),
            position.wf(),
        ensures
            match r {
                Some(p) => self@[position.idx()] == Some(*p),
                None => self@[position.idx()] is None,
            },
    {
        let index = position.board_index();
        self.squares[index].as_ref()
    }

    /// Takes the piece standing on `position` off the board and returns it.
    pub fn remove_piece(&mut self, position: &Position) -> (r: Option<Piece>)
        requires
            old(self).wf(),
            position.wf(),
        ensures
            r == old(self)@[position.idx()],
            final(self)@ =~= old(self)@.update(position.idx(), None),
            final(self).wf(),
    {
        let index = position.board_index();
        let r = self.squares[index];
        self.squares.set(index, None);
        r
    }

    /// Overwrites one slot of the grid.
    fn set_square(&mut self, position: &Position, value: Option<Piece>)
        requires
            old(self).wf(),
            position.wf(),
        ensures
            final(self)@ =~= old(self)@.update(position.idx(), value),
            final(self).wf(),
    {
        let index = position.board_index();
        self.squares.set(index, value);
    }

    /// Every square with its occupant, in index order.
    pub fn iter(&self) -> (r: Vec<(Position, Option<Piece>)>)
        requires
            self.wf(),
        ensures
            r@.len() == 64,
            forall|i: int| 0 <= i < 64 ==> {
                &&& (#[trigger] r@[i]).0.wf()
                &&& r@[i].0.idx() == i
                &&& r@[i].1 == self@[i]
            },
    {
        let mut r: Vec<(Position, Option<Piece>)> = Vec::new();
        let mut i: usize = 0;
        while i < 64
            invariant
                self.wf(),
                i <= 64,
                r@.len() == i,
                forall|j: int| 0 <= j < i ==> {
                    &&& (#[trigger] r@[j]).0.wf()
                    &&& r@[j].0.idx() == j
                    &&& r@[j].1 == self@[j]
                },
            decreases 64 - i,
        {
            let position = Position::from_board_index_unchecked(i);
            let occupant = self.squares[i];
            r.push((position, occupant));
            i += 1;
        }
        r
    }
}

impl Clone for Board {
    /// A copy with the same occupants on every square.
    fn clone(&self) -> (r: Self)
        ensures
            r@ == self@,
    {
        let mut squares: Vec<Option<Piece>> = Vec::new();
        let mut i: usize = 0;
        while i < self.squares.len()
            invariant
                i <= self.squares@.len(),
                squares@.len() == i,
                forall|j: int| 0 <= j < i ==> squares@[j] == self.squares@[j],
            decreases self.squares@.len() - i,
        {
            squares.push(self.squares[i]);
            i += 1;
        }
        proof {
            assert(squares@ =~= self@);
        }
        Board { squares }
    }
}

impl PartialEq for Board {
    /// Two boards are equal when every square holds the same occupant.
    fn eq(&self, other: &Board) -> (r: bool) {
        if self.squares.len() != other.squares.len() {
            return false;
        }
        let mut i: usize = 0;
        while i < self.squares.len()
            invariant
                self.squares@.len() == other.squares@.len(),
                i <= self.squares@.len(),
                forall|j: int| 0 <= j < i ==> self.squares@[j] == other.squares@[j],
            decreases self.squares@.len() - i,
        {
            let same = match (self.squares[i], other.squares[i]) {
                (Some(a), Some(b)) => a == b,
                (None, None) => true,
                _ => false,
            };
            if !same {
                return false;
            }
            i += 1;
        }
        proof {
            assert(self@ =~= other@);
        }
        true
    }
}

impl vstd::std_specs::cmp::PartialEqSpecImpl for Board {
    open spec fn obeys_eq_spec() -> bool {
        true
    }

    open spec fn eq_spec(&self, other: &Board) -> bool {
        self@ == other@
    }
}

impl Default for Board {
    /// The empty board.
    fn default() -> (r: Self)
        ensures
            r.wf(),
            forall|i: int| 0 <= i < 64 ==> r@[i] is None,
    {
        let mut squares: Vec<Option<Piece>> = Vec::new();
        let mut i: usize = 0;
        while i < 64
            invariant
                i <= 64,
                squares@.len() == i,
                forall|j: int| 0 <= j < i ==> squares@[j] is None,
            decreases 64 - i,
        {
            squares.push(None);
            i += 1;
        }
        Board { squares }
    }
}

} // verus!
