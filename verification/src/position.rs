use vstd::prelude::*;

verus! {

/// A square on the board.
/// Bottom left is (0, 0), or in chess terms 'a1'.
#[derive(Debug, Clone, Copy, PartialEq, Eq, Structural)]
pub struct Position {
    pub x: u8,
    pub y: u8,
}

impl Position {
    /// Both coordinates lie on the board.
    pub open spec fn wf(self) -> bool {
        self.x < 8 && self.y < 8
    }

    /// The linear index of this square in a rank-major 64-slot grid.
    pub open spec fn idx(self) -> int {
        self.y * 8 + self.x
    }

    /// Creates a new position; `None` if the coordinates are out of bounds.
    pub fn new(x: u8, y: u8) -> (r: Option<Self>)
        ensures
            r is Some <==> (x < 8 && y < 8),
            r matches Some(p) ==> p == (Position { x, y }) && p.wf(),
    {
        if x < 8 && y < 8 {
            Some(Self { x, y })
        } else {
            None
        }
    }

    /// Creates a new position from coordinates already known to be in bounds.
    pub fn new_unchecked(x: u8, y: u8) -> (r: Self)
        requires
            x < 8,
            y < 8,
        ensures
            r == (Position { x, y }),
            r.wf(),
    {
        Self { x, y }
    }

    /// The linear index of this square, for access into the board's 64-slot grid.
    pub fn board_index(&self) -> (r: usize)
        ensures
            r == self.idx(),
    {
        self.y as usize * 8 + self.x as usize
    }

    /// The position whose linear index is `index`; `None` if the index is out of range.
    pub fn from_board_index(index: usize) -> (r: Option<Self>)
        ensures
            r is Some <==> index < 64,
            r matches Some(p) ==> p.wf() && p.idx() == index,
    {
        if index < 64 {
            Some(Self { x: (index % 8) as u8, y: (index / 8) as u8 })
        } else {
            None
        }
    }

    /// The position whose linear index is `index`, which must be in range.
    pub fn from_board_index_unchecked(index: usize) -> (r: Self)
        requires
            index < 64,
        ensures
            r.wf(),
            r.idx() == index,
    {
        Self::new_unchecked((index % 8) as u8, (index / 8) as u8)
    }

    /// The square reached by stepping `x` files and `y` ranks from here;
    /// `None` if that square lies off the board.
    pub fn offset(&self, x: i8, y: i8) -> (r: Option<Self>)
        ensures
            r is Some <==> (0 <= self.x + x < 8 && 0 <= self.y + y < 8),
            r matches Some(p) ==> p.x == self.x + x && p.y == self.y + y && p.wf(),
    {
        let new_x = self.x as i16 + x as i16;
        let new_y = self.y as i16 + y as i16;
        if 0 <= new_x && new_x < 8 && 0 <= new_y && new_y < 8 {
            Some(Self { x: new_x as u8, y: new_y as u8 })
        } else {
            None
        }
    }

    /// The sign of the file difference toward `other`.
    pub fn rank_direction(&self, other: &Self) -> (r: i8)
        requires
            self.wf(),
            other.wf(),
            self.x != other.x,
        ensures
            r == (if other.x > self.x { 1int } else { -1int }),
    {
        if other.x > self.x {
            1
        } else {
            -1
        }
    }

    /// The sign of the rank difference toward `other`.
    pub fn file_direction(&self, other: &Self) -> (r: i8)
        requires
            self.wf(),
            other.wf(),
            self.y != other.y,
        ensures
            r == (if other.y > self.y { 1int } else { -1int }),
    {
        if other.y > self.y {
            1
        } else {
            -1
        }
    }

    pub fn file(&self) -> (r: u8)
        ensures
            r == self.x,
    {
        self.x
    }

    pub fn rank(&self) -> (r: u8)
        ensures
            r == self.y,
    {
        self.y
    }

    /// The view of this square's two-character algebraic name,
    /// file letter then rank digit.
    pub open spec fn text(self) -> Seq<char> {
        seq![
            (('a' as u8) + self.x) as char,
            (('1' as u8) + self.y) as char,
        ]
    }

    /// The two-character algebraic name of this square, file letter then rank digit.
    pub fn to_string(&self) -> (r: String)
        requires
            self.wf(),
        ensures
            r@ =~= self.text(),
    {
        let col_char = (('a' as u8) + self.x) as char;
        let row_char = (('1' as u8) + self.y) as char;
        let mut s = String::new();
        crate::strings::push_char(&mut s, col_char);
        crate::strings::push_char(&mut s, row_char);
        s
    }

    /// Parses a two-character algebraic square name.
    pub fn parse_text(s: &str) -> (r: Result<Self, crate::errors::MalformedRecord>)
        ensures
            r matches Ok(p) ==> p.wf() && s@ =~= p.text(),
            r is Ok <==> {
                &&& s@.len() == 2
                &&& 'a' <= s@[0] <= 'h'
                &&& '1' <= s@[1] <= '8'
            },
    {
        let len = s.unicode_len();
        if len != 2 {
            return Err(crate::errors::MalformedRecord::new());
        }
        let col_char = s.get_char(0);
        let row_char = s.get_char(1);
        if 'a' <= col_char && col_char <= 'h' && '1' <= row_char && row_char <= '8' {
            let x = col_char as u8 - ('a' as u8);
            let y = row_char as u8 - ('1' as u8);
            Ok(Self { x, y })
        } else {
            Err(crate::errors::MalformedRecord::new())
        }
    }
}

impl core::str::FromStr for Position {
    type Err = crate::errors::MalformedRecord;

    fn from_str(s: &str) -> Result<Self, Self::Err> {
        Position::parse_text(s)
    }
}

impl Default for Position {
    /// The lower-left corner square.
    fn default() -> (r: Self)
        ensures
            r == (Position { x: 0u8, y: 0u8 }),
    {
        Position { x: 0, y: 0 }
    }
}

} // verus!
