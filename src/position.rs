use vstd::prelude::*;

verus! {

/// Width of the board, in cells.
pub const BOARD_WIDTH: u32 = 8;

/// Height of the board, in cells.
pub const BOARD_HEIGHT: u32 = 8;

/// Number of cells on the board.
pub const SLOT_COUNT: usize = 64;

/// A cell of the board: column `x`, row `y` (row 0 is the top row).
#[derive(Clone, Copy, Debug, PartialEq, Eq, Structural)]
pub struct Pos {
    pub x: u32,
    pub y: u32,
}

/// `p` and `q` differ by exactly one step along exactly one axis.
pub open spec fn adjacent(p: Pos, q: Pos) -> bool {
    let dx = p.x as int - q.x as int;
    let dy = p.y as int - q.y as int;
    (dx == 0 && (dy == 1 || dy == -1)) || (dy == 0 && (dx == 1 || dx == -1))
}

/// `p` names one of the cells of the board.
pub open spec fn on_board(p: Pos) -> bool {
    p.x < BOARD_WIDTH && p.y < BOARD_HEIGHT
}

/// Row-major index of an on-board cell.
pub open spec fn cell_index(p: Pos) -> int {
    p.y as int * BOARD_WIDTH as int + p.x as int
}

impl Pos {
    pub fn new(x: u32, y: u32) -> (r: Pos)
        ensures
            r.x == x,
            r.y == y,
    {
        Pos { x, y }
    }

    /// The cell one step to the left; column 0 stays where it is.
    pub fn left(&self) -> (r: Pos)
        ensures
            r.y == self.y,
            r.x == if self.x == 0 { 0 } else { (self.x - 1) as u32 },
    {
        Pos { x: self.x.saturating_sub(1), y: self.y }
    }

    /// The cell one step to the right; the largest column stays where it is.
    pub fn right(&self) -> (r: Pos)
        ensures
            r.y == self.y,
            r.x == if self.x == u32::MAX { u32::MAX } else { (self.x + 1) as u32 },
    {
        Pos { x: self.x.saturating_add(1), y: self.y }
    }

    /// The cell one step up; row 0 stays where it is.
    pub fn up(&self) -> (r: Pos)
        ensures
            r.x == self.x,
            r.y == if self.y == 0 { 0 } else { (self.y - 1) as u32 },
    {
        Pos { x: self.x, y: self.y.saturating_sub(1) }
    }

    /// The cell one step down; the largest row stays where it is.
    pub fn down(&self) -> (r: Pos)
        ensures
            r.x == self.x,
            r.y == if self.y == u32::MAX { u32::MAX } else { (self.y + 1) as u32 },
    {
        Pos { x: self.x, y: self.y.saturating_add(1) }
    }

    /// Whether `other` is the left, right, upper or lower neighbour of this
    /// cell. A cell whose step saturates at the edge is its own "neighbour"
    /// in that direction; it is still not adjacent to itself.
    pub fn cardinally_adjacent(&self, other: &Pos) -> (r: bool)
        ensures
            r == adjacent(*self, *other),
    {
        *self != *other && (*self == other.left() || *self == other.right() || *self
            == other.up() || *self == other.down())
    }

    /// Whether this cell lies on the board.
    pub fn is_on_board(&self) -> (r: bool)
        ensures
            r == on_board(*self),
    {
        self.x < BOARD_WIDTH && self.y < BOARD_HEIGHT
    }

    /// Row-major index of this cell in a table of all cells.
    pub fn index(&self) -> (r: usize)
        requires
            on_board(*self),
        ensures
            r == cell_index(*self),
            r < SLOT_COUNT,
    {
        (self.y * BOARD_WIDTH + self.x) as usize
    }
}

/// Adjacency is symmetric, and no cell is adjacent to itself.
pub proof fn lemma_adjacent_symmetric(p: Pos, q: Pos)
    ensures
        adjacent(p, q) == adjacent(q, p),
        !adjacent(p, p),
{
}

/// Distinct on-board cells have distinct indices, all below the slot count.
pub proof fn lemma_cell_index_injective(p: Pos, q: Pos)
    requires
        on_board(p),
        on_board(q),
    ensures
        0 <= cell_index(p) < SLOT_COUNT,
        cell_index(p) == cell_index(q) ==> p == q,
{
}

} // verus!
