use vstd::prelude::*;

verus! {

/// The content of one square of the board.
#[derive(Debug, Clone, Copy, PartialEq, Eq, Structural)]
pub enum Cell {
    Empty,
    X,
    O,
}

/// What the board says after a move.
#[derive(Debug, Clone, Copy, PartialEq, Eq, Structural)]
pub enum State {
    InGame,
    Win(Cell),
    Draw,
}

/// The mark of the other player.
pub open spec fn other_mark(m: Cell) -> Cell {
    match m {
        Cell::X => Cell::O,
        Cell::O => Cell::X,
        Cell::Empty => Cell::Empty,
    }
}

impl Cell {
    /// The character shown for this cell.
    pub fn symbol(&self) -> (r: char)
        ensures
            r == match *self {
                Cell::X => 'X',
                Cell::O => 'O',
                Cell::Empty => '_',
            },
    {
        match self {
            Cell::X => 'X',
            Cell::O => 'O',
            Cell::Empty => '_',
        }
    }

    /// The mark of the player who moves after the owner of `self`.
    pub fn other(&self) -> (r: Cell)
        ensures
            r == other_mark(*self),
    {
        match self {
            Cell::X => Cell::O,
            Cell::O => Cell::X,
            Cell::Empty => Cell::Empty,
        }
    }
}

} // verus!
