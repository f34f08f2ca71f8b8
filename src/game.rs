use vstd::prelude::*;

use crate::cell::{other_mark, Cell, State};
use crate::coordinates::{parse_square, Coordinates};
use crate::field::{Field, MoveError};

verus! {

/// One match: the board, the state it has reached, and whose turn it is.
pub struct Game {
    pub field: Field,
    pub state: State,
    pub turn: Cell,
}

impl Game {
    /// The mark to play next is one of the two player marks.
    pub open spec fn wf(&self) -> bool {
        self.turn == Cell::X || self.turn == Cell::O
    }

    /// A new match: an empty board, the game going on, `X` to play.
    pub fn new() -> (r: Game)
        ensures
            r.wf(),
            r.state == State::InGame,
            r.turn == Cell::X,
            forall|i: int, j: int| 0 <= i < 3 && 0 <= j < 3 ==> r.field.at(i, j) == Cell::Empty,
    {
        Game { field: Field::new(), state: State::InGame, turn: Cell::X }
    }

    /// The match has ended in a win or a draw.
    pub fn is_finished(&self) -> (r: bool)
        ensures
            r == (self.state != State::InGame),
    {
        self.state != State::InGame
    }

    /// Plays the square that `line` names for the player whose turn it is.
    /// Text that names no square, or a square already taken, is refused and
    /// changes nothing. A move that leaves the game going on passes the turn
    /// to the other player; one that wins or draws ends the match.
    pub fn input(&mut self, line: &str) -> (r: Result<State, MoveError>)
        requires
            old(self).wf(),
            old(self).state == State::InGame,
        ensures
            final(self).wf(),
            match parse_square(line@) {
                None => {
                    &&& r == Err::<State, MoveError>(MoveError::InvalidInput)
                    &&& *final(self) == *old(self)
                },
                Some((row, column)) => if old(self).field.at(row as int, column as int)
                    != Cell::Empty {
                    &&& r == Err::<State, MoveError>(MoveError::CellOccupied)
                    &&& *final(self) == *old(self)
                } else {
                    &&& final(self).field.placed(
                        &old(self).field,
                        row as int,
                        column as int,
                        old(self).turn,
                    )
                    &&& final(self).state == final(self).field.outcome(
                        row as int,
                        column as int,
                        old(self).turn,
                    )
                    &&& r == Ok::<State, MoveError>(final(self).state)
                    &&& final(self).turn == if final(self).state == State::InGame {
                        other_mark(old(self).turn)
                    } else {
                        old(self).turn
                    }
                },
            },
    {
        let coord = match Coordinates::from_str(line) {
            Ok(c) => c,
            Err(e) => {
                return Err(e);
            },
        };
        match self.field.set(&coord, self.turn) {
            Ok(state) => {
                self.state = state;
                if state == State::InGame {
                    self.turn = self.turn.other();
                }
                Ok(state)
            },
            Err(e) => Err(e),
        }
    }
}

} // verus!
