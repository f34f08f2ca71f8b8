use vstd::prelude::*;

pub mod cell;
pub mod coordinates;
pub mod field;
pub mod game;

pub use cell::{Cell, State};
pub use coordinates::Coordinates;
pub use field::{Field, MoveError};
pub use game::Game;
