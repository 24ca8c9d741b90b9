//! A game and rule engine for gomoku narabe and its major variants: board
//! state, turn order, win detection, Renju forbidden moves, Pente captures,
//! opening protocols and (de)serialization, each stated and proved against a
//! mathematical model of the board and the game.

mod board;
mod error;
mod game;
mod point;
pub mod rules;
mod serialize;
mod stone;
mod text;

pub use board::{Board, BoardModel};
pub use point::{Point, MAX_SIZE};
pub use stone::{Cell, Player};
pub use error::{ForbiddenKind, MoveError, OpeningError, RuleSetError};
pub use rules::{Capture, Opening, Overline, RuleSet};
pub use game::{Game, GameModel, MoveOutcome, MoveRecord, Status};
pub use rules::opening::{ActionModel, Constraint, OpeningAction, OpeningName, Swap2Choice, ALL_OPENINGS};
pub use serialize::{FenError, MoveListError, ReplayModel};
