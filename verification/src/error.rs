//! The ways in which an operation on a game can be turned down.

use vstd::prelude::*;
use crate::direction::Direction;

verus! {

/// Why an operation was refused. The game is left usable in every case.
#[derive(Clone, Copy, PartialEq, Eq, Structural, Debug)]
pub enum GameError {
    /// The operation needs a current position and `start` was not called yet.
    NotStarted,
    /// `start` was called on a game that already has a current position.
    AlreadyStarted,
    /// A step in the given direction would leave the grid.
    EdgeReached(Direction),
    /// A grid was asked for with no columns or no rows.
    InvalidDimension,
}

impl GameError {
    /// The text of the error in words.
    pub open spec fn text(self) -> Seq<char> {
        match self {
            GameError::NotStarted => "Game not started"@,
            GameError::AlreadyStarted => "Game already started"@,
            GameError::EdgeReached(Direction::Left) => "Left edge reached"@,
            GameError::EdgeReached(Direction::Right) => "Right edge reached"@,
            GameError::EdgeReached(Direction::Up) => "Upper edge reached"@,
            GameError::EdgeReached(Direction::Down) => "Lower edge reached"@,
            GameError::InvalidDimension => "Grid without cells"@,
        }
    }

    /// A short message for a log or a panic.
    pub fn message(&self) -> (s: &'static str)
        ensures
            s@ == self.text(),
    {
        match self {
            GameError::NotStarted => "Game not started",
            GameError::AlreadyStarted => "Game already started",
            GameError::EdgeReached(Direction::Left) => "Left edge reached",
            GameError::EdgeReached(Direction::Right) => "Right edge reached",
            GameError::EdgeReached(Direction::Up) => "Upper edge reached",
            GameError::EdgeReached(Direction::Down) => "Lower edge reached",
            GameError::InvalidDimension => "Grid without cells",
        }
    }
}

} // verus!
