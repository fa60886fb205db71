//! The four directions of travel and the marker that a visit leaves on a cell.

use vstd::prelude::*;

verus! {

/// One of the four ways to leave a cell. `Up` lowers `y`, `Left` lowers `x`.
#[derive(Clone, Copy, PartialEq, Eq, Structural, Debug)]
pub enum Direction {
    Up,
    Down,
    Left,
    Right,
}

/// What the explorer knows of a cell.
///
/// A cell starts `Unvisited`, becomes `EnteredFrom(d)` when the explorer first
/// steps onto it by moving in direction `d`, and `Visited` once the explorer has
/// retreated from it for good.
#[derive(Clone, Copy, PartialEq, Eq, Structural, Debug)]
pub enum State {
    Unvisited,
    Visited,
    EnteredFrom(Direction),
}

impl Direction {
    /// The direction that undoes a step in this one.
    pub open spec fn inverse(self) -> Direction {
        match self {
            Direction::Up => Direction::Down,
            Direction::Down => Direction::Up,
            Direction::Left => Direction::Right,
            Direction::Right => Direction::Left,
        }
    }

    /// The rank of this direction when several are open: lower is tried first.
    pub open spec fn priority(self) -> nat {
        match self {
            Direction::Left => 0,
            Direction::Right => 1,
            Direction::Up => 2,
            Direction::Down => 3,
        }
    }

    /// The lower-case name under which the direction is sent to a maze server.
    pub open spec fn name(self) -> Seq<char> {
        match self {
            Direction::Up => "up"@,
            Direction::Down => "down"@,
            Direction::Left => "left"@,
            Direction::Right => "right"@,
        }
    }

    /// The name of the direction, as text.
    pub fn as_str(&self) -> (s: &'static str)
        ensures
            s@ == self.name(),
    {
        match self {
            Direction::Up => "up",
            Direction::Down => "down",
            Direction::Left => "left",
            Direction::Right => "right",
        }
    }

    /// The direction that leads back out of a cell carrying `state`: the inverse
    /// of the direction by which the cell was entered, and nothing for a cell
    /// that holds no entry direction.
    pub fn inverted_direction_from_state(state: &State) -> (r: Option<Direction>)
        ensures
            r == state.exit_direction(),
    {
        match state {
            State::EnteredFrom(Direction::Up) => Some(Direction::Down),
            State::EnteredFrom(Direction::Down) => Some(Direction::Up),
            State::EnteredFrom(Direction::Left) => Some(Direction::Right),
            State::EnteredFrom(Direction::Right) => Some(Direction::Left),
            _ => None,
        }
    }
}

impl State {
    /// The direction of retreat from the cell: the inverse of its entry direction.
    pub open spec fn exit_direction(self) -> Option<Direction> {
        match self {
            State::EnteredFrom(d) => Some(d.inverse()),
            _ => None,
        }
    }

    /// How far the cell has come on its way from unvisited to closed.
    pub open spec fn stage(self) -> nat {
        match self {
            State::Unvisited => 0,
            State::EnteredFrom(_) => 1,
            State::Visited => 2,
        }
    }

    /// The marker left on a cell that was entered by a step in `direction`.
    pub fn from_direction(direction: &Direction) -> (s: State)
        ensures
            s == State::EnteredFrom(*direction),
    {
        State::EnteredFrom(*direction)
    }
}

} // verus!
