//! Grid coordinates and the walls seen around one cell.

use vstd::prelude::*;
use crate::direction::Direction;

verus! {

/// A point of the integer plane: the mathematical counterpart of [`Position`].
/// `x` counts columns from the left, `y` counts rows from the top.
pub struct Coord {
    pub x: int,
    pub y: int,
}

impl Coord {
    /// The neighbouring point one step away in direction `d`.
    pub open spec fn step(self, d: Direction) -> Coord {
        match d {
            Direction::Left => Coord { x: self.x - 1, y: self.y },
            Direction::Right => Coord { x: self.x + 1, y: self.y },
            Direction::Up => Coord { x: self.x, y: self.y - 1 },
            Direction::Down => Coord { x: self.x, y: self.y + 1 },
        }
    }
}

/// The coordinates of a cell. Two positions are equal when both coordinates are.
#[derive(Clone, Copy, PartialEq, Eq, Structural, Debug)]
pub struct Position {
    pub x: usize,
    pub y: usize,
}

impl View for Position {
    type V = Coord;

    open spec fn view(&self) -> Coord {
        Coord { x: self.x as int, y: self.y as int }
    }
}

impl Position {
    /// The position in column `x` and row `y`.
    pub fn new(x: usize, y: usize) -> (p: Position)
        ensures
            p.x == x,
            p.y == y,
    {
        Position { x, y }
    }
}

/// The walls around the cell the explorer stands on, as reported for one step.
#[derive(Clone, Copy, Debug)]
pub struct FieldEnvironment {
    pub has_left_wall: bool,
    pub has_right_wall: bool,
    pub has_upper_wall: bool,
    pub has_lower_wall: bool,
}

impl FieldEnvironment {
    /// Whether a wall closes the side of the cell that faces direction `d`.
    pub open spec fn has_wall(self, d: Direction) -> bool {
        match d {
            Direction::Left => self.has_left_wall,
            Direction::Right => self.has_right_wall,
            Direction::Up => self.has_upper_wall,
            Direction::Down => self.has_lower_wall,
        }
    }

    /// The surroundings of a cell with no wall on any side.
    pub open spec fn open() -> FieldEnvironment {
        FieldEnvironment {
            has_left_wall: false,
            has_right_wall: false,
            has_upper_wall: false,
            has_lower_wall: false,
        }
    }

    /// An observation with the given walls, in the order left, right, upper, lower.
    pub fn new(
        has_left_wall: bool,
        has_right_wall: bool,
        has_upper_wall: bool,
        has_lower_wall: bool,
    ) -> (env: FieldEnvironment)
        ensures
            env.has_left_wall == has_left_wall,
            env.has_right_wall == has_right_wall,
            env.has_upper_wall == has_upper_wall,
            env.has_lower_wall == has_lower_wall,
    {
        FieldEnvironment { has_left_wall, has_right_wall, has_upper_wall, has_lower_wall }
    }
}

} // verus!
