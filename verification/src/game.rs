//! The game itself: the grid of markers, the explorer's position, and the
//! operations by which a caller drives the exploration.

use vstd::prelude::*;
use crate::direction::{Direction, State};
use crate::error::GameError;
use crate::model::GameView;
use crate::position::{Coord, FieldEnvironment, Position};

verus! {

/// A maze under exploration.
///
/// The grid is stored column by column: `visited_positions[x][y]` is the marker
/// of the cell in column `x` and row `y`.
pub struct Game {
    width: usize,
    height: usize,
    goal_position: Position,
    current_position: Option<Position>,
    visited_positions: Vec<Vec<State>>,
}

impl View for Game {
    type V = GameView;

    closed spec fn view(&self) -> GameView {
        GameView {
            width: self.width as nat,
            height: self.height as nat,
            goal: self.goal_position@,
            current: match self.current_position {
                Some(p) => Some(p@),
                None => None,
            },
            markers: Map::new(
                |c: Coord| 0 <= c.x < self.width && 0 <= c.y < self.height,
                |c: Coord| self.visited_positions[c.x][c.y],
            ),
        }
    }
}

impl Game {
    /// The stored grid has the announced size and the explorer stands inside it.
    pub closed spec fn wf(&self) -> bool {
        &&& self.width > 0
        &&& self.height > 0
        &&& self.visited_positions.len() == self.width
        &&& forall|x: int|
            0 <= x < self.width ==> (#[trigger] self.visited_positions[x]).len() == self.height
        &&& self.current_position matches Some(p) ==> p.x < self.width && p.y < self.height
    }

    /// The model of a well-formed game is well formed.
    pub proof fn lemma_view_wf(&self)
        requires
            self.wf(),
        ensures
            self@.wf(),
    {
    }

    /// A game on a grid of `width` columns and `height` rows, all unvisited, that
    /// is not started yet. A grid without cells is refused.
    pub fn new(width: usize, height: usize, goal_position: Position) -> (r: Result<Game, GameError>)
        ensures
            r is Ok <==> width > 0 && height > 0,
            r matches Ok(g) ==> g.wf() && g@ == GameView::fresh(
                width as nat,
                height as nat,
                goal_position@,
            ),
            r matches Err(e) ==> e == GameError::InvalidDimension,
    {
        if width == 0 || height == 0 {
            return Err(GameError::InvalidDimension);
        }
        let visited_positions = vec![vec![State::Unvisited; height]; width];
        let game = Game { width, height, goal_position, current_position: None, visited_positions };
        assert(game@.markers =~= GameView::fresh(
            width as nat,
            height as nat,
            goal_position@,
        ).markers);
        Ok(game)
    }

    /// Number of columns of the grid.
    pub fn width(&self) -> (w: usize)
        ensures
            w == self@.width,
    {
        self.width
    }

    /// Number of rows of the grid.
    pub fn height(&self) -> (h: usize)
        ensures
            h == self@.height,
    {
        self.height
    }

    /// The cell to be reached, as given when the game was created.
    pub fn goal_position(&self) -> (p: &Position)
        ensures
            p@ == self@.goal,
    {
        &self.goal_position
    }

    /// The marker of the cell at `position`, which must lie inside the grid.
    pub fn marker_at(&self, position: &Position) -> (marker: State)
        requires
            self.wf(),
            self@.in_grid(position@),
        ensures
            marker == self@.markers[position@],
    {
        self.visited_positions[position.x][position.y]
    }

    /// Replaces the marker of the cell at `position`, which must lie inside the
    /// grid. Nothing else changes.
    pub fn set_marker_at(&mut self, position: &Position, marker: State)
        requires
            old(self).wf(),
            old(self)@.in_grid(position@),
        ensures
            final(self).wf(),
            final(self)@ == old(self)@.with_marker(position@, marker),
    {
        self.visited_positions[position.x][position.y] = marker;
        assert(self@.markers =~= old(self)@.with_marker(position@, marker).markers);
    }

    /// Whether the explorer has been placed on the grid.
    pub fn is_started(&self) -> (started: bool)
        ensures
            started == self@.current is Some,
    {
        match self.current_position.as_ref() {
            None => false,
            Some(_) => true,
        }
    }

    /// Places the explorer on `position`, once: a second call is refused with
    /// `AlreadyStarted` and changes nothing. The markers are left as they are.
    pub fn start(&mut self, position: &Position) -> (r: Result<(), GameError>)
        requires
            old(self).wf(),
            old(self)@.current is None ==> old(self)@.in_grid(position@),
        ensures
            final(self).wf(),
            r == old(self)@.start_result(),
            r is Err <==> old(self)@.current is Some,
            final(self)@ == old(self)@.start(position@),
    {
        if self.is_started() {
            Err(GameError::AlreadyStarted)
        } else {
            self.current_position = Some(Position::new(position.x, position.y));
            assert(self@.markers =~= old(self)@.markers);
            Ok(())
        }
    }

    /// The cell the explorer stands on, or `NotStarted` before `start`.
    pub fn current_position(&self) -> (r: Result<&Position, GameError>)
        ensures
            match r {
                Ok(p) => self@.current_position_result() == Ok::<Coord, GameError>(p@),
                Err(e) => self@.current_position_result() == Err::<Coord, GameError>(e),
            },
            r is Err <==> self@.current is None,
            r matches Err(e) ==> e == GameError::NotStarted,
            r matches Ok(p) ==> self@.current == Some(p@),
    {
        match self.current_position.as_ref() {
            None => Err(GameError::NotStarted),
            Some(position) => Ok(position),
        }
    }

    /// The cell next to `position` in the given direction, or `EdgeReached` with
    /// that direction when the step would leave the grid. Nothing is changed.
    ///
    /// For a position inside the grid the step to the left is refused exactly in
    /// column 0, the step to the right exactly in the last column, the step up
    /// exactly in row 0 and the step down exactly in the last row.
    pub fn next_position_from_direction(&self, position: &Position, direction: &Direction) -> (r:
        Result<Position, GameError>)
        requires
            self.wf(),
        ensures
            match r {
                Ok(target) => self@.step_target(position@, *direction) == Ok::<Coord, GameError>(
                    target@,
                ),
                Err(e) => self@.step_target(position@, *direction) == Err::<Coord, GameError>(e),
            },
            r matches Err(e) ==> e == GameError::EdgeReached(*direction),
            r matches Ok(target) ==> target@ == position@.step(*direction),
            self@.in_grid(position@) ==> (r is Ok <==> self@.in_grid(position@.step(*direction))),
    {
        match direction {
            Direction::Left => {
                if position.x == 0 {
                    return Err(GameError::EdgeReached(Direction::Left));
                }
                Ok(Position { x: position.x - 1, y: position.y })
            },
            Direction::Right => {
                if position.x >= self.width - 1 {
                    return Err(GameError::EdgeReached(Direction::Right));
                }
                Ok(Position { x: position.x + 1, y: position.y })
            },
            Direction::Up => {
                if position.y == 0 {
                    return Err(GameError::EdgeReached(Direction::Up));
                }
                Ok(Position { x: position.x, y: position.y - 1 })
            },
            Direction::Down => {
                if position.y >= self.height - 1 {
                    return Err(GameError::EdgeReached(Direction::Down));
                }
                Ok(Position { x: position.x, y: position.y + 1 })
            },
        }
    }

    /// Moves the explorer one step in `direction` and answers that direction.
    ///
    /// The cell that is entered records the direction and becomes the current
    /// cell, whatever marker it carried. Before `start` the answer is
    /// `NotStarted`; at the border of the grid it is `EdgeReached`; in both cases
    /// nothing changes.
    pub fn move_to(&mut self, direction: &Direction) -> (r: Result<Direction, GameError>)
        requires
            old(self).wf(),
        ensures
            final(self).wf(),
            r == old(self)@.move_to_result(*direction),
            final(self)@ == old(self)@.move_to(*direction),
    {
        let current_position = *self.current_position()?;
        let next_position = self.next_position_from_direction(&current_position, direction)?;
        let Position { x, y } = next_position;

        // the marker remembers the direction that led here
        self.visited_positions[x][y] = State::from_direction(direction);
        self.current_position = Some(next_position);
        assert(self@.markers =~= old(self)@.move_to(*direction).markers);

        Ok(*direction)
    }

    /// Takes back the step that led onto the current cell and answers the
    /// direction of the retreat, the inverse of the one recorded on the cell.
    ///
    /// The cell that is left becomes `Visited` and the cell it was entered from
    /// becomes the current cell. Before `start` the answer is `NotStarted` and
    /// nothing changes. Should the retreat run into the border of the grid, the
    /// answer is `EdgeReached`: the cell is closed all the same and the explorer
    /// stays on it.
    ///
    /// The current cell must still hold its direction of entry: there is nothing
    /// to retrace on a cell that was never entered or was left already.
    pub fn move_backwards(&mut self) -> (r: Result<Direction, GameError>)
        requires
            old(self).wf(),
            old(self)@.can_move_backwards(),
        ensures
            final(self).wf(),
            r == old(self)@.move_backwards_result(),
            final(self)@ == old(self)@.move_backwards(),
    {
        let current_position = *self.current_position()?;
        let Position { x, y } = current_position;

        let direction = Direction::inverted_direction_from_state(
            &self.visited_positions[x][y],
        ).expect("Inverted direction of an unvisited field");
        self.visited_positions[x][y] = State::Visited;
        assert(self@.markers =~= old(self)@.with_marker(current_position@, State::Visited).markers);

        let next_position = self.next_position_from_direction(&current_position, &direction)?;
        self.current_position = Some(next_position);
        assert(self@.markers =~= old(self)@.move_backwards().markers);

        Ok(direction)
    }

    /// Picks the direction to explore next from the current cell, given the walls
    /// seen around it: the first of left, right, up, down in which there is no
    /// wall, the grid goes on, and the cell beyond is still unvisited. `None`
    /// says that no such direction is left and the explorer has to retreat.
    /// Before `start` the answer is `NotStarted`. Nothing is changed.
    pub fn get_next_unvisited_direction(&self, environment: FieldEnvironment) -> (r: Result<
        Option<Direction>,
        GameError,
    >)
        requires
            self.wf(),
        ensures
            r == self@.next_unvisited_result(environment),
            r is Err <==> self@.current is None,
            r matches Ok(Some(d)) ==> self@.available(environment, d) && forall|e: Direction|
                e.priority() < d.priority() ==> !self@.available(environment, e),
            r matches Ok(None) ==> forall|e: Direction| !self@.available(environment, e),
    {
        let current_position = self.current_position()?;

        if !environment.has_left_wall && self.leads_to_unvisited(current_position, &Direction::Left) {
            return Ok(Some(Direction::Left));
        }
        if !environment.has_right_wall && self.leads_to_unvisited(
            current_position,
            &Direction::Right,
        ) {
            return Ok(Some(Direction::Right));
        }
        if !environment.has_upper_wall && self.leads_to_unvisited(current_position, &Direction::Up) {
            return Ok(Some(Direction::Up));
        }
        if !environment.has_lower_wall && self.leads_to_unvisited(current_position, &Direction::Down) {
            return Ok(Some(Direction::Down));
        }
        Ok(None)
    }

    /// Plays one round on the walls seen around the current cell: goes forward
    /// in the next unvisited direction when there is one, retreats when there is
    /// none, and answers the direction of the move.
    ///
    /// The answer is `None`, and nothing changes, when there is no direction to
    /// explore and no step to retrace either, the current cell holding no
    /// direction of entry: the exploration is over. Before `start` the answer is
    /// `NotStarted`. `EdgeReached` can only come from a retreat that runs into
    /// the border of the grid, as in `move_backwards`.
    pub fn advance(&mut self, environment: FieldEnvironment) -> (r: Result<
        Option<Direction>,
        GameError,
    >)
        requires
            old(self).wf(),
        ensures
            final(self).wf(),
            r == old(self)@.advance_result(environment),
            final(self)@ == old(self)@.advance(environment),
    {
        match self.get_next_unvisited_direction(environment)? {
            Some(direction) => {
                let moved = self.move_to(&direction)?;
                Ok(Some(moved))
            },
            None => {
                let Position { x, y } = *self.current_position()?;
                if Direction::inverted_direction_from_state(&self.visited_positions[x][y]).is_none() {
                    return Ok(None);
                }
                let moved = self.move_backwards()?;
                Ok(Some(moved))
            },
        }
    }

    /// Whether a step from `position` in `direction` stays inside the grid and
    /// ends on an unvisited cell.
    fn leads_to_unvisited(&self, position: &Position, direction: &Direction) -> (b: bool)
        requires
            self.wf(),
            self@.in_grid(position@),
        ensures
            b <==> (self@.step_target(position@, *direction) matches Ok(t) && self@.markers[t]
                == State::Unvisited),
    {
        match self.next_position_from_direction(position, direction) {
            Ok(Position { x, y }) => self.visited_positions[x][y] == State::Unvisited,
            Err(_) => false,
        }
    }
}

} // verus!
