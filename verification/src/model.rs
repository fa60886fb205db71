//! The mathematical model of a game: a grid of markers and the cell the explorer
//! stands on, with every operation of the game as a function from one model
//! value to the next.

use vstd::prelude::*;
use crate::direction::{Direction, State};
use crate::error::GameError;
use crate::position::{Coord, FieldEnvironment};

verus! {

/// The abstract state of a game.
#[verifier::ext_equal]
pub struct GameView {
    /// Number of columns.
    pub width: nat,
    /// Number of rows.
    pub height: nat,
    /// The cell to be reached. It plays no part in how the grid is walked.
    pub goal: Coord,
    /// The cell the explorer stands on; `None` until the game is started.
    pub current: Option<Coord>,
    /// The marker of every cell of the grid.
    pub markers: Map<Coord, State>,
}

impl GameView {
    /// Whether `c` is a cell of the grid.
    pub open spec fn in_grid(self, c: Coord) -> bool {
        0 <= c.x < self.width && 0 <= c.y < self.height
    }

    /// Whether `c` is a cell of the grid that does not touch its border.
    pub open spec fn interior(self, c: Coord) -> bool {
        0 < c.x < self.width - 1 && 0 < c.y < self.height - 1
    }

    /// The grid has at least one cell, exactly its cells carry a marker, and the
    /// explorer stands inside it.
    pub open spec fn wf(self) -> bool {
        &&& self.width > 0
        &&& self.height > 0
        &&& forall|c: Coord|
            #![trigger self.markers.dom().contains(c)]
            #![trigger self.in_grid(c)]
            self.markers.dom().contains(c) <==> self.in_grid(c)
        &&& self.current matches Some(c) ==> self.in_grid(c)
    }

    /// A game that was just created: nothing visited, not started.
    pub open spec fn fresh(width: nat, height: nat, goal: Coord) -> GameView {
        GameView {
            width,
            height,
            goal,
            current: None,
            markers: Map::new(
                |c: Coord| 0 <= c.x < width && 0 <= c.y < height,
                |c: Coord| State::Unvisited,
            ),
        }
    }

    /// The same game with the marker of `c` replaced.
    pub open spec fn with_marker(self, c: Coord, marker: State) -> GameView {
        GameView { markers: self.markers.insert(c, marker), ..self }
    }

    /// Whether a step from `c` in direction `d` runs into the border of the grid.
    pub open spec fn at_edge(self, c: Coord, d: Direction) -> bool {
        match d {
            Direction::Left => c.x <= 0,
            Direction::Right => c.x >= self.width - 1,
            Direction::Up => c.y <= 0,
            Direction::Down => c.y >= self.height - 1,
        }
    }

    /// The cell reached by one step from `c` in direction `d`, or the edge that
    /// stops the step.
    pub open spec fn step_target(self, c: Coord, d: Direction) -> Result<Coord, GameError> {
        if self.at_edge(c, d) {
            Err(GameError::EdgeReached(d))
        } else {
            Ok(c.step(d))
        }
    }

    /// What `start` answers: it succeeds once.
    pub open spec fn start_result(self) -> Result<(), GameError> {
        if self.current is Some {
            Err(GameError::AlreadyStarted)
        } else {
            Ok(())
        }
    }

    /// The game after `start` at `c`: the explorer is placed on `c` unless it
    /// stands somewhere already.
    pub open spec fn start(self, c: Coord) -> GameView {
        if self.current is Some {
            self
        } else {
            GameView { current: Some(c), ..self }
        }
    }

    /// What `current_position` answers.
    pub open spec fn current_position_result(self) -> Result<Coord, GameError> {
        match self.current {
            None => Err(GameError::NotStarted),
            Some(c) => Ok(c),
        }
    }

    /// The cell that a move of the explorer in direction `d` leads to.
    pub open spec fn move_target(self, d: Direction) -> Result<Coord, GameError> {
        match self.current {
            None => Err(GameError::NotStarted),
            Some(c) => self.step_target(c, d),
        }
    }

    /// What `move_to` answers: the direction itself when the move is made.
    pub open spec fn move_to_result(self, d: Direction) -> Result<Direction, GameError> {
        match self.move_target(d) {
            Ok(_) => Ok(d),
            Err(e) => Err(e),
        }
    }

    /// The game after `move_to`: the target cell records the direction of entry
    /// and becomes the current cell. Nothing changes when the move is refused.
    pub open spec fn move_to(self, d: Direction) -> GameView {
        match self.move_target(d) {
            Ok(t) => GameView { current: Some(t), ..self.with_marker(t, State::EnteredFrom(d)) },
            Err(_) => self,
        }
    }

    /// Whether `move_backwards` may be called: once started, the current cell
    /// must still hold the direction by which it was entered.
    pub open spec fn can_move_backwards(self) -> bool {
        self.current matches Some(c) ==> self.markers[c] is EnteredFrom
    }

    /// What `move_backwards` answers: the inverse of the direction recorded on
    /// the current cell, when the step back stays inside the grid.
    pub open spec fn move_backwards_result(self) -> Result<Direction, GameError>
        recommends
            self.can_move_backwards(),
    {
        match self.current {
            None => Err(GameError::NotStarted),
            Some(c) => {
                let back = self.markers[c].exit_direction().unwrap();
                match self.step_target(c, back) {
                    Ok(_) => Ok(back),
                    Err(e) => Err(e),
                }
            },
        }
    }

    /// The game after `move_backwards`: the cell that is left is closed for good
    /// and the explorer stands on the cell it had come from. When the step back
    /// is stopped by an edge the cell is closed all the same and the explorer
    /// stays.
    pub open spec fn move_backwards(self) -> GameView
        recommends
            self.can_move_backwards(),
    {
        match self.current {
            None => self,
            Some(c) => {
                let back = self.markers[c].exit_direction().unwrap();
                let closed = self.with_marker(c, State::Visited);
                match self.step_target(c, back) {
                    Ok(t) => GameView { current: Some(t), ..closed },
                    Err(_) => closed,
                }
            },
        }
    }

    /// Whether the explorer may go forward in direction `d`: no wall is in the
    /// way, the step stays inside the grid and the cell beyond is unvisited.
    pub open spec fn available(self, env: FieldEnvironment, d: Direction) -> bool {
        &&& !env.has_wall(d)
        &&& self.move_target(d) matches Ok(t)
        &&& self.markers[t] == State::Unvisited
    }

    /// The direction to explore next: the first available one in the order left,
    /// right, up, down.
    pub open spec fn next_unvisited(self, env: FieldEnvironment) -> Option<Direction> {
        if self.available(env, Direction::Left) {
            Some(Direction::Left)
        } else if self.available(env, Direction::Right) {
            Some(Direction::Right)
        } else if self.available(env, Direction::Up) {
            Some(Direction::Up)
        } else if self.available(env, Direction::Down) {
            Some(Direction::Down)
        } else {
            None
        }
    }

    /// What `advance` answers: the direction of the move it makes, forward in
    /// the next unvisited direction when there is one and backwards when there is
    /// none, or `None` when there is neither a direction to explore nor a step to
    /// retrace.
    pub open spec fn advance_result(self, env: FieldEnvironment) -> Result<
        Option<Direction>,
        GameError,
    > {
        if self.current is None {
            Err(GameError::NotStarted)
        } else if self.next_unvisited(env) is Some {
            Ok(self.next_unvisited(env))
        } else if self.can_move_backwards() {
            match self.move_backwards_result() {
                Ok(back) => Ok(Some(back)),
                Err(e) => Err(e),
            }
        } else {
            Ok(None)
        }
    }

    /// The game after `advance`: after the move forward or backwards that it
    /// makes, and unchanged when it makes none.
    pub open spec fn advance(self, env: FieldEnvironment) -> GameView {
        match self.next_unvisited(env) {
            Some(d) => self.move_to(d),
            None => if self.can_move_backwards() {
                self.move_backwards()
            } else {
                self
            },
        }
    }

    /// What `get_next_unvisited_direction` answers.
    pub open spec fn next_unvisited_result(self, env: FieldEnvironment) -> Result<
        Option<Direction>,
        GameError,
    > {
        if self.current is None {
            Err(GameError::NotStarted)
        } else {
            Ok(self.next_unvisited(env))
        }
    }
}

/// A fresh game is well formed.
pub proof fn lemma_fresh_wf(width: nat, height: nat, goal: Coord)
    requires
        width > 0,
        height > 0,
    ensures
        GameView::fresh(width, height, goal).wf(),
{
}

/// Inside the grid a step is stopped exactly when the neighbouring point lies
/// outside, and a step that is made leads to the neighbouring point.
pub proof fn lemma_step_target_in_grid(g: GameView, c: Coord, d: Direction)
    requires
        g.wf(),
        g.in_grid(c),
    ensures
        g.step_target(c, d) is Err <==> !g.in_grid(c.step(d)),
        g.step_target(c, d) is Err ==> g.step_target(c, d) == Err::<Coord, GameError>(
            GameError::EdgeReached(d),
        ),
        g.step_target(c, d) is Ok ==> g.step_target(c, d) == Ok::<Coord, GameError>(c.step(d)),
{
}

/// Placing the explorer on a cell of the grid and replacing the marker of one
/// keep a well-formed game well formed.
pub proof fn lemma_placing_keeps_wf(g: GameView, c: Coord, marker: State)
    requires
        g.wf(),
        g.in_grid(c),
    ensures
        g.start(c).wf(),
        g.with_marker(c, marker).wf(),
{
}

/// A move forward, made or refused, a permitted move backwards, and a round of
/// `advance` keep a well-formed game well formed.
pub proof fn lemma_moves_keep_wf(g: GameView, d: Direction, env: FieldEnvironment)
    requires
        g.wf(),
    ensures
        g.move_to(d).wf(),
        g.can_move_backwards() ==> g.move_backwards().wf(),
        g.advance(env).wf(),
{
    if let Some(next) = g.next_unvisited(env) {
        lemma_step_target_in_grid(g, g.current.unwrap(), next);
    }
    if let Some(p) = g.current {
        lemma_step_target_in_grid(g, p, d);
        if g.can_move_backwards() {
            lemma_step_target_in_grid(g, p, g.markers[p].exit_direction().unwrap());
        }
    }
}

} // verus!
