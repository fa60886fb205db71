//! Properties of the operations of a game that hold in every state, proved over
//! the model that the contracts of [`crate::game::Game`] are stated in.

use vstd::prelude::*;
use crate::direction::{Direction, State};
use crate::error::GameError;
use crate::model::{lemma_step_target_in_grid, GameView};
use crate::position::{Coord, FieldEnvironment};

verus! {

/// A game that was just created has no current position, and `start` succeeds
/// on it and places the explorer.
pub proof fn lemma_fresh_game_is_not_started(width: nat, height: nat, goal: Coord, c: Coord)
    ensures
        GameView::fresh(width, height, goal).current_position_result() == Err::<Coord, GameError>(
            GameError::NotStarted,
        ),
        GameView::fresh(width, height, goal).start_result() == Ok::<(), GameError>(()),
        GameView::fresh(width, height, goal).start(c).current_position_result() == Ok::<
            Coord,
            GameError,
        >(c),
{
}

/// After `start` was called once, in whatever state, every further `start` is
/// refused with `AlreadyStarted` and leaves the game as it is.
pub proof fn lemma_second_start_is_refused(g: GameView, first: Coord, second: Coord)
    ensures
        g.start(first).start_result() == Err::<(), GameError>(GameError::AlreadyStarted),
        g.start(first).start(second) == g.start(first),
{
}

/// A step forward that is made, followed at once by a retreat: the retreat is
/// permitted, answers the inverse direction, and puts the explorer back on the
/// cell where it stood. Of the markers only the one of the cell that was
/// entered and left has changed: that cell is closed.
pub proof fn lemma_move_then_retreat(g: GameView, d: Direction)
    requires
        g.wf(),
        g.move_to_result(d) is Ok,
    ensures
        g.move_to_result(d) == Ok::<Direction, GameError>(d),
        g.move_to(d).can_move_backwards(),
        g.move_to(d).move_backwards_result() == Ok::<Direction, GameError>(d.inverse()),
        g.move_to(d).move_backwards().current == g.current,
        g.move_to(d).move_backwards() == g.with_marker(
            g.move_target(d).unwrap(),
            State::Visited,
        ),
{
    let c = g.current.unwrap();
    let t = c.step(d);
    lemma_step_target_in_grid(g, c, d);
    let entered = g.move_to(d);
    assert(entered.markers[t] == State::EnteredFrom(d));
    assert(t.step(d.inverse()) == c);
    lemma_step_target_in_grid(entered, t, d.inverse());
    let back = entered.move_backwards();
    assert(back.markers =~= g.with_marker(t, State::Visited).markers);
}

/// From a cell that does not touch the border, a step in any of the four
/// directions followed at once by a retreat answers the inverse direction and
/// puts the explorer back on that cell.
pub proof fn lemma_interior_round_trip(g: GameView, d: Direction)
    requires
        g.wf(),
        g.current matches Some(c) && g.interior(c),
    ensures
        g.move_to_result(d) == Ok::<Direction, GameError>(d),
        g.move_to(d).can_move_backwards(),
        g.move_to(d).move_backwards_result() == Ok::<Direction, GameError>(d.inverse()),
        g.move_to(d).move_backwards().current == g.current,
{
    lemma_move_then_retreat(g, d);
}

/// A round of `advance` never reopens a cell. It changes the marker of at most
/// one cell, and that marker goes one stage further: from unvisited to entered
/// when the round is a step forward, from entered to closed when it is a
/// retreat.
pub proof fn lemma_advance_moves_one_marker_on(g: GameView, env: FieldEnvironment)
    requires
        g.wf(),
    ensures
        g.advance(env).markers.dom() == g.markers.dom(),
        forall|c: Coord|
            g.in_grid(c) ==> g.markers[c].stage() <= (#[trigger] g.advance(env).markers[c]).stage()
                <= g.markers[c].stage() + 1,
        forall|a: Coord, b: Coord|
            g.in_grid(a) && g.in_grid(b) && g.advance(env).markers[a] != g.markers[a] && g.advance(
                env,
            ).markers[b] != g.markers[b] ==> a == b,
        g.advance_result(env) matches Ok(Some(_)) ==> exists|c: Coord|
            g.in_grid(c) && (#[trigger] g.advance(env).markers[c]).stage() == g.markers[c].stage()
                + 1,
{
    if let Some(c) = g.current {
        match g.next_unvisited(env) {
            Some(d) => {
                assert(g.available(env, d));
                lemma_step_target_in_grid(g, c, d);
                assert(g.advance(env).markers.dom() =~= g.markers.dom());
                let t = c.step(d);
                assert(g.advance(env).markers[t].stage() == g.markers[t].stage() + 1);
            },
            None => {
                assert(g.advance(env).markers.dom() =~= g.markers.dom());
                if g.can_move_backwards() {
                    assert(g.advance(env).markers[c].stage() == g.markers[c].stage() + 1);
                }
            },
        }
    }
}

/// A step forward made by `advance` never runs into the border of the grid:
/// the only moves it makes are a step onto an unvisited cell of the grid and a
/// retreat.
pub proof fn lemma_advance_goes_forward_inside_the_grid(g: GameView, env: FieldEnvironment)
    requires
        g.wf(),
    ensures
        g.next_unvisited(env) matches Some(d) ==> {
            &&& g.advance_result(env) == Ok::<Option<Direction>, GameError>(Some(d))
            &&& g.move_to_result(d) == Ok::<Direction, GameError>(d)
            &&& g.move_target(d) matches Ok(t) && g.in_grid(t) && g.markers[t] == State::Unvisited
        },
{
    if let Some(d) = g.next_unvisited(env) {
        assert(g.available(env, d));
        lemma_step_target_in_grid(g, g.current.unwrap(), d);
    }
}

/// The choice of the next direction goes by rank. The direction chosen is
/// available and no direction of lower rank is; nothing is chosen only when no
/// direction is available. So with all four available the answer is left, and it
/// is right, up or down exactly when that is the first available in this order.
pub proof fn lemma_next_unvisited_goes_by_priority(g: GameView, env: FieldEnvironment)
    ensures
        match g.next_unvisited(env) {
            Some(d) => g.available(env, d) && forall|e: Direction|
                e.priority() < d.priority() ==> !g.available(env, e),
            None => forall|e: Direction| !g.available(env, e),
        },
        forall|d: Direction|
            g.available(env, d) && (forall|e: Direction|
                e.priority() < d.priority() ==> !g.available(env, e)) ==> g.next_unvisited(env)
                == Some(d),
        g.available(env, Direction::Left) ==> g.next_unvisited(env) == Some(Direction::Left),
{
    assert forall|d: Direction|
        g.available(env, d) && (forall|e: Direction|
            e.priority() < d.priority() ==> !g.available(env, e)) implies g.next_unvisited(env)
        == Some(d) by {
        assert(Direction::Left.priority() == 0);
        assert(Direction::Right.priority() == 1);
        assert(Direction::Up.priority() == 2);
        assert(Direction::Down.priority() == 3);
    }
}

/// Walls play no part where the grid ends anyway: an observation whose walls
/// all lie on the border of the grid leads to the same choice as one without
/// walls.
pub proof fn lemma_border_walls_change_nothing(g: GameView, env: FieldEnvironment)
    requires
        forall|d: Direction| env.has_wall(d) ==> g.move_target(d) is Err,
    ensures
        g.next_unvisited(env) == g.next_unvisited(FieldEnvironment::open()),
        g.advance_result(env) == g.advance_result(FieldEnvironment::open()),
        g.advance(env) == g.advance(FieldEnvironment::open()),
{
    assert(env.has_wall(Direction::Left) ==> g.move_target(Direction::Left) is Err);
    assert(env.has_wall(Direction::Right) ==> g.move_target(Direction::Right) is Err);
    assert(env.has_wall(Direction::Up) ==> g.move_target(Direction::Up) is Err);
    assert(env.has_wall(Direction::Down) ==> g.move_target(Direction::Down) is Err);
}

} // verus!
