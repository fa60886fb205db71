//! Whole runs of the explorer through a maze without inner walls.
//!
//! A caller drives the game in rounds of `advance`, each on the walls seen
//! around the current cell. This module states what such a run does on a grid
//! in which no wall stands between two cells, and proves it: the run enters
//! every cell exactly once, makes exactly two moves per cell, and ends on the
//! cell where it began with the whole grid closed.

use vstd::prelude::*;
use crate::direction::{Direction, State};
use crate::error::GameError;
use crate::model::{
    lemma_fresh_wf, lemma_moves_keep_wf, lemma_placing_keeps_wf, lemma_step_target_in_grid,
    GameView,
};
use crate::position::{Coord, FieldEnvironment};

verus! {

/// Whether the walls that `walls` reports cell by cell all lie on the border of
/// the grid of `g`: no wall stands between two cells.
pub open spec fn without_inner_walls(g: GameView, walls: spec_fn(Coord) -> FieldEnvironment) -> bool {
    forall|c: Coord, d: Direction|
        g.in_grid(c) && g.in_grid(c.step(d)) ==> !(#[trigger] walls(c).has_wall(d))
}

/// The game after one round of `advance` in the maze whose walls are `walls`.
pub open spec fn explore_step(g: GameView, walls: spec_fn(Coord) -> FieldEnvironment) -> GameView {
    match g.current {
        Some(c) => g.advance(walls(c)),
        None => g,
    }
}

/// What that round answers.
pub open spec fn explore_answer(g: GameView, walls: spec_fn(Coord) -> FieldEnvironment) -> Result<
    Option<Direction>,
    GameError,
> {
    match g.current {
        Some(c) => g.advance_result(walls(c)),
        None => Err(GameError::NotStarted),
    }
}

/// Whether the answer of a round is the direction of a move that was made.
pub open spec fn is_move(answer: Result<Option<Direction>, GameError>) -> bool {
    answer matches Ok(Some(_))
}

/// The game after `rounds` rounds.
pub open spec fn explore(
    g: GameView,
    walls: spec_fn(Coord) -> FieldEnvironment,
    rounds: nat,
) -> GameView
    decreases rounds,
{
    if rounds == 0 {
        g
    } else {
        explore_step(explore(g, walls, (rounds - 1) as nat), walls)
    }
}

/// Whether the round that begins in `g` is a step forward onto `c`.
pub open spec fn enters(g: GameView, walls: spec_fn(Coord) -> FieldEnvironment, c: Coord) -> bool {
    &&& g.current matches Some(from)
    &&& g.next_unvisited(walls(from)) matches Some(d)
    &&& g.move_target(d) == Ok::<Coord, GameError>(c)
}

/// How many of the first `rounds` rounds from `g` are a step forward onto `c`.
pub open spec fn entries(
    g: GameView,
    walls: spec_fn(Coord) -> FieldEnvironment,
    rounds: nat,
    c: Coord,
) -> nat
    decreases rounds,
{
    if rounds == 0 {
        0
    } else {
        let earlier = entries(g, walls, (rounds - 1) as nat, c);
        if enters(explore(g, walls, (rounds - 1) as nat), walls, c) {
            earlier + 1
        } else {
            earlier
        }
    }
}

// ---------------------------------------------------------------------------
// The moves that a grid still owes: two for an unvisited cell, one for a cell
// that is entered and not yet left.
// ---------------------------------------------------------------------------

spec fn owed(marker: State) -> nat {
    match marker {
        State::Unvisited => 2,
        State::EnteredFrom(_) => 1,
        State::Visited => 0,
    }
}

spec fn owed_in_column(markers: Map<Coord, State>, x: int, rows: nat) -> nat
    decreases rows,
{
    if rows == 0 {
        0
    } else {
        owed_in_column(markers, x, (rows - 1) as nat) + owed(markers[Coord { x, y: rows - 1 }])
    }
}

spec fn owed_in_columns(markers: Map<Coord, State>, columns: nat, rows: nat) -> nat
    decreases columns,
{
    if columns == 0 {
        0
    } else {
        owed_in_columns(markers, (columns - 1) as nat, rows) + owed_in_column(
            markers,
            columns - 1,
            rows,
        )
    }
}

spec fn owed_moves(g: GameView) -> nat {
    owed_in_columns(g.markers, g.width, g.height)
}

proof fn lemma_owed_in_column_after_insert(
    markers: Map<Coord, State>,
    c: Coord,
    marker: State,
    x: int,
    rows: nat,
)
    ensures
        owed_in_column(markers.insert(c, marker), x, rows) == if c.x == x && 0 <= c.y < rows {
            owed_in_column(markers, x, rows) - owed(markers[c]) + owed(marker)
        } else {
            owed_in_column(markers, x, rows) as int
        },
    decreases rows,
{
    if rows > 0 {
        lemma_owed_in_column_after_insert(markers, c, marker, x, (rows - 1) as nat);
    }
}

proof fn lemma_owed_in_columns_after_insert(
    markers: Map<Coord, State>,
    c: Coord,
    marker: State,
    columns: nat,
    rows: nat,
)
    ensures
        owed_in_columns(markers.insert(c, marker), columns, rows) == if 0 <= c.x < columns && 0
            <= c.y < rows {
            owed_in_columns(markers, columns, rows) - owed(markers[c]) + owed(marker)
        } else {
            owed_in_columns(markers, columns, rows) as int
        },
    decreases columns,
{
    if columns > 0 {
        lemma_owed_in_columns_after_insert(markers, c, marker, (columns - 1) as nat, rows);
        lemma_owed_in_column_after_insert(markers, c, marker, columns - 1, rows);
    }
}

proof fn lemma_owed_in_unvisited_column(markers: Map<Coord, State>, x: int, rows: nat)
    requires
        forall|y: int| 0 <= y < rows ==> markers[Coord { x, y }] == State::Unvisited,
    ensures
        owed_in_column(markers, x, rows) == 2 * rows,
    decreases rows,
{
    if rows > 0 {
        lemma_owed_in_unvisited_column(markers, x, (rows - 1) as nat);
    }
}

proof fn lemma_owed_in_unvisited_columns(markers: Map<Coord, State>, columns: nat, rows: nat)
    requires
        forall|c: Coord|
            0 <= c.x < columns && 0 <= c.y < rows ==> #[trigger] markers[c] == State::Unvisited,
    ensures
        owed_in_columns(markers, columns, rows) == 2 * (columns * rows),
    decreases columns,
{
    if columns > 0 {
        lemma_owed_in_unvisited_columns(markers, (columns - 1) as nat, rows);
        let x = columns - 1;
        assert forall|y: int| 0 <= y < rows implies markers[Coord { x, y }]
            == State::Unvisited by {
            let c = Coord { x, y };
            assert(markers[c] == State::Unvisited);
        }
        lemma_owed_in_unvisited_column(markers, x, rows);
        assert(columns * rows == (columns - 1) * rows + rows) by (nonlinear_arith);
    } else {
        assert(columns * rows == 0) by (nonlinear_arith)
            requires
                columns == 0,
        ;
    }
}

proof fn lemma_nothing_owed_in_column(markers: Map<Coord, State>, x: int, rows: nat)
    ensures
        owed_in_column(markers, x, rows) == 0 <==> forall|y: int|
            0 <= y < rows ==> markers[Coord { x, y }] == State::Visited,
    decreases rows,
{
    if rows > 0 {
        lemma_nothing_owed_in_column(markers, x, (rows - 1) as nat);
        if owed_in_column(markers, x, rows) == 0 {
            assert forall|y: int| 0 <= y < rows implies markers[Coord { x, y }]
                == State::Visited by {
                if y < rows - 1 {
                } else {
                    assert(y == rows - 1);
                }
            }
        } else if forall|y: int| 0 <= y < rows ==> markers[Coord { x, y }] == State::Visited {
            assert(markers[Coord { x, y: rows - 1 }] == State::Visited);
        }
    }
}

proof fn lemma_nothing_owed_in_columns(markers: Map<Coord, State>, columns: nat, rows: nat)
    ensures
        owed_in_columns(markers, columns, rows) == 0 <==> forall|c: Coord|
            0 <= c.x < columns && 0 <= c.y < rows ==> #[trigger] markers[c] == State::Visited,
    decreases columns,
{
    if columns > 0 {
        let x = columns - 1;
        lemma_nothing_owed_in_columns(markers, (columns - 1) as nat, rows);
        lemma_nothing_owed_in_column(markers, x, rows);
        if owed_in_columns(markers, columns, rows) == 0 {
            assert forall|c: Coord| 0 <= c.x < columns && 0 <= c.y < rows implies #[trigger] markers[c]
                == State::Visited by {
                if c.x == x {
                    assert(c == Coord { x, y: c.y });
                }
            }
        } else if forall|c: Coord|
            0 <= c.x < columns && 0 <= c.y < rows ==> #[trigger] markers[c] == State::Visited {
            assert forall|y: int| 0 <= y < rows implies markers[Coord { x, y }]
                == State::Visited by {
                let c = Coord { x, y };
                assert(markers[c] == State::Visited);
            }
        }
    }
}

// ---------------------------------------------------------------------------
// The trail: the cells that are entered and not yet left, in the order in which
// they were entered. The explorer stands on its last cell, or on the cell where
// the run began when the trail is empty.
// ---------------------------------------------------------------------------

spec fn trail_below(root: Coord, trail: Seq<Coord>, i: int) -> Coord {
    if i <= 0 {
        root
    } else {
        trail[i - 1]
    }
}

spec fn entered_from_below(g: GameView, root: Coord, trail: Seq<Coord>, i: int) -> bool {
    &&& g.in_grid(trail[i])
    &&& g.markers[trail[i]] matches State::EnteredFrom(d)
    &&& trail[i] == trail_below(root, trail, i).step(g.markers[trail[i]]->EnteredFrom_0)
}

spec fn way_on(g: GameView, c: Coord, d: Direction) -> bool {
    g.in_grid(c.step(d)) && g.markers[c.step(d)] == State::Unvisited
}

spec fn no_way_on(g: GameView, c: Coord) -> bool {
    &&& !way_on(g, c, Direction::Left)
    &&& !way_on(g, c, Direction::Right)
    &&& !way_on(g, c, Direction::Up)
    &&& !way_on(g, c, Direction::Down)
}

spec fn untouched(g: GameView) -> bool {
    forall|c: Coord| g.in_grid(c) ==> #[trigger] g.markers[c] == State::Unvisited
}

/// The walls seen on the current cell leave every way into the grid open.
spec fn border_walls_only(g: GameView, env: FieldEnvironment) -> bool {
    forall|d: Direction| env.has_wall(d) ==> g.move_target(d) is Err
}

spec fn trail_ok(g: GameView, root: Coord, trail: Seq<Coord>) -> bool {
    &&& g.wf()
    &&& g.in_grid(root)
    &&& g.current == Some(trail_below(root, trail, trail.len() as int))
    &&& forall|i: int| 0 <= i < trail.len() ==> entered_from_below(g, root, trail, i)
    &&& forall|i: int, j: int| 0 <= i < j < trail.len() ==> trail[i] != trail[j]
    &&& forall|c: Coord|
        g.in_grid(c) && #[trigger] g.markers[c] is EnteredFrom ==> trail.contains(c)
    &&& forall|c: Coord|
        g.in_grid(c) && #[trigger] g.markers[c] == State::Visited ==> no_way_on(g, c)
    &&& trail.len() == 0 ==> untouched(g) || g.markers[root] == State::Visited
}

proof fn lemma_walls_seen_in_open_maze(
    g: GameView,
    walls: spec_fn(Coord) -> FieldEnvironment,
    c: Coord,
)
    requires
        g.wf(),
        g.current == Some(c),
        without_inner_walls(g, walls),
    ensures
        border_walls_only(g, walls(c)),
{
    assert forall|d: Direction| walls(c).has_wall(d) implies g.move_target(d) is Err by {
        lemma_step_target_in_grid(g, c, d);
    }
}

proof fn lemma_no_choice_means_no_way_on(g: GameView, c: Coord, env: FieldEnvironment)
    requires
        g.wf(),
        g.current == Some(c),
        border_walls_only(g, env),
        g.next_unvisited(env) is None,
    ensures
        no_way_on(g, c),
{
    lemma_step_target_in_grid(g, c, Direction::Left);
    lemma_step_target_in_grid(g, c, Direction::Right);
    lemma_step_target_in_grid(g, c, Direction::Up);
    lemma_step_target_in_grid(g, c, Direction::Down);
    assert(env.has_wall(Direction::Left) ==> g.move_target(Direction::Left) is Err);
    assert(env.has_wall(Direction::Right) ==> g.move_target(Direction::Right) is Err);
    assert(env.has_wall(Direction::Up) ==> g.move_target(Direction::Up) is Err);
    assert(env.has_wall(Direction::Down) ==> g.move_target(Direction::Down) is Err);
}

proof fn lemma_forward_round(
    g: GameView,
    root: Coord,
    trail: Seq<Coord>,
    env: FieldEnvironment,
    d: Direction,
)
    requires
        trail_ok(g, root, trail),
        g.next_unvisited(env) == Some(d),
    ensures
        ({
            let t = g.current.unwrap().step(d);
            &&& g.in_grid(t)
            &&& g.markers[t] == State::Unvisited
            &&& g.move_target(d) == Ok::<Coord, GameError>(t)
            &&& g.advance(env).markers == g.markers.insert(t, State::EnteredFrom(d))
            &&& g.advance(env).width == g.width
            &&& g.advance(env).height == g.height
            &&& g.advance(env).goal == g.goal
            &&& trail_ok(g.advance(env), root, trail.push(t))
            &&& owed_moves(g.advance(env)) + 1 == owed_moves(g)
            &&& g.advance_result(env) == Ok::<Option<Direction>, GameError>(Some(d))
        }),
{
    let c = g.current.unwrap();
    let t = c.step(d);
    let next = g.advance(env);
    let longer = trail.push(t);
    let n = trail.len() as int;
    assert(g.available(env, d));
    lemma_step_target_in_grid(g, c, d);
    assert(next == g.move_to(d));
    lemma_moves_keep_wf(g, d, env);
    assert forall|i: int| 0 <= i < longer.len() implies entered_from_below(
        next,
        root,
        longer,
        i,
    ) by {
        if i < n {
            assert(entered_from_below(g, root, trail, i));
            assert(longer[i] == trail[i]);
            assert(trail_below(root, longer, i) == trail_below(root, trail, i));
        } else {
            assert(longer[i] == t);
            assert(trail_below(root, longer, i) == c);
        }
    }
    assert forall|i: int, j: int| 0 <= i < j < longer.len() implies longer[i] != longer[j] by {
        assert(entered_from_below(g, root, trail, i));
    }
    assert forall|e: Coord| next.in_grid(e) && #[trigger] next.markers[e] is EnteredFrom implies longer.contains(
        e,
    ) by {
        if e == t {
            assert(longer[n] == t);
        } else {
            assert(g.markers[e] is EnteredFrom);
            let i = choose|i: int| 0 <= i < trail.len() && trail[i] == e;
            assert(longer[i] == e);
        }
    }
    assert forall|e: Coord| next.in_grid(e) && #[trigger] next.markers[e] == State::Visited implies no_way_on(
        next,
        e,
    ) by {
        assert(g.markers[e] == State::Visited);
        assert(no_way_on(g, e));
    }
    lemma_owed_in_columns_after_insert(g.markers, t, State::EnteredFrom(d), g.width, g.height);
}

proof fn lemma_backward_round(g: GameView, root: Coord, trail: Seq<Coord>, env: FieldEnvironment)
    requires
        trail_ok(g, root, trail),
        border_walls_only(g, env),
        g.next_unvisited(env) is None,
        trail.len() > 0,
    ensures
        ({
            let c = trail.last();
            &&& g.in_grid(c)
            &&& g.markers[c] is EnteredFrom
            &&& g.advance(env).markers == g.markers.insert(c, State::Visited)
            &&& g.advance(env).width == g.width
            &&& g.advance(env).height == g.height
            &&& g.advance(env).goal == g.goal
            &&& trail_ok(g.advance(env), root, trail.drop_last())
            &&& owed_moves(g.advance(env)) + 1 == owed_moves(g)
            &&& g.advance_result(env) matches Ok(Some(_))
        }),
{
    let n = trail.len() as int;
    let c = trail.last();
    let next = g.advance(env);
    let shorter = trail.drop_last();
    assert(entered_from_below(g, root, trail, n - 1));
    let d = g.markers[c]->EnteredFrom_0;
    let back = d.inverse();
    let below = trail_below(root, trail, n - 1);
    if n > 1 {
        assert(entered_from_below(g, root, trail, n - 2));
    }
    assert(g.in_grid(below));
    assert(c.step(back) == below);
    lemma_step_target_in_grid(g, c, back);
    lemma_no_choice_means_no_way_on(g, c, env);
    assert(next == g.move_backwards());
    assert(next.current == Some(below));
    lemma_moves_keep_wf(g, d, env);
    assert forall|i: int| 0 <= i < shorter.len() implies entered_from_below(
        next,
        root,
        shorter,
        i,
    ) by {
        assert(entered_from_below(g, root, trail, i));
        assert(shorter[i] == trail[i]);
        assert(trail[i] != trail[n - 1]);
        assert(trail_below(root, shorter, i) == trail_below(root, trail, i));
    }
    assert forall|e: Coord| next.in_grid(e) && #[trigger] next.markers[e] is EnteredFrom implies shorter.contains(
        e,
    ) by {
        assert(e != c);
        assert(g.markers[e] is EnteredFrom);
        let i = choose|i: int| 0 <= i < trail.len() && trail[i] == e;
        assert(shorter[i] == e);
    }
    assert forall|e: Coord| next.in_grid(e) && #[trigger] next.markers[e] == State::Visited implies no_way_on(
        next,
        e,
    ) by {
        if e != c {
            assert(g.markers[e] == State::Visited);
            assert(no_way_on(g, e));
        }
    }
    if n == 1 {
        assert(below == root);
        assert(!way_on(g, c, back));
        if g.markers[root] is EnteredFrom {
            assert(trail.contains(root));
            let i = choose|i: int| 0 <= i < trail.len() && trail[i] == root;
            assert(i == 0);
        }
        assert(next.markers[root] == State::Visited);
    }
    lemma_owed_in_columns_after_insert(g.markers, c, State::Visited, g.width, g.height);
}

spec fn distance(a: Coord, b: Coord) -> nat {
    let dx = if a.x >= b.x {
        a.x - b.x
    } else {
        b.x - a.x
    };
    let dy = if a.y >= b.y {
        a.y - b.y
    } else {
        b.y - a.y
    };
    (dx + dy) as nat
}

proof fn lemma_closed_cells_spread(g: GameView, root: Coord, c: Coord)
    requires
        g.in_grid(root),
        g.markers[root] == State::Visited,
        forall|e: Coord| g.in_grid(e) && #[trigger] g.markers[e] == State::Visited ==> no_way_on(g, e),
        forall|e: Coord| g.in_grid(e) ==> !(#[trigger] g.markers[e] is EnteredFrom),
        g.in_grid(c),
    ensures
        g.markers[c] == State::Visited,
    decreases distance(c, root),
{
    if c != root {
        let d = if c.x > root.x {
            Direction::Right
        } else if c.x < root.x {
            Direction::Left
        } else if c.y > root.y {
            Direction::Down
        } else {
            Direction::Up
        };
        let p = c.step(d.inverse());
        assert(p.step(d) == c);
        assert(g.in_grid(p));
        assert(distance(p, root) < distance(c, root));
        lemma_closed_cells_spread(g, root, p);
        assert(g.markers[p] == State::Visited);
        assert(no_way_on(g, p));
        assert(!way_on(g, p, d));
        assert(g.markers[c] != State::Unvisited);
        assert(!(g.markers[c] is EnteredFrom));
    }
}

proof fn lemma_unfinished_run_goes_on(
    g: GameView,
    root: Coord,
    trail: Seq<Coord>,
    env: FieldEnvironment,
)
    requires
        trail_ok(g, root, trail),
        border_walls_only(g, env),
        owed_moves(g) > 0,
        g.width * g.height >= 2,
    ensures
        trail.len() > 0 || g.next_unvisited(env) is Some,
{
    if trail.len() == 0 && g.next_unvisited(env) is None {
        lemma_no_choice_means_no_way_on(g, root, env);
        if untouched(g) {
            assert(g.width >= 2 || g.height >= 2) by (nonlinear_arith)
                requires
                    g.width * g.height >= 2,
            ;
            let d = if g.width >= 2 {
                if root.x > 0 {
                    Direction::Left
                } else {
                    Direction::Right
                }
            } else {
                if root.y > 0 {
                    Direction::Up
                } else {
                    Direction::Down
                }
            };
            assert(g.in_grid(root.step(d)));
            assert(g.markers[root.step(d)] == State::Unvisited);
            assert(way_on(g, root, d));
            assert(false);
        } else {
            assert forall|e: Coord| g.in_grid(e) implies !(#[trigger] g.markers[e] is EnteredFrom) by {
                if g.markers[e] is EnteredFrom {
                    assert(trail.contains(e));
                }
            }
            assert forall|c: Coord| 0 <= c.x < g.width && 0 <= c.y < g.height implies #[trigger] g.markers[c]
                == State::Visited by {
                lemma_closed_cells_spread(g, root, c);
            }
            lemma_nothing_owed_in_columns(g.markers, g.width, g.height);
            assert(false);
        }
    }
}

/// What holds after every round of a run that began on `root` in an untouched
/// grid: the trail is in order, every round so far has paid off one owed move,
/// and a cell has been entered once exactly when it is no longer unvisited.
proof fn lemma_run_invariant(
    begin: GameView,
    walls: spec_fn(Coord) -> FieldEnvironment,
    root: Coord,
    rounds: nat,
) -> (trail: Seq<Coord>)
    requires
        begin.wf(),
        begin.current == Some(root),
        untouched(begin),
        without_inner_walls(begin, walls),
        begin.width * begin.height >= 2,
        rounds <= 2 * (begin.width * begin.height),
    ensures
        trail_ok(explore(begin, walls, rounds), root, trail),
        explore(begin, walls, rounds).width == begin.width,
        explore(begin, walls, rounds).height == begin.height,
        explore(begin, walls, rounds).goal == begin.goal,
        owed_moves(explore(begin, walls, rounds)) + rounds == 2 * (begin.width * begin.height),
        forall|c: Coord|
            begin.in_grid(c) ==> #[trigger] entries(begin, walls, rounds, c) == if explore(
                begin,
                walls,
                rounds,
            ).markers[c] == State::Unvisited {
                0nat
            } else {
                1nat
            },
        rounds > 0 ==> is_move(explore_answer(explore(begin, walls, (rounds - 1) as nat), walls)),
    decreases rounds,
{
    if rounds == 0 {
        let trail = Seq::<Coord>::empty();
        lemma_owed_in_unvisited_columns(begin.markers, begin.width, begin.height);
        assert(trail_ok(begin, root, trail));
        trail
    } else {
        let before = (rounds - 1) as nat;
        let g = explore(begin, walls, before);
        let trail = lemma_run_invariant(begin, walls, root, before);
        let here = g.current.unwrap();
        let env = walls(here);
        assert(without_inner_walls(g, walls)) by {
            assert forall|c: Coord, d: Direction|
                g.in_grid(c) && g.in_grid(c.step(d)) implies !(#[trigger] walls(c).has_wall(d)) by {
                assert(begin.in_grid(c) && begin.in_grid(c.step(d)));
            }
        }
        lemma_walls_seen_in_open_maze(g, walls, here);
        lemma_unfinished_run_goes_on(g, root, trail, env);
        assert(explore(begin, walls, rounds) == g.advance(env));
        match g.next_unvisited(env) {
            Some(d) => {
                lemma_forward_round(g, root, trail, env, d);
                let t = here.step(d);
                assert forall|c: Coord| begin.in_grid(c) implies #[trigger] entries(
                    begin,
                    walls,
                    rounds,
                    c,
                ) == if explore(begin, walls, rounds).markers[c] == State::Unvisited {
                    0nat
                } else {
                    1nat
                } by {
                    assert(entries(begin, walls, before, c) == if g.markers[c] == State::Unvisited {
                        0nat
                    } else {
                        1nat
                    });
                    assert(enters(g, walls, c) <==> c == t);
                }
                trail.push(t)
            },
            None => {
                lemma_backward_round(g, root, trail, env);
                assert forall|c: Coord| begin.in_grid(c) implies #[trigger] entries(
                    begin,
                    walls,
                    rounds,
                    c,
                ) == if explore(begin, walls, rounds).markers[c] == State::Unvisited {
                    0nat
                } else {
                    1nat
                } by {
                    assert(entries(begin, walls, before, c) == if g.markers[c] == State::Unvisited {
                        0nat
                    } else {
                        1nat
                    });
                    assert(!enters(g, walls, c));
                }
                trail.drop_last()
            },
        }
    }
}

/// A run through a grid of more than one cell in which no wall stands between
/// two cells, from any cell `start` of it.
///
/// Each of the first `2 * width * height` rounds makes a move and answers its
/// direction. After them the run is over: the explorer is back on `start`, no
/// direction is left to explore, every cell is closed, so that there is no step
/// to retrace either, and from then on a round answers no direction and changes
/// nothing. In the course of the run every cell of the grid, `start` among them,
/// was entered exactly once.
pub proof fn lemma_open_grid_is_explored(
    width: nat,
    height: nat,
    goal: Coord,
    start: Coord,
    walls: spec_fn(Coord) -> FieldEnvironment,
)
    requires
        0 <= start.x < width,
        0 <= start.y < height,
        width * height >= 2,
        without_inner_walls(GameView::fresh(width, height, goal), walls),
    ensures
        ({
            let begin = GameView::fresh(width, height, goal).start(start);
            let rounds = (2 * (width * height)) as nat;
            let end = explore(begin, walls, rounds);
            &&& forall|k: nat|
                k < rounds ==> is_move(explore_answer(#[trigger] explore(begin, walls, k), walls))
            &&& explore_answer(end, walls) == Ok::<Option<Direction>, GameError>(None)
            &&& explore_step(end, walls) == end
            &&& end.current == Some(start)
            &&& end.next_unvisited(walls(start)) is None
            &&& forall|c: Coord| end.in_grid(c) ==> #[trigger] end.markers[c] == State::Visited
            &&& forall|c: Coord| end.in_grid(c) ==> #[trigger] entries(begin, walls, rounds, c) == 1
        }),
{
    let begin = GameView::fresh(width, height, goal).start(start);
    let rounds = (2 * (width * height)) as nat;
    let end = explore(begin, walls, rounds);
    lemma_fresh_wf(width, height, goal);
    lemma_placing_keeps_wf(GameView::fresh(width, height, goal), start, State::Unvisited);
    assert(untouched(begin));
    assert(without_inner_walls(begin, walls)) by {
        assert forall|c: Coord, d: Direction|
            begin.in_grid(c) && begin.in_grid(c.step(d)) implies !(#[trigger] walls(c).has_wall(
            d,
        )) by {
            assert(GameView::fresh(width, height, goal).in_grid(c));
            assert(GameView::fresh(width, height, goal).in_grid(c.step(d)));
        }
    }
    assert forall|k: nat| k < rounds implies is_move(
        explore_answer(#[trigger] explore(begin, walls, k), walls),
    ) by {
        let trail = lemma_run_invariant(begin, walls, start, k + 1);
    }
    let trail = lemma_run_invariant(begin, walls, start, rounds);
    lemma_nothing_owed_in_columns(end.markers, width, height);
    assert forall|c: Coord| end.in_grid(c) implies #[trigger] end.markers[c] == State::Visited by {}
    if trail.len() > 0 {
        assert(entered_from_below(end, start, trail, 0));
    }
    assert(end.current == Some(start));
    lemma_step_target_in_grid(end, start, Direction::Left);
    lemma_step_target_in_grid(end, start, Direction::Right);
    lemma_step_target_in_grid(end, start, Direction::Up);
    lemma_step_target_in_grid(end, start, Direction::Down);
}

} // verus!
