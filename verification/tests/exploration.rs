use gpn_mazing_client::{Direction, FieldEnvironment, Game, GameError, Position, State};

/// One move of a run: whether it went forward, the direction it answered, and
/// the cell it ended on.
#[derive(Clone, Copy, Debug, PartialEq, Eq)]
struct Move {
    forward: bool,
    direction: Direction,
    at: Position,
}

fn no_walls(_g: &Game) -> FieldEnvironment {
    FieldEnvironment::new(false, false, false, false)
}

fn border_walls(g: &Game) -> FieldEnvironment {
    let p = *g.current_position().unwrap();
    FieldEnvironment::new(p.x == 0, p.x == g.width() - 1, p.y == 0, p.y == g.height() - 1)
}

fn stage(marker: State) -> usize {
    match marker {
        State::Unvisited => 0,
        State::EnteredFrom(_) => 1,
        State::Visited => 2,
    }
}

fn markers(g: &Game) -> Vec<Vec<State>> {
    let mut all = Vec::new();
    for x in 0..g.width() {
        let mut column = Vec::new();
        for y in 0..g.height() {
            column.push(g.marker_at(&Position::new(x, y)));
        }
        all.push(column);
    }
    all
}

/// Plays rounds of `advance` until one makes no move, and returns the moves.
fn run(g: &mut Game, walls: fn(&Game) -> FieldEnvironment, limit: usize) -> Vec<Move> {
    let mut moves = Vec::new();
    while moves.len() < limit {
        let before = markers(g);
        let here = *g.current_position().unwrap();
        let forward = g.get_next_unvisited_direction(walls(g)).unwrap().is_some();
        let direction = match g.advance(walls(g)).unwrap() {
            Some(direction) => direction,
            None => {
                assert_eq!(markers(g), before);
                assert_eq!(g.current_position(), Ok(&here));
                break;
            }
        };
        // exactly one marker has changed, by one stage
        let after = markers(g);
        let mut changed = 0;
        for x in 0..g.width() {
            for y in 0..g.height() {
                if before[x][y] != after[x][y] {
                    changed += 1;
                    assert_eq!(stage(after[x][y]), stage(before[x][y]) + 1);
                }
            }
        }
        assert_eq!(changed, 1);
        moves.push(Move { forward, direction, at: *g.current_position().unwrap() });
    }
    moves
}

/// The same run, played with the single operations: choose, then move.
fn run_by_hand(g: &mut Game, walls: fn(&Game) -> FieldEnvironment, limit: usize) -> Vec<Move> {
    let mut moves = Vec::new();
    while moves.len() < limit {
        let here = *g.current_position().unwrap();
        let (forward, direction) = match g.get_next_unvisited_direction(walls(g)).unwrap() {
            Some(d) => (true, g.move_to(&d).unwrap()),
            None => {
                if Direction::inverted_direction_from_state(&g.marker_at(&here)).is_none() {
                    break;
                }
                (false, g.move_backwards().unwrap())
            }
        };
        moves.push(Move { forward, direction, at: *g.current_position().unwrap() });
    }
    moves
}

fn check_full_exploration(width: usize, height: usize, walls: fn(&Game) -> FieldEnvironment) {
    for sx in 0..width {
        for sy in 0..height {
            let start = Position::new(sx, sy);
            let mut g = Game::new(width, height, Position::new(0, 0)).unwrap();
            g.start(&start).unwrap();
            let moves = run(&mut g, walls, 2 * width * height + 5);

            assert_eq!(moves.len(), 2 * width * height);
            assert_eq!(g.current_position(), Ok(&start));
            assert_eq!(g.get_next_unvisited_direction(walls(&g)), Ok(None));
            assert_eq!(markers(&g), vec![vec![State::Visited; height]; width]);

            let mut entered = vec![vec![0usize; height]; width];
            for m in moves.iter().filter(|m| m.forward) {
                entered[m.at.x][m.at.y] += 1;
            }
            assert_eq!(entered, vec![vec![1usize; height]; width]);
            assert_eq!(moves.iter().filter(|m| !m.forward).count(), width * height);
        }
    }
}

#[test]
fn open_grids_are_explored_in_two_moves_per_cell() {
    for (width, height) in [(1, 2), (2, 1), (2, 2), (3, 3), (4, 5), (5, 3), (1, 7), (6, 1)] {
        check_full_exploration(width, height, no_walls);
    }
}

#[test]
fn walls_on_the_border_do_not_change_the_exploration() {
    for (width, height) in [(1, 2), (2, 2), (3, 3), (4, 3)] {
        check_full_exploration(width, height, border_walls);
        for sx in 0..width {
            for sy in 0..height {
                let mut a = Game::new(width, height, Position::new(0, 0)).unwrap();
                let mut b = Game::new(width, height, Position::new(0, 0)).unwrap();
                a.start(&Position::new(sx, sy)).unwrap();
                b.start(&Position::new(sx, sy)).unwrap();
                assert_eq!(run(&mut a, no_walls, 100), run(&mut b, border_walls, 100));
            }
        }
    }
}

#[test]
fn advance_is_choosing_and_then_moving() {
    for (width, height) in [(1, 1), (1, 2), (2, 2), (3, 3), (4, 3), (2, 5)] {
        for sx in 0..width {
            for sy in 0..height {
                let mut a = Game::new(width, height, Position::new(0, 0)).unwrap();
                let mut b = Game::new(width, height, Position::new(0, 0)).unwrap();
                a.start(&Position::new(sx, sy)).unwrap();
                b.start(&Position::new(sx, sy)).unwrap();
                assert_eq!(run(&mut a, no_walls, 100), run_by_hand(&mut b, no_walls, 100));
                assert_eq!(markers(&a), markers(&b));
                assert_eq!(a.current_position(), b.current_position());
            }
        }
    }
}

#[test]
fn a_finished_run_stays_finished() {
    let mut g = Game::new(2, 2, Position::new(1, 1)).unwrap();
    g.start(&Position::new(1, 0)).unwrap();
    assert_eq!(run(&mut g, no_walls, 100).len(), 8);
    for _ in 0..3 {
        assert_eq!(g.advance(no_walls(&g)), Ok(None));
        assert_eq!(g.current_position(), Ok(&Position::new(1, 0)));
        assert_eq!(markers(&g), vec![vec![State::Visited; 2]; 2]);
    }
}

#[test]
fn a_single_cell_has_nothing_to_explore() {
    let mut g = Game::new(1, 1, Position::new(0, 0)).unwrap();
    g.start(&Position::new(0, 0)).unwrap();
    assert_eq!(g.get_next_unvisited_direction(no_walls(&g)), Ok(None));
    assert_eq!(g.advance(no_walls(&g)), Ok(None));
    assert_eq!(g.marker_at(&Position::new(0, 0)), State::Unvisited);
    assert_eq!(run(&mut g, no_walls, 10), vec![]);
}

#[test]
fn two_cells_take_four_moves() {
    let mut g = Game::new(1, 2, Position::new(0, 1)).unwrap();
    g.start(&Position::new(0, 0)).unwrap();
    let moves = run(&mut g, no_walls, 10);
    let directions: Vec<Direction> = moves.iter().map(|m| m.direction).collect();
    assert_eq!(
        directions,
        vec![Direction::Down, Direction::Up, Direction::Down, Direction::Up]
    );
    let forward: Vec<bool> = moves.iter().map(|m| m.forward).collect();
    assert_eq!(forward, vec![true, true, false, false]);
}

#[test]
fn three_by_three_from_the_corner() {
    let mut g = Game::new(3, 3, Position::new(2, 2)).unwrap();
    g.start(&Position::new(0, 0)).unwrap();

    // left of the corner the grid ends, so the first move goes right
    assert_eq!(g.get_next_unvisited_direction(border_walls(&g)), Ok(Some(Direction::Right)));
    assert_eq!(g.move_to(&Direction::Right), Ok(Direction::Right));
    assert_eq!(g.current_position(), Ok(&Position::new(1, 0)));

    let mut g = Game::new(3, 3, Position::new(2, 2)).unwrap();
    g.start(&Position::new(0, 0)).unwrap();
    let moves = run(&mut g, border_walls, 100);

    let (down, left, right, up) =
        (Direction::Down, Direction::Left, Direction::Right, Direction::Up);
    let expected = [
        (true, right, (1, 0)),
        (true, left, (0, 0)),
        (true, down, (0, 1)),
        (true, right, (1, 1)),
        (true, right, (2, 1)),
        (true, up, (2, 0)),
        (false, down, (2, 1)),
        (true, down, (2, 2)),
        (true, left, (1, 2)),
        (true, left, (0, 2)),
        (false, right, (1, 2)),
        (false, right, (2, 2)),
        (false, up, (2, 1)),
        (false, left, (1, 1)),
        (false, left, (0, 1)),
        (false, up, (0, 0)),
        (false, right, (1, 0)),
        (false, left, (0, 0)),
    ];
    let expected: Vec<Move> = expected
        .iter()
        .map(|&(forward, direction, (x, y))| Move { forward, direction, at: Position::new(x, y) })
        .collect();
    assert_eq!(moves, expected);
    assert_eq!(markers(&g), vec![vec![State::Visited; 3]; 3]);
    assert_eq!(g.current_position(), Ok(&Position::new(0, 0)));
}

#[test]
fn three_by_three_from_the_middle() {
    let mut g = Game::new(3, 3, Position::new(2, 2)).unwrap();
    g.start(&Position::new(1, 1)).unwrap();
    let moves = run(&mut g, no_walls, 100);
    let (down, left, right, up) =
        (Direction::Down, Direction::Left, Direction::Right, Direction::Up);
    let directions: Vec<Direction> = moves.iter().map(|m| m.direction).collect();
    assert_eq!(
        directions,
        vec![
            left, right, right, up, left, left, right, right, down, down, left, left, right,
            right, up, left, left, right
        ]
    );
    assert_eq!(moves.last().map(|m| m.at), Some(Position::new(1, 1)));
}

#[test]
fn inner_walls_leave_cells_unvisited() {
    // a wall between the two columns of a 2 x 1 grid: the second cell is never reached
    let mut g = Game::new(2, 1, Position::new(1, 0)).unwrap();
    g.start(&Position::new(0, 0)).unwrap();
    let walled = FieldEnvironment::new(false, true, false, false);
    assert_eq!(g.get_next_unvisited_direction(walled), Ok(None));
    assert_eq!(g.advance(walled), Ok(None));
    assert_eq!(g.marker_at(&Position::new(1, 0)), State::Unvisited);
    assert_eq!(g.current_position(), Ok(&Position::new(0, 0)));
}

#[test]
fn exploration_reports_errors_only_before_start() {
    let mut g = Game::new(2, 2, Position::new(1, 1)).unwrap();
    assert_eq!(g.get_next_unvisited_direction(no_walls(&g)), Err(GameError::NotStarted));
    assert_eq!(g.move_to(&Direction::Right), Err(GameError::NotStarted));
    assert_eq!(g.move_backwards(), Err(GameError::NotStarted));
    assert_eq!(g.advance(no_walls(&g)), Err(GameError::NotStarted));
    g.start(&Position::new(0, 0)).unwrap();
    assert_eq!(run(&mut g, no_walls, 100).len(), 8);
}
