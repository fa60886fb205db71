use gpn_mazing_client::{Direction, FieldEnvironment, GameError, Position, State};

#[test]
fn directions_are_named_in_lower_case() {
    assert_eq!(Direction::Up.as_str(), "up");
    assert_eq!(Direction::Down.as_str(), "down");
    assert_eq!(Direction::Left.as_str(), "left");
    assert_eq!(Direction::Right.as_str(), "right");
}

#[test]
fn a_move_command_carries_the_direction_name() {
    assert_eq!(format!("move|{}\n", Direction::Left.as_str()), "move|left\n");
}

#[test]
fn marker_records_the_direction_of_entry() {
    assert_eq!(State::from_direction(&Direction::Up), State::EnteredFrom(Direction::Up));
    assert_eq!(State::from_direction(&Direction::Down), State::EnteredFrom(Direction::Down));
    assert_eq!(State::from_direction(&Direction::Left), State::EnteredFrom(Direction::Left));
    assert_eq!(State::from_direction(&Direction::Right), State::EnteredFrom(Direction::Right));
}

#[test]
fn retreat_direction_is_the_inverse_of_the_entry() {
    assert_eq!(
        Direction::inverted_direction_from_state(&State::EnteredFrom(Direction::Up)),
        Some(Direction::Down)
    );
    assert_eq!(
        Direction::inverted_direction_from_state(&State::EnteredFrom(Direction::Down)),
        Some(Direction::Up)
    );
    assert_eq!(
        Direction::inverted_direction_from_state(&State::EnteredFrom(Direction::Left)),
        Some(Direction::Right)
    );
    assert_eq!(
        Direction::inverted_direction_from_state(&State::EnteredFrom(Direction::Right)),
        Some(Direction::Left)
    );
}

#[test]
fn no_retreat_direction_without_an_entry() {
    assert_eq!(Direction::inverted_direction_from_state(&State::Unvisited), None);
    assert_eq!(Direction::inverted_direction_from_state(&State::Visited), None);
}

#[test]
fn inverting_twice_gives_the_direction_back() {
    for d in [Direction::Up, Direction::Down, Direction::Left, Direction::Right] {
        let back = Direction::inverted_direction_from_state(&State::from_direction(&d)).unwrap();
        assert_ne!(back, d);
        let again =
            Direction::inverted_direction_from_state(&State::from_direction(&back)).unwrap();
        assert_eq!(again, d);
    }
}

#[test]
fn positions_compare_by_both_coordinates() {
    let p = Position::new(3, 4);
    assert_eq!(p.x, 3);
    assert_eq!(p.y, 4);
    assert_eq!(p, Position::new(3, 4));
    assert_ne!(p, Position::new(4, 3));
    assert_ne!(p, Position::new(3, 5));
    assert_ne!(p, Position::new(2, 4));
}

#[test]
fn environment_takes_walls_in_the_order_left_right_upper_lower() {
    let env = FieldEnvironment::new(true, false, false, false);
    assert!(env.has_left_wall && !env.has_right_wall && !env.has_upper_wall && !env.has_lower_wall);
    let env = FieldEnvironment::new(false, true, false, false);
    assert!(!env.has_left_wall && env.has_right_wall && !env.has_upper_wall && !env.has_lower_wall);
    let env = FieldEnvironment::new(false, false, true, false);
    assert!(!env.has_left_wall && !env.has_right_wall && env.has_upper_wall && !env.has_lower_wall);
    let env = FieldEnvironment::new(false, false, false, true);
    assert!(!env.has_left_wall && !env.has_right_wall && !env.has_upper_wall && env.has_lower_wall);
}

#[test]
fn errors_have_a_message() {
    assert_eq!(GameError::NotStarted.message(), "Game not started");
    assert_eq!(GameError::AlreadyStarted.message(), "Game already started");
    assert_eq!(GameError::EdgeReached(Direction::Left).message(), "Left edge reached");
    assert_eq!(GameError::EdgeReached(Direction::Right).message(), "Right edge reached");
    assert_eq!(GameError::EdgeReached(Direction::Up).message(), "Upper edge reached");
    assert_eq!(GameError::EdgeReached(Direction::Down).message(), "Lower edge reached");
    assert_eq!(GameError::InvalidDimension.message(), "Grid without cells");
}

#[test]
fn errors_are_told_apart() {
    assert_ne!(GameError::NotStarted, GameError::AlreadyStarted);
    assert_ne!(GameError::EdgeReached(Direction::Left), GameError::EdgeReached(Direction::Right));
    assert_ne!(GameError::EdgeReached(Direction::Up), GameError::NotStarted);
    assert_ne!(GameError::InvalidDimension, GameError::AlreadyStarted);
}
