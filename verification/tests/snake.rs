use snake_game::events::Events;
use snake_game::grid::{Direction, Position, ARENA_HEIGHT, ARENA_WIDTH};
use snake_game::snake::{
    game_over, occupies, player_growth, player_movement, reset_due, spawn_player, steer,
    ArrowKeys, GameOverEvent, PlayerHead, Snake,
};

fn keys(left: bool, down: bool, up: bool, right: bool) -> ArrowKeys {
    ArrowKeys { left, down, up, right }
}

fn snake(head: (i32, i32), direction: Direction, segments: &[(i32, i32)]) -> Snake {
    Snake {
        head: Position { x: head.0, y: head.1 },
        heading: PlayerHead { direction },
        segments: segments.iter().map(|&(x, y)| Position { x, y }).collect(),
    }
}

#[test]
fn opposite_turns_round() {
    assert_eq!(Direction::Left.opposite(), Direction::Right);
    assert_eq!(Direction::Right.opposite(), Direction::Left);
    assert_eq!(Direction::Up.opposite(), Direction::Down);
    assert_eq!(Direction::Down.opposite(), Direction::Up);
}

#[test]
fn step_moves_one_cell() {
    let p = Position { x: 3, y: 3 };
    assert_eq!(p.step(Direction::Left), Position { x: 2, y: 3 });
    assert_eq!(p.step(Direction::Right), Position { x: 4, y: 3 });
    assert_eq!(p.step(Direction::Up), Position { x: 3, y: 4 });
    assert_eq!(p.step(Direction::Down), Position { x: 3, y: 2 });
}

#[test]
fn step_back_returns() {
    let p = Position { x: -7, y: 12 };
    for d in [Direction::Left, Direction::Right, Direction::Up, Direction::Down] {
        assert_eq!(p.step(d).step(d.opposite()), p);
    }
}

#[test]
fn steppable_at_the_limits() {
    let low = Position { x: i32::MIN, y: i32::MIN };
    assert!(!low.steppable(Direction::Left));
    assert!(!low.steppable(Direction::Down));
    assert!(low.steppable(Direction::Right));
    assert!(low.steppable(Direction::Up));
    let high = Position { x: i32::MAX, y: i32::MAX };
    assert!(!high.steppable(Direction::Right));
    assert!(!high.steppable(Direction::Up));
    assert!(high.steppable(Direction::Left));
    assert!(high.steppable(Direction::Down));
}

#[test]
fn arena_bounds() {
    assert_eq!(ARENA_WIDTH, 100);
    assert_eq!(ARENA_HEIGHT, 100);
    assert!(Position { x: 0, y: 0 }.in_arena());
    assert!(Position { x: 99, y: 99 }.in_arena());
    assert!(!Position { x: -1, y: 5 }.in_arena());
    assert!(!Position { x: 5, y: -1 }.in_arena());
    assert!(!Position { x: 100, y: 5 }.in_arena());
    assert!(!Position { x: 5, y: 100 }.in_arena());
}

#[test]
fn default_position_is_origin() {
    assert_eq!(Position::default(), Position { x: 0, y: 0 });
}

#[test]
fn spawn_places_head_and_one_segment() {
    let s = spawn_player();
    assert_eq!(s.head, Position { x: 3, y: 3 });
    assert_eq!(s.heading.direction, Direction::Up);
    assert_eq!(s.segments, vec![Position { x: 3, y: 2 }]);
}

#[test]
fn input_takes_first_held_key() {
    let mut head = PlayerHead { direction: Direction::Up };
    steer(&mut head, keys(true, false, false, true));
    assert_eq!(head.direction, Direction::Left);
    let mut head = PlayerHead { direction: Direction::Up };
    steer(&mut head, keys(false, false, true, true));
    assert_eq!(head.direction, Direction::Up);
    let mut head = PlayerHead { direction: Direction::Up };
    steer(&mut head, keys(false, false, false, true));
    assert_eq!(head.direction, Direction::Right);
}

#[test]
fn input_refuses_reversal() {
    let mut head = PlayerHead { direction: Direction::Up };
    steer(&mut head, keys(false, true, false, false));
    assert_eq!(head.direction, Direction::Up);
    let mut head = PlayerHead { direction: Direction::Right };
    steer(&mut head, keys(true, false, false, false));
    assert_eq!(head.direction, Direction::Right);
    // down has priority over right, and is refused as a whole
    let mut head = PlayerHead { direction: Direction::Up };
    steer(&mut head, keys(false, true, false, true));
    assert_eq!(head.direction, Direction::Up);
}

#[test]
fn input_without_keys_keeps_heading() {
    for d in [Direction::Left, Direction::Right, Direction::Up, Direction::Down] {
        let mut head = PlayerHead { direction: d };
        steer(&mut head, keys(false, false, false, false));
        assert_eq!(head.direction, d);
    }
}

#[test]
fn movement_head_up_segment_follows() {
    let mut s = snake((3, 3), Direction::Up, &[(3, 2)]);
    let mut events: Events<GameOverEvent> = Events::new();
    player_movement(&mut s, &mut events);
    assert_eq!(s.head, Position { x: 3, y: 4 });
    assert_eq!(s.segments, vec![Position { x: 3, y: 3 }]);
    assert_eq!(events.len(), 0);
}

#[test]
fn movement_chain_of_two_is_one_step_behind() {
    let mut s = snake((5, 5), Direction::Right, &[(4, 5), (3, 5)]);
    let mut events: Events<GameOverEvent> = Events::new();
    player_movement(&mut s, &mut events);
    assert_eq!(s.head, Position { x: 6, y: 5 });
    assert_eq!(s.segments, vec![Position { x: 5, y: 5 }, Position { x: 4, y: 5 }]);
    s.heading.direction = Direction::Down;
    player_movement(&mut s, &mut events);
    assert_eq!(s.head, Position { x: 6, y: 4 });
    assert_eq!(s.segments, vec![Position { x: 6, y: 5 }, Position { x: 5, y: 5 }]);
    assert!(events.is_empty());
}

#[test]
fn movement_without_segments() {
    let mut s = snake((1, 1), Direction::Left, &[]);
    let mut events: Events<GameOverEvent> = Events::new();
    player_movement(&mut s, &mut events);
    assert_eq!(s.head, Position { x: 0, y: 1 });
    assert!(s.segments.is_empty());
    assert!(events.is_empty());
}

#[test]
fn collision_with_body_raises_one_event() {
    // the head turns into the cell that the third segment holds before the move
    let mut s = snake((5, 5), Direction::Left, &[(5, 6), (4, 6), (4, 5), (4, 4)]);
    let mut events: Events<GameOverEvent> = Events::new();
    player_movement(&mut s, &mut events);
    assert_eq!(events.len(), 1);
    assert_eq!(s.head, Position { x: 4, y: 5 });
    assert_eq!(
        s.segments,
        vec![
            Position { x: 5, y: 5 },
            Position { x: 5, y: 6 },
            Position { x: 4, y: 6 },
            Position { x: 4, y: 5 }
        ]
    );
}

#[test]
fn leaving_left_edge_raises_one_event() {
    let mut s = snake((0, 7), Direction::Left, &[(1, 7)]);
    let mut events: Events<GameOverEvent> = Events::new();
    player_movement(&mut s, &mut events);
    assert_eq!(s.head, Position { x: -1, y: 7 });
    assert_eq!(events.len(), 1);
}

#[test]
fn leaving_top_edge_raises_one_event() {
    let mut s = snake((7, 99), Direction::Up, &[(7, 98)]);
    let mut events: Events<GameOverEvent> = Events::new();
    player_movement(&mut s, &mut events);
    assert_eq!(s.head, Position { x: 7, y: 100 });
    assert_eq!(events.len(), 1);
}

#[test]
fn leaving_right_and_bottom_edges() {
    let mut events: Events<GameOverEvent> = Events::new();
    let mut s = snake((99, 0), Direction::Right, &[]);
    player_movement(&mut s, &mut events);
    assert_eq!(s.head, Position { x: 100, y: 0 });
    let mut s = snake((0, 0), Direction::Down, &[]);
    player_movement(&mut s, &mut events);
    assert_eq!(s.head, Position { x: 0, y: -1 });
    assert_eq!(events.len(), 2);
}

#[test]
fn body_outside_the_arena_raises_one_event() {
    let mut s = snake((-2, 0), Direction::Right, &[(-3, 0), (-3, 1), (-2, 1), (-1, 1), (-1, 0)]);
    let mut events: Events<GameOverEvent> = Events::new();
    player_movement(&mut s, &mut events);
    assert_eq!(s.head, Position { x: -1, y: 0 });
    assert_eq!(events.len(), 1);
}

#[test]
fn segment_outside_the_left_edge_raises_one_event() {
    let mut s = snake((0, 5), Direction::Left, &[(-1, 5)]);
    let mut events: Events<GameOverEvent> = Events::new();
    player_movement(&mut s, &mut events);
    assert_eq!(s.head, Position { x: -1, y: 5 });
    assert_eq!(s.segments, vec![Position { x: 0, y: 5 }]);
    assert_eq!(events.len(), 1);
}

#[test]
fn shared_cell_raises_one_event() {
    let mut s = snake((5, 5), Direction::Up, &[(5, 6), (5, 6), (5, 6)]);
    let mut events: Events<GameOverEvent> = Events::new();
    player_movement(&mut s, &mut events);
    assert_eq!(events.len(), 1);
}

#[test]
fn single_segment_trails_from_anywhere() {
    let mut s = snake((10, 10), Direction::Right, &[(70, 3)]);
    let mut events: Events<GameOverEvent> = Events::new();
    let mut heads = vec![s.head];
    for d in [Direction::Right, Direction::Up, Direction::Up, Direction::Left, Direction::Down] {
        s.heading.direction = d;
        player_movement(&mut s, &mut events);
        assert_eq!(s.segments, vec![*heads.last().expect("never empty")]);
        heads.push(s.head);
    }
    assert_eq!(s.head, Position { x: 10, y: 11 });
}

#[test]
fn events_are_appended_behind_pending_ones() {
    let mut events: Events<GameOverEvent> = Events::new();
    events.send(GameOverEvent);
    let mut s = snake((0, 0), Direction::Left, &[]);
    player_movement(&mut s, &mut events);
    assert_eq!(events.len(), 2);
}

#[test]
fn growth_appends_segment_at_head() {
    let mut s = snake((3, 4), Direction::Up, &[(3, 3)]);
    player_growth(&mut s);
    assert_eq!(s.head, Position { x: 3, y: 4 });
    assert_eq!(s.segments, vec![Position { x: 3, y: 3 }, Position { x: 3, y: 4 }]);
    assert_eq!(s.heading.direction, Direction::Up);
}

#[test]
fn growth_then_move_raises_nothing() {
    let mut s = spawn_player();
    let mut events: Events<GameOverEvent> = Events::new();
    player_movement(&mut s, &mut events);
    player_growth(&mut s);
    player_movement(&mut s, &mut events);
    assert_eq!(s.head, Position { x: 3, y: 5 });
    assert_eq!(s.segments, vec![Position { x: 3, y: 4 }, Position { x: 3, y: 3 }]);
    assert!(events.is_empty());
}

#[test]
fn game_over_resets_to_two_cells() {
    let mut s = snake((50, 50), Direction::Left, &[(51, 50), (52, 50), (53, 50), (54, 50)]);
    let mut events: Events<GameOverEvent> = Events::new();
    events.send(GameOverEvent);
    game_over(&mut s, &mut events);
    assert_eq!(1 + s.segments.len(), 2);
    assert_eq!(s.head, Position { x: 3, y: 3 });
    assert_eq!(s.heading.direction, Direction::Up);
    assert_eq!(s.segments, vec![Position { x: 3, y: 2 }]);
    assert!(events.is_empty());
}

#[test]
fn game_over_resets_whatever_the_length() {
    for len in [0usize, 1, 2, 17] {
        let segments: Vec<(i32, i32)> = (0..len).map(|i| (10 + i as i32, 10)).collect();
        let mut s = snake((9, 10), Direction::Left, &segments);
        let mut events: Events<GameOverEvent> = Events::new();
        events.send(GameOverEvent);
        events.send(GameOverEvent);
        game_over(&mut s, &mut events);
        assert_eq!(s.segments.len(), 1);
        assert_eq!(s.head, Position { x: 3, y: 3 });
        assert!(events.is_empty());
    }
}

#[test]
fn game_over_without_event_changes_nothing() {
    let mut s = snake((50, 50), Direction::Left, &[(51, 50), (52, 50)]);
    let mut events: Events<GameOverEvent> = Events::new();
    game_over(&mut s, &mut events);
    assert_eq!(s.head, Position { x: 50, y: 50 });
    assert_eq!(s.heading.direction, Direction::Left);
    assert_eq!(s.segments, vec![Position { x: 51, y: 50 }, Position { x: 52, y: 50 }]);
}

#[test]
fn occupies_finds_cells() {
    let cells = vec![Position { x: 1, y: 2 }, Position { x: 3, y: 4 }];
    assert!(occupies(&cells, Position { x: 3, y: 4 }));
    assert!(!occupies(&cells, Position { x: 4, y: 3 }));
    assert!(!occupies(&Vec::new(), Position { x: 0, y: 0 }));
}

#[test]
fn events_queue_is_first_in_first_out() {
    let mut q: Events<u32> = Events::new();
    assert!(q.is_empty());
    q.send(1);
    q.send(2);
    q.send(3);
    assert_eq!(q.len(), 3);
    assert_eq!(q.drain(), vec![1, 2, 3]);
    assert!(q.is_empty());
    assert_eq!(q.drain(), Vec::<u32>::new());
    q.send(9);
    q.clear();
    assert_eq!(q.len(), 0);
}
