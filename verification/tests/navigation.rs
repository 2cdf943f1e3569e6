use maze_core::Direction;
use maze_core::Maze;
use maze_core::Position;

fn opposite(dir: Direction) -> Direction {
    match dir {
        Direction::North => Direction::South,
        Direction::South => Direction::North,
        Direction::East => Direction::West,
        Direction::West => Direction::East,
    }
}

/// Walks the player through the whole maze, depth first, and checks each
/// attempt against the connections. Returns the number of cells entered.
fn explore(maze: &mut Maze, seen: &mut Vec<bool>) -> usize {
    let here = maze.player();
    let mut count = 1;
    seen[here.y * maze.width() + here.x] = true;
    for dir in Direction::all() {
        let target = maze.move_pos(here, dir);
        let open = match target {
            Some(next) => maze.is_connected(here, next),
            None => false,
        };
        let already = match target {
            Some(next) => seen[next.y * maze.width() + next.x],
            None => false,
        };
        if open && already {
            continue;
        }
        let moved = maze.try_move(dir);
        assert_eq!(moved, open);
        if moved {
            assert_eq!(Some(maze.player()), target);
            count += explore(maze, seen);
            assert!(maze.try_move(opposite(dir)));
            assert_eq!(maze.player(), here);
        } else {
            assert_eq!(maze.player(), here);
        }
    }
    count
}

#[test]
fn step_north_goes_one_row_up() {
    let maze = Maze::new(5, 4);
    assert_eq!(
        maze.move_pos(Position { x: 2, y: 3 }, Direction::North),
        Some(Position { x: 2, y: 2 })
    );
    assert_eq!(
        maze.move_pos(Position { x: 4, y: 1 }, Direction::North),
        Some(Position { x: 4, y: 0 })
    );
    assert_eq!(maze.move_pos(Position { x: 2, y: 0 }, Direction::North), None);
}

#[test]
fn step_south_goes_one_row_down() {
    let maze = Maze::new(5, 4);
    assert_eq!(
        maze.move_pos(Position { x: 0, y: 0 }, Direction::South),
        Some(Position { x: 0, y: 1 })
    );
    assert_eq!(
        maze.move_pos(Position { x: 3, y: 2 }, Direction::South),
        Some(Position { x: 3, y: 3 })
    );
    assert_eq!(maze.move_pos(Position { x: 3, y: 3 }, Direction::South), None);
}

#[test]
fn step_east_goes_one_column_right() {
    let maze = Maze::new(5, 4);
    assert_eq!(
        maze.move_pos(Position { x: 0, y: 0 }, Direction::East),
        Some(Position { x: 1, y: 0 })
    );
    assert_eq!(
        maze.move_pos(Position { x: 3, y: 2 }, Direction::East),
        Some(Position { x: 4, y: 2 })
    );
    assert_eq!(maze.move_pos(Position { x: 4, y: 2 }, Direction::East), None);
}

#[test]
fn step_west_goes_one_column_left() {
    let maze = Maze::new(5, 4);
    assert_eq!(
        maze.move_pos(Position { x: 4, y: 3 }, Direction::West),
        Some(Position { x: 3, y: 3 })
    );
    assert_eq!(
        maze.move_pos(Position { x: 1, y: 0 }, Direction::West),
        Some(Position { x: 0, y: 0 })
    );
    assert_eq!(maze.move_pos(Position { x: 0, y: 2 }, Direction::West), None);
}

#[test]
fn no_step_leaves_a_single_cell() {
    let maze = Maze::new(1, 1);
    for dir in Direction::all() {
        assert_eq!(maze.move_pos(Position { x: 0, y: 0 }, dir), None);
    }
}

#[test]
fn steps_do_not_overflow_at_the_largest_coordinates() {
    let maze = Maze::new(3, 3);
    let far = Position { x: usize::MAX, y: usize::MAX };
    assert_eq!(maze.move_pos(far, Direction::South), None);
    assert_eq!(maze.move_pos(far, Direction::East), None);
    assert_eq!(
        maze.move_pos(far, Direction::North),
        Some(Position { x: usize::MAX, y: usize::MAX - 1 })
    );
    assert_eq!(
        maze.move_pos(far, Direction::West),
        Some(Position { x: usize::MAX - 1, y: usize::MAX })
    );
}

#[test]
fn moves_follow_the_connections() {
    for (width, height) in [(1, 1), (2, 1), (1, 2), (3, 3), (8, 5), (20, 20)] {
        let mut maze = Maze::new(width, height);
        let mut seen = vec![false; width * height];
        let entered = explore(&mut maze, &mut seen);
        assert_eq!(entered, width * height);
        assert_eq!(maze.player(), maze.start());
    }
}

#[test]
fn north_from_the_top_row_always_fails() {
    let mut maze = Maze::new(12, 1);
    for x in 0..12 {
        assert_eq!(maze.player(), Position { x, y: 0 });
        assert!(!maze.try_move(Direction::North));
        assert_eq!(maze.player(), Position { x, y: 0 });
        if x < 11 {
            assert!(maze.try_move(Direction::East));
        }
    }
    for _ in 0..20 {
        let mut maze = Maze::new(6, 6);
        let mut at_top = true;
        let mut steps = 0;
        while at_top && steps < 6 {
            assert!(!maze.try_move(Direction::North));
            at_top = maze.try_move(Direction::East);
            steps += 1;
        }
    }
}

#[test]
fn moves_off_the_grid_fail() {
    let mut maze = Maze::new(1, 1);
    for dir in Direction::all() {
        assert!(!maze.try_move(dir));
        assert_eq!(maze.player(), Position { x: 0, y: 0 });
    }
    let mut row = Maze::new(4, 1);
    assert!(!row.try_move(Direction::West));
    assert!(!row.try_move(Direction::South));
    assert!(!row.try_move(Direction::North));
    assert!(row.try_move(Direction::East));
    assert!(row.try_move(Direction::East));
    assert!(row.try_move(Direction::East));
    assert!(!row.try_move(Direction::East));
    assert_eq!(row.player(), Position { x: 3, y: 0 });
    assert!(row.is_at_end());
    let mut column = Maze::new(1, 3);
    assert!(!column.try_move(Direction::East));
    assert!(!column.try_move(Direction::West));
    assert!(column.try_move(Direction::South));
    assert!(column.try_move(Direction::South));
    assert!(!column.try_move(Direction::South));
    assert_eq!(column.player(), Position { x: 0, y: 2 });
    assert!(column.is_at_end());
}

#[test]
fn blocked_move_leaves_the_player_in_place() {
    for _ in 0..50 {
        let mut maze = Maze::new(2, 2);
        let origin = Position { x: 0, y: 0 };
        let east = Position { x: 1, y: 0 };
        let open = maze.is_connected(origin, east);
        assert_eq!(maze.try_move(Direction::East), open);
        assert_eq!(maze.player(), if open { east } else { origin });
    }
}

#[test]
fn moving_back_and_forth_returns_to_the_start() {
    let mut maze = Maze::new(2, 1);
    assert!(maze.try_move(Direction::East));
    assert!(maze.is_at_end());
    assert!(maze.try_move(Direction::West));
    assert!(!maze.is_at_end());
    assert_eq!(maze.player(), maze.start());
}

#[test]
fn queries_leave_the_maze_as_it_is() {
    let mut maze = Maze::new(5, 5);
    maze.try_move(Direction::East);
    maze.try_move(Direction::South);
    let player = maze.player();
    let picture = maze.render();
    for _ in 0..3 {
        assert_eq!(maze.is_at_end(), player == maze.end());
        assert_eq!(maze.player(), player);
        assert_eq!(maze.end(), Position { x: 4, y: 4 });
        assert_eq!(maze.start(), Position { x: 0, y: 0 });
        assert_eq!(maze.width(), 5);
        assert_eq!(maze.height(), 5);
        assert_eq!(maze.move_pos(player, Direction::North), maze.move_pos(player, Direction::North));
        assert_eq!(maze.render(), picture);
    }
}
