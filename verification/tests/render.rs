use maze_core::Direction;
use maze_core::Maze;
use maze_core::Position;

const LEGEND: &str = "\nMaze Legend: P=Player, E=Exit, . = Path, # = Wall\n\n";

/// The picture, drawn cell by cell from the maze's queries.
fn drawn(maze: &Maze) -> String {
    let mut out = String::from(LEGEND);
    for y in 0..maze.height() {
        for x in 0..maze.width() {
            let pos = Position { x, y };
            if pos == maze.player() {
                out.push('P');
            } else if pos == maze.end() {
                out.push('E');
            } else {
                out.push('.');
            }
            if x < maze.width() - 1 {
                let east = Position { x: x + 1, y };
                out.push(if maze.is_connected(pos, east) { ' ' } else { '|' });
            }
        }
        out.push('\n');
        if y < maze.height() - 1 {
            for x in 0..maze.width() {
                let pos = Position { x, y };
                let south = Position { x, y: y + 1 };
                out.push_str(if maze.is_connected(pos, south) { "  " } else { "--" });
            }
            out.push('\n');
        }
    }
    out
}

#[test]
fn single_cell_is_drawn_as_the_player() {
    let maze = Maze::new(1, 1);
    assert_eq!(maze.render(), format!("{}P\n", LEGEND));
}

#[test]
fn two_cells_in_a_row_are_drawn_with_a_gap() {
    let mut maze = Maze::new(2, 1);
    assert_eq!(maze.render(), format!("{}P E\n", LEGEND));
    assert!(maze.try_move(Direction::East));
    assert_eq!(maze.render(), format!("{}. P\n", LEGEND));
}

#[test]
fn two_cells_in_a_column_are_drawn_with_an_open_floor() {
    let mut maze = Maze::new(1, 2);
    assert_eq!(maze.render(), format!("{}P\n  \nE\n", LEGEND));
    assert!(maze.try_move(Direction::South));
    assert_eq!(maze.render(), format!("{}.\n  \nP\n", LEGEND));
}

#[test]
fn corridor_is_drawn_in_one_line() {
    let maze = Maze::new(5, 1);
    assert_eq!(maze.render(), format!("{}P . . . E\n", LEGEND));
}

#[test]
fn two_by_two_maze_is_drawn_with_its_one_wall() {
    let mut wall_right = false;
    let mut wall_below = false;
    for _ in 0..200 {
        let maze = Maze::new(2, 2);
        let right = Position { x: 1, y: 0 };
        let far = Position { x: 1, y: 1 };
        if maze.is_connected(right, far) {
            assert_eq!(maze.render(), format!("{}P .\n    \n.|E\n", LEGEND));
            wall_below = true;
        } else {
            assert_eq!(maze.render(), format!("{}P .\n  --\n. E\n", LEGEND));
            wall_right = true;
        }
    }
    assert!(wall_right);
    assert!(wall_below);
}

#[test]
fn picture_has_a_line_for_each_row_and_each_floor() {
    let maze = Maze::new(7, 5);
    let picture = maze.render();
    let lines: Vec<&str> = picture[LEGEND.len()..].lines().collect();
    assert_eq!(lines.len(), 9);
    for (i, line) in lines.iter().enumerate() {
        if i % 2 == 0 {
            assert_eq!(line.len(), 13);
        } else {
            assert_eq!(line.len(), 14);
        }
    }
    assert!(lines[0].starts_with('P'));
    assert!(lines[8].ends_with('E'));
}

#[test]
fn picture_agrees_with_the_connections() {
    for (width, height) in [(3, 3), (6, 4), (4, 9), (15, 15)] {
        let mut maze = Maze::new(width, height);
        assert_eq!(maze.render(), drawn(&maze));
        for dir in [Direction::East, Direction::South, Direction::East, Direction::South] {
            maze.try_move(dir);
            assert_eq!(maze.render(), drawn(&maze));
        }
    }
}

#[test]
fn player_on_the_end_cell_is_drawn_as_the_player() {
    let mut maze = Maze::new(3, 1);
    assert!(maze.try_move(Direction::East));
    assert!(maze.try_move(Direction::East));
    assert_eq!(maze.render(), format!("{}. . P\n", LEGEND));
}
