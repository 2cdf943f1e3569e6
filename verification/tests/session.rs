use maze_core::play;
use maze_core::Command;
use maze_core::Direction;
use maze_core::Maze;
use maze_core::Outcome;
use maze_core::Position;

#[test]
fn letters_stand_for_the_commands() {
    assert_eq!(Command::from_word("n"), Command::Go(Direction::North));
    assert_eq!(Command::from_word("s"), Command::Go(Direction::South));
    assert_eq!(Command::from_word("e"), Command::Go(Direction::East));
    assert_eq!(Command::from_word("w"), Command::Go(Direction::West));
    assert_eq!(Command::from_word("q"), Command::Quit);
}

#[test]
fn other_words_are_unknown() {
    assert_eq!(Command::from_word(""), Command::Unknown);
    assert_eq!(Command::from_word("x"), Command::Unknown);
    assert_eq!(Command::from_word("N"), Command::Unknown);
    assert_eq!(Command::from_word(" n"), Command::Unknown);
    assert_eq!(Command::from_word("nn"), Command::Unknown);
    assert_eq!(Command::from_word("north"), Command::Unknown);
    assert_eq!(Command::from_word("quit"), Command::Unknown);
    assert_eq!(Command::from_word("\u{f1}"), Command::Unknown);
}

#[test]
fn lines_are_trimmed_before_they_are_read() {
    assert_eq!(Command::parse("n\n"), Command::Go(Direction::North));
    assert_eq!(Command::parse("  s  \r\n"), Command::Go(Direction::South));
    assert_eq!(Command::parse("\te"), Command::Go(Direction::East));
    assert_eq!(Command::parse(" q "), Command::Quit);
    assert_eq!(Command::parse("n s"), Command::Unknown);
    assert_eq!(Command::parse("\n"), Command::Unknown);
    assert_eq!(Command::parse(""), Command::Unknown);
}

#[test]
fn lines_are_read_in_either_case() {
    assert_eq!(Command::parse("N"), Command::Go(Direction::North));
    assert_eq!(Command::parse("S"), Command::Go(Direction::South));
    assert_eq!(Command::parse("E\n"), Command::Go(Direction::East));
    assert_eq!(Command::parse(" W\n"), Command::Go(Direction::West));
    assert_eq!(Command::parse("Q"), Command::Quit);
    assert_eq!(Command::parse("w"), Command::Go(Direction::West));
    assert_eq!(Command::parse("Quit"), Command::Unknown);
}

#[test]
fn quitting_leaves_the_player_in_place() {
    let mut maze = Maze::new(3, 3);
    assert_eq!(play(&mut maze, Command::Quit), Outcome::Quit);
    assert_eq!(maze.player(), Position { x: 0, y: 0 });
}

#[test]
fn unknown_command_is_rejected_without_a_move() {
    let mut maze = Maze::new(3, 3);
    assert_eq!(play(&mut maze, Command::Unknown), Outcome::Rejected);
    assert_eq!(maze.player(), Position { x: 0, y: 0 });
}

#[test]
fn unknown_command_does_not_solve_a_single_cell() {
    let mut maze = Maze::new(1, 1);
    assert_eq!(play(&mut maze, Command::Unknown), Outcome::Rejected);
    assert_eq!(play(&mut maze, Command::Quit), Outcome::Quit);
}

#[test]
fn any_move_solves_a_single_cell() {
    for dir in Direction::all() {
        let mut maze = Maze::new(1, 1);
        assert_eq!(play(&mut maze, Command::Go(dir)), Outcome::Solved);
        assert_eq!(maze.player(), Position { x: 0, y: 0 });
    }
}

#[test]
fn game_is_solved_on_the_end_cell() {
    let mut maze = Maze::new(3, 1);
    assert_eq!(play(&mut maze, Command::Go(Direction::North)), Outcome::Playing);
    assert_eq!(maze.player(), Position { x: 0, y: 0 });
    assert_eq!(play(&mut maze, Command::Go(Direction::East)), Outcome::Playing);
    assert_eq!(maze.player(), Position { x: 1, y: 0 });
    assert_eq!(play(&mut maze, Command::Go(Direction::East)), Outcome::Solved);
    assert_eq!(maze.player(), Position { x: 2, y: 0 });
    assert_eq!(play(&mut maze, Command::Go(Direction::East)), Outcome::Solved);
    assert_eq!(play(&mut maze, Command::Go(Direction::West)), Outcome::Playing);
    assert_eq!(maze.player(), Position { x: 1, y: 0 });
}

#[test]
fn game_is_played_from_lines_of_input() {
    let mut maze = Maze::new(1, 3);
    let mut outcomes = Vec::new();
    for line in ["e\n", "S\n", "look\n", " s \n"] {
        outcomes.push(play(&mut maze, Command::parse(line)));
    }
    assert_eq!(
        outcomes,
        vec![Outcome::Playing, Outcome::Playing, Outcome::Rejected, Outcome::Solved]
    );
}
