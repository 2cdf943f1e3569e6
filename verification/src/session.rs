//! One game: the commands a player can give, and what each does to the
//! maze. Reading the commands and showing the results is left to the
//! caller.

use crate::grid::Direction;
use crate::grid::Position;
use crate::maze::Maze;
use vstd::prelude::*;
use vstd::string::StrSliceExecFns;

verus! {

/// What the player asks for.
#[derive(Clone, Copy, Debug, PartialEq, Eq, Structural)]
pub enum Command {
    /// Move one step in a direction.
    Go(Direction),
    /// End the game.
    Quit,
    /// Anything else.
    Unknown,
}

/// How the game stands after a command.
#[derive(Clone, Copy, Debug, PartialEq, Eq, Structural)]
pub enum Outcome {
    /// A move was tried and the player is not on the end cell.
    Playing,
    /// A move was tried and the player is on the end cell.
    Solved,
    /// The player ended the game.
    Quit,
    /// The command was not understood; nothing was done.
    Rejected,
}

/// What `str::trim` returns for the text `text`.
pub uninterp spec fn trimmed(text: Seq<char>) -> Seq<char>;

/// What `str::to_lowercase` returns for the text `text`.
pub uninterp spec fn lowercased(text: Seq<char>) -> Seq<char>;

/// Calls `str::trim`, which returns the text without the white space at
/// its two ends. The contract only names the result `trimmed`.
#[verifier::external_body]
fn trim(text: &str) -> (out: &str)
    ensures
        out@ == trimmed(text@),
{
    text.trim()
}

/// Calls `str::to_lowercase`, which returns the text with each character
/// replaced by its lower-case form. The contract only names the result
/// `lowercased`.
#[verifier::external_body]
fn to_lowercase(text: &str) -> (out: String)
    ensures
        out@ == lowercased(text@),
{
    text.to_lowercase()
}

/// The command that a word stands for: `n`, `s`, `e` and `w` are the four
/// moves, `q` ends the game, and every other word is unknown.
pub open spec fn command_of(word: Seq<char>) -> Command {
    if word.len() != 1 {
        Command::Unknown
    } else if word[0] == 'n' {
        Command::Go(Direction::North)
    } else if word[0] == 's' {
        Command::Go(Direction::South)
    } else if word[0] == 'e' {
        Command::Go(Direction::East)
    } else if word[0] == 'w' {
        Command::Go(Direction::West)
    } else if word[0] == 'q' {
        Command::Quit
    } else {
        Command::Unknown
    }
}

/// Where the player is after `command`.
pub open spec fn player_after(maze: &Maze, command: Command) -> Position {
    match command {
        Command::Go(dir) => maze.destination(dir),
        _ => maze.player(),
    }
}

/// How the game stands after `command`.
pub open spec fn outcome_of(maze: &Maze, command: Command) -> Outcome {
    match command {
        Command::Go(dir) => if maze.destination(dir) == maze.end() {
            Outcome::Solved
        } else {
            Outcome::Playing
        },
        Command::Quit => Outcome::Quit,
        Command::Unknown => Outcome::Rejected,
    }
}

impl Command {
    /// Reads a command from a word in lower case without white space
    /// around it.
    pub fn from_word(word: &str) -> (command: Command)
        ensures
            command == command_of(word@),
    {
        if word.unicode_len() != 1 {
            return Command::Unknown;
        }
        let letter = word.get_char(0);
        if letter == 'n' {
            Command::Go(Direction::North)
        } else if letter == 's' {
            Command::Go(Direction::South)
        } else if letter == 'e' {
            Command::Go(Direction::East)
        } else if letter == 'w' {
            Command::Go(Direction::West)
        } else if letter == 'q' {
            Command::Quit
        } else {
            Command::Unknown
        }
    }

    /// Reads a command from a line of input: the line is trimmed and put in
    /// lower case, and the word that is left is read.
    pub fn parse(line: &str) -> (command: Command)
        ensures
            command == command_of(lowercased(trimmed(line@))),
    {
        let word = to_lowercase(trim(line));
        Command::from_word(word.as_str())
    }
}

/// Carries out `command` on `maze`. A move is tried, whether it is possible
/// or not, and the game is solved if the player then is on the end cell.
/// The other commands leave the maze as it is.
pub fn play(maze: &mut Maze, command: Command) -> (outcome: Outcome)
    ensures
        final(maze).wf(),
        final(maze).same_maze(old(maze)),
        final(maze).player() == player_after(old(maze), command),
        outcome == outcome_of(old(maze), command),
{
    proof {
        use_type_invariant(&*maze);
    }
    match command {
        Command::Go(dir) => {
            maze.try_move(dir);
            if maze.is_at_end() {
                Outcome::Solved
            } else {
                Outcome::Playing
            }
        },
        Command::Quit => Outcome::Quit,
        Command::Unknown => Outcome::Rejected,
    }
}

} // verus!
