//! Cells of a rectangular grid and the four steps between them.

use vstd::prelude::*;

verus! {

/// A cell of the grid, by column `x` and row `y`. Row 0 is the top row.
#[derive(Clone, Copy, Debug, PartialEq, Eq, Hash, Structural)]
pub struct Position {
    pub x: usize,
    pub y: usize,
}

/// One of the four steps from a cell to a neighbour.
#[derive(Clone, Copy, Debug, PartialEq, Eq, Hash, Structural)]
pub enum Direction {
    North,
    South,
    East,
    West,
}

impl Direction {
    /// The four directions, in the order North, South, East, West.
    pub fn all() -> (dirs: Vec<Direction>)
        ensures
            dirs@ == seq![Direction::North, Direction::South, Direction::East, Direction::West],
    {
        let mut dirs: Vec<Direction> = Vec::new();
        dirs.push(Direction::North);
        dirs.push(Direction::South);
        dirs.push(Direction::East);
        dirs.push(Direction::West);
        assert(dirs@ =~= seq![
            Direction::North,
            Direction::South,
            Direction::East,
            Direction::West,
        ]);
        dirs
    }
}

/// Whether `pos` is a cell of the grid of `width` columns and `height` rows.
pub open spec fn in_grid(width: usize, height: usize, pos: Position) -> bool {
    pos.x < width && pos.y < height
}

/// The cell one step from `pos` in direction `dir`, where that step stays
/// below `width` and `height` and does not go under zero; `None` otherwise.
pub open spec fn neighbor(width: usize, height: usize, pos: Position, dir: Direction) -> Option<
    Position,
> {
    match dir {
        Direction::North => if pos.y > 0 {
            Some(Position { x: pos.x, y: (pos.y - 1) as usize })
        } else {
            None
        },
        Direction::South => if pos.y < height - 1 {
            Some(Position { x: pos.x, y: (pos.y + 1) as usize })
        } else {
            None
        },
        Direction::East => if pos.x < width - 1 {
            Some(Position { x: (pos.x + 1) as usize, y: pos.y })
        } else {
            None
        },
        Direction::West => if pos.x > 0 {
            Some(Position { x: (pos.x - 1) as usize, y: pos.y })
        } else {
            None
        },
    }
}

/// Whether `a` and `b` differ by exactly one in exactly one coordinate.
pub open spec fn adjacent(a: Position, b: Position) -> bool {
    ||| (a.x == b.x && (a.y + 1 == b.y || b.y + 1 == a.y))
    ||| (a.y == b.y && (a.x + 1 == b.x || b.x + 1 == a.x))
}

/// Computes `neighbor`.
pub fn step(width: usize, height: usize, pos: Position, dir: Direction) -> (next: Option<Position>)
    requires
        width >= 1,
        height >= 1,
    ensures
        next == neighbor(width, height, pos, dir),
{
    match dir {
        Direction::North => if pos.y > 0 {
            Some(Position { x: pos.x, y: pos.y - 1 })
        } else {
            None
        },
        Direction::South => if pos.y < height - 1 {
            Some(Position { x: pos.x, y: pos.y + 1 })
        } else {
            None
        },
        Direction::East => if pos.x < width - 1 {
            Some(Position { x: pos.x + 1, y: pos.y })
        } else {
            None
        },
        Direction::West => if pos.x > 0 {
            Some(Position { x: pos.x - 1, y: pos.y })
        } else {
            None
        },
    }
}

/// A step from a cell of the grid ends in an adjacent cell of the grid, and
/// every adjacent cell of the grid is one step away.
pub proof fn lemma_neighbor_adjacent(width: usize, height: usize, pos: Position)
    requires
        in_grid(width, height, pos),
    ensures
        forall|dir: Direction| #[trigger]
            neighbor(width, height, pos, dir) matches Some(q) ==> in_grid(width, height, q)
                && adjacent(pos, q),
        forall|q: Position|
            in_grid(width, height, q) && #[trigger] adjacent(pos, q) ==> exists|dir: Direction|
                neighbor(width, height, pos, dir) == Some(q),
{
    assert forall|q: Position| in_grid(width, height, q) && #[trigger] adjacent(pos, q) implies exists|
        dir: Direction,
    |
        neighbor(width, height, pos, dir) == Some(q) by {
        if pos.x == q.x && pos.y + 1 == q.y {
            assert(neighbor(width, height, pos, Direction::South) == Some(q));
        } else if pos.x == q.x && q.y + 1 == pos.y {
            assert(neighbor(width, height, pos, Direction::North) == Some(q));
        } else if pos.y == q.y && pos.x + 1 == q.x {
            assert(neighbor(width, height, pos, Direction::East) == Some(q));
        } else {
            assert(neighbor(width, height, pos, Direction::West) == Some(q));
        }
    }
}

} // verus!
