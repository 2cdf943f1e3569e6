//! The maze: a spanning tree of connections over a grid, and a player who
//! moves along them from the start cell to the end cell.

use crate::generator::generate_iterative;
use crate::graph::connects;
use crate::graph::is_cycle;
use crate::graph::lemma_connects_through;
use crate::graph::Links;
use crate::grid::adjacent;
use crate::grid::in_grid;
use crate::grid::lemma_neighbor_adjacent;
use crate::grid::neighbor;
use crate::grid::step;
use crate::grid::Direction;
use crate::grid::Position;
use crate::keys::link_index;
use crate::keys::links_of;
use crate::random::thread_rng;
use crate::tree::spanning_tree;
use rand::rngs::ThreadRng;
use std::collections::HashSet;
use vstd::prelude::*;

verus! {

broadcast use vstd::std_specs::hash::group_hash_axioms;

/// A generated maze and the player's position in it.
pub struct Maze {
    width: usize,
    height: usize,
    /// Keys of the connections, each in both directions.
    links: HashSet<u128>,
    start: Position,
    end: Position,
    player: Position,
}

impl Maze {
    /// The number of columns.
    pub closed spec fn spec_width(&self) -> usize {
        self.width
    }

    /// The number of rows.
    pub closed spec fn spec_height(&self) -> usize {
        self.height
    }

    /// The cell where the player starts.
    pub closed spec fn spec_start(&self) -> Position {
        self.start
    }

    /// The cell the player has to reach.
    pub closed spec fn spec_end(&self) -> Position {
        self.end
    }

    /// The cell the player is in.
    pub closed spec fn spec_player(&self) -> Position {
        self.player
    }

    /// The connections: the ordered pairs of cells between which the player
    /// can move.
    pub closed spec fn connections(&self) -> Links {
        links_of(self.width, self.height, self.links@)
    }

    /// The maze's invariant: the start is the upper left corner, the end the
    /// lower right one, the player is in the grid, and the connections are a
    /// spanning tree of the grid.
    #[verifier::type_invariant]
    pub open spec fn wf(&self) -> bool {
        &&& self.width() >= 1
        &&& self.height() >= 1
        &&& self.width() * self.height() <= usize::MAX
        &&& self.start() == Position { x: 0, y: 0 }
        &&& self.end() == Position {
            x: (self.width() - 1) as usize,
            y: (self.height() - 1) as usize,
        }
        &&& in_grid(self.width(), self.height(), self.player())
        &&& spanning_tree(self.width(), self.height(), self.connections())
    }

    /// Whether the player can move one step in direction `dir`: the step
    /// stays in the grid, and the player's cell is connected to the cell it
    /// leads to.
    pub open spec fn can_move(&self, dir: Direction) -> bool {
        neighbor(self.width(), self.height(), self.player(), dir) matches Some(q)
            && self.connections().contains((self.player(), q))
    }

    /// Where the player is after an attempt to move in direction `dir`: one
    /// step further if the move is possible, else in the same cell.
    pub open spec fn destination(&self, dir: Direction) -> Position {
        if self.can_move(dir) {
            neighbor(self.width(), self.height(), self.player(), dir).unwrap()
        } else {
            self.player()
        }
    }

    /// Whether `other` is this maze with the player in any cell: the same
    /// grid, start, end and connections.
    pub open spec fn same_maze(&self, other: &Maze) -> bool {
        &&& self.width() == other.width()
        &&& self.height() == other.height()
        &&& self.start() == other.start()
        &&& self.end() == other.end()
        &&& self.connections() == other.connections()
    }

    /// Generates a maze of `width` columns and `height` rows with the
    /// thread-local random number generator, and puts the player on the
    /// start cell.
    pub fn new(width: usize, height: usize) -> (maze: Maze)
        requires
            width >= 1,
            height >= 1,
            width * height <= usize::MAX,
        ensures
            maze.wf(),
            maze.width() == width,
            maze.height() == height,
            maze.player() == maze.start(),
            spanning_tree(width, height, maze.connections()),
    {
        let mut rng = thread_rng();
        Maze::with_rng(width, height, &mut rng)
    }

    /// Generates a maze of `width` columns and `height` rows with the random
    /// number generator `rng`, and puts the player on the start cell.
    pub fn with_rng(width: usize, height: usize, rng: &mut ThreadRng) -> (maze: Maze)
        requires
            width >= 1,
            height >= 1,
            width * height <= usize::MAX,
        ensures
            maze.wf(),
            maze.width() == width,
            maze.height() == height,
            maze.player() == maze.start(),
            spanning_tree(width, height, maze.connections()),
    {
        let start = Position { x: 0, y: 0 };
        let end = Position { x: width - 1, y: height - 1 };
        let links = generate_iterative(width, height, rng);
        Maze { width, height, links, start, end, player: start }
    }

    /// The number of columns.
    #[verifier::when_used_as_spec(spec_width)]
    pub fn width(&self) -> (width: usize)
        ensures
            width == self.width(),
    {
        self.width
    }

    /// The number of rows.
    #[verifier::when_used_as_spec(spec_height)]
    pub fn height(&self) -> (height: usize)
        ensures
            height == self.height(),
    {
        self.height
    }

    /// The cell where the player starts.
    #[verifier::when_used_as_spec(spec_start)]
    pub fn start(&self) -> (start: Position)
        ensures
            start == self.start(),
    {
        self.start
    }

    /// The cell the player has to reach.
    #[verifier::when_used_as_spec(spec_end)]
    pub fn end(&self) -> (end: Position)
        ensures
            end == self.end(),
    {
        self.end
    }

    /// The cell the player is in.
    #[verifier::when_used_as_spec(spec_player)]
    pub fn player(&self) -> (player: Position)
        ensures
            player == self.player(),
    {
        self.player
    }

    /// Whether the player can move from `a` to `b`.
    pub fn is_connected(&self, a: Position, b: Position) -> (found: bool)
        ensures
            found == self.connections().contains((a, b)),
    {
        proof {
            use_type_invariant(self);
        }
        if a.x < self.width && a.y < self.height && b.x < self.width && b.y < self.height {
            let key = link_index(self.width, self.height, a, b);
            self.links.contains(&key)
        } else {
            false
        }
    }

    /// The cell one step from `pos` in direction `dir`, or `None` where the
    /// step would leave the grid.
    pub fn move_pos(&self, pos: Position, dir: Direction) -> (next: Option<Position>)
        ensures
            next == neighbor(self.width(), self.height(), pos, dir),
    {
        proof {
            use_type_invariant(self);
        }
        step(self.width, self.height, pos, dir)
    }

    /// Moves the player one step in direction `dir` if the step stays in the
    /// grid and the two cells are connected, and says whether it did.
    pub fn try_move(&mut self, dir: Direction) -> (moved: bool)
        ensures
            final(self).wf(),
            final(self).same_maze(old(self)),
            moved == old(self).can_move(dir),
            final(self).player() == old(self).destination(dir),
            moved ==> neighbor(old(self).width(), old(self).height(), old(self).player(), dir)
                == Some(final(self).player()),
            !moved ==> final(self).player() == old(self).player(),
            neighbor(old(self).width(), old(self).height(), old(self).player(), dir) is None
                ==> !moved,
    {
        proof {
            use_type_invariant(&*self);
            lemma_neighbor_adjacent(self.width, self.height, self.player);
        }
        match self.move_pos(self.player, dir) {
            Some(new_pos) => {
                if self.is_connected(self.player, new_pos) {
                    self.player = new_pos;
                    return true;
                }
            },
            None => {},
        }
        false
    }

    /// Whether the player is on the end cell.
    pub fn is_at_end(&self) -> (at_end: bool)
        ensures
            at_end == (self.player() == self.end()),
    {
        self.player == self.end
    }
}

/// A maze's connections go both ways, none joins a cell to itself, and
/// there are twice as many as the grid has cells, less two: one in each
/// direction for each of `width * height - 1` passages.
pub proof fn lemma_connection_count(maze: &Maze)
    requires
        maze.wf(),
    ensures
        maze.connections().finite(),
        maze.connections().len() == 2 * (maze.width() * maze.height() - 1),
        forall|a: Position, b: Position| #[trigger]
            maze.connections().contains((a, b)) ==> maze.connections().contains((b, a)),
        forall|a: Position| !maze.connections().contains((a, a)),
{
    assert forall|a: Position| !maze.connections().contains((a, a)) by {
        assert(!adjacent(a, a));
    }
}

/// A maze connects only cells of the grid that lie side by side.
pub proof fn lemma_connections_join_neighbors(maze: &Maze, a: Position, b: Position)
    requires
        maze.wf(),
        maze.connections().contains((a, b)),
    ensures
        in_grid(maze.width(), maze.height(), a),
        in_grid(maze.width(), maze.height(), b),
        adjacent(a, b),
        exists|dir: Direction| neighbor(maze.width(), maze.height(), a, dir) == Some(b),
{
    lemma_neighbor_adjacent(maze.width(), maze.height(), a);
}

/// Every cell of a maze's grid can be reached from the start cell along
/// connections.
pub proof fn lemma_every_cell_reachable(maze: &Maze, cell: Position)
    requires
        maze.wf(),
        in_grid(maze.width(), maze.height(), cell),
    ensures
        connects(maze.connections(), maze.start(), cell),
{
}

/// Any two cells of a maze's grid can be reached from each other along
/// connections.
pub proof fn lemma_cells_connected(maze: &Maze, a: Position, b: Position)
    requires
        maze.wf(),
        in_grid(maze.width(), maze.height(), a),
        in_grid(maze.width(), maze.height(), b),
    ensures
        connects(maze.connections(), a, b),
{
    lemma_connects_through(maze.connections(), maze.start(), a, b);
}

/// No sequence of cells is a cycle in a maze's connections.
pub proof fn lemma_no_cycle(maze: &Maze, ring: Seq<Position>)
    requires
        maze.wf(),
    ensures
        !is_cycle(maze.connections(), ring),
{
}

/// A player in the top row cannot move north, whatever the connections.
pub proof fn lemma_top_row_blocks_north(maze: &Maze)
    requires
        maze.wf(),
        maze.player().y == 0,
    ensures
        !maze.can_move(Direction::North),
        maze.destination(Direction::North) == maze.player(),
{
}

/// A player cannot leave the grid: a move is possible only to a cell of the
/// grid next to the player's, and after any attempt the player is in the
/// grid.
pub proof fn lemma_moves_stay_in_grid(maze: &Maze, dir: Direction)
    requires
        maze.wf(),
    ensures
        neighbor(maze.width(), maze.height(), maze.player(), dir) is None ==> !maze.can_move(dir),
        in_grid(maze.width(), maze.height(), maze.destination(dir)),
        maze.can_move(dir) ==> adjacent(maze.player(), maze.destination(dir)),
{
    lemma_neighbor_adjacent(maze.width(), maze.height(), maze.player());
}

} // verus!
