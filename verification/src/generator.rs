//! Maze generation: a randomized depth-first search with an explicit stack,
//! which connects each cell of the grid to the cell it was first reached
//! from.

use crate::graph::connects;
use crate::grid::Direction;
use crate::grid::Position;
use crate::grid::adjacent;
use crate::grid::in_grid;
use crate::grid::lemma_neighbor_adjacent;
use crate::grid::neighbor;
use crate::grid::step;
use crate::keys::cell_index;
use crate::keys::cell_key;
use crate::keys::lemma_bounded_set_len;
use crate::keys::lemma_cell_key_bound;
use crate::keys::lemma_cell_key_injective;
use crate::keys::lemma_cell_key_onto;
use crate::keys::lemma_full_set_len;
use crate::keys::lemma_link_key_injective;
use crate::keys::link_index;
use crate::keys::link_key;
use crate::keys::links_of;
use crate::random::shuffle;
use crate::tree::Growth;
use crate::tree::grow;
use crate::tree::is_tree;
use crate::tree::lemma_grow_is_tree;
use crate::tree::lemma_seed_is_tree;
use crate::tree::lemma_tree_connected_acyclic;
use crate::tree::seed;
use crate::tree::spanning_tree;
use rand::rngs::ThreadRng;
use std::collections::HashSet;
use vstd::prelude::*;

verus! {

broadcast use vstd::std_specs::hash::group_hash_axioms;

/// The tree and the stack after the search has looked at the neighbours of
/// `pos` in the order of `dirs`: each neighbour in the grid that the tree
/// does not hold yet is connected to `pos` and pushed on the stack.
pub open spec fn explore(
    width: usize,
    height: usize,
    tree: Growth,
    stack: Seq<Position>,
    pos: Position,
    dirs: Seq<Direction>,
) -> (Growth, Seq<Position>)
    decreases dirs.len(),
{
    if dirs.len() == 0 {
        (tree, stack)
    } else {
        let (grown, pushed) = explore(width, height, tree, stack, pos, dirs.drop_last());
        match neighbor(width, height, pos, dirs.last()) {
            Some(q) => if grown.cells.contains(q) {
                (grown, pushed)
            } else {
                (grow(grown, pos, q), pushed.push(q))
            },
            None => (grown, pushed),
        }
    }
}

/// The state of a search in progress.
pub struct Generator {
    pub width: usize,
    pub height: usize,
    /// Keys of the cells reached so far.
    pub visited: HashSet<usize>,
    /// Keys of the connections made so far, each in both directions.
    pub links: HashSet<u128>,
    /// Cells reached whose neighbours are still to be looked at.
    pub stack: Vec<Position>,
    /// The tree that `visited` and `links` stand for.
    pub trace: Ghost<Growth>,
}

impl Generator {
    /// The search's invariant: what was reached is a tree of adjacent cells
    /// of the grid, rooted in the upper left corner, and the two hash sets
    /// hold exactly its cells' and connections' keys.
    pub open spec fn inv(&self) -> bool {
        let t = self.trace@;
        &&& self.width >= 1
        &&& self.height >= 1
        &&& self.width * self.height <= usize::MAX
        &&& is_tree(t, Position { x: 0, y: 0 })
        &&& forall|p: Position| #[trigger] t.cells.contains(p) ==> in_grid(self.width, self.height, p)
        &&& forall|a: Position, b: Position| #[trigger] t.links.contains((a, b)) ==> adjacent(a, b)
        &&& self.visited@.finite()
        &&& self.visited@.len() == t.cells.len()
        &&& forall|k: usize| #[trigger] self.visited@.contains(k) ==> k < self.width * self.height
        &&& forall|p: Position|
            #![trigger t.cells.contains(p)]
            #![trigger cell_key(self.width, p)]
            in_grid(self.width, self.height, p) ==> (self.visited@.contains(
                cell_key(self.width, p) as usize,
            ) <==> t.cells.contains(p))
        &&& forall|a: Position, b: Position|
            #![trigger t.links.contains((a, b))]
            #![trigger link_key(self.width, a, b)]
            in_grid(self.width, self.height, a) && in_grid(self.width, self.height, b) ==> (
            self.links@.contains(link_key(self.width, a, b) as u128) <==> t.links.contains((a, b)))
        &&& forall|i: int|
            0 <= i < self.stack@.len() ==> t.cells.contains(#[trigger] self.stack@[i])
    }

    /// Whether every neighbour of `p` in the grid was reached.
    pub open spec fn closed(&self, p: Position) -> bool {
        forall|d: Direction|
            (#[trigger] neighbor(self.width, self.height, p, d)) matches Some(q)
                ==> self.trace@.cells.contains(q)
    }

    /// Whether every cell reached is closed, but for those on the stack and
    /// for `current`.
    pub open spec fn settled(&self, current: Option<Position>) -> bool {
        forall|p: Position|
            #[trigger] self.trace@.cells.contains(p) && !self.stack@.contains(p) && current
                != Some(p) ==> self.closed(p)
    }

    /// Connects the new cell `to` to the cell `from`, marks it as reached and
    /// pushes it on the stack.
    pub fn connect(&mut self, from: Position, to: Position)
        requires
            old(self).inv(),
            old(self).trace@.cells.contains(from),
            in_grid(old(self).width, old(self).height, to),
            adjacent(from, to),
            !old(self).trace@.cells.contains(to),
        ensures
            final(self).inv(),
            final(self).width == old(self).width,
            final(self).height == old(self).height,
            final(self).trace@ == grow(old(self).trace@, from, to),
            final(self).stack@ == old(self).stack@.push(to),
    {
        let ghost before = *self;
        let ghost t = self.trace@;
        let ghost root = Position { x: 0, y: 0 };
        let forth = link_index(self.width, self.height, from, to);
        let back = link_index(self.width, self.height, to, from);
        let key = cell_index(self.width, self.height, to);
        self.links.insert(forth);
        self.links.insert(back);
        self.visited.insert(key);
        self.stack.push(to);
        self.trace = Ghost(grow(t, from, to));
        proof {
            let w = self.width;
            let h = self.height;
            let u = self.trace@;
            lemma_grow_is_tree(t, root, from, to);
            lemma_cell_key_bound(w, h, to);
            assert forall|p: Position|
                #![trigger u.cells.contains(p)]
                #![trigger cell_key(w, p)]
                in_grid(w, h, p) implies (self.visited@.contains(cell_key(w, p) as usize)
                <==> u.cells.contains(p)) by {
                lemma_cell_key_bound(w, h, p);
                if cell_key(w, p) == cell_key(w, to) {
                    lemma_cell_key_injective(w, p, to);
                }
            }
            assert forall|a: Position, b: Position|
                #![trigger u.links.contains((a, b))]
                #![trigger link_key(w, a, b)]
                in_grid(w, h, a) && in_grid(w, h, b) implies (self.links@.contains(
                link_key(w, a, b) as u128,
            ) <==> u.links.contains((a, b))) by {
                lemma_cell_key_bound(w, h, a);
                lemma_cell_key_bound(w, h, b);
                if link_key(w, a, b) == link_key(w, from, to) {
                    lemma_link_key_injective(w, h, a, b, from, to);
                }
                if link_key(w, a, b) == link_key(w, to, from) {
                    lemma_link_key_injective(w, h, a, b, to, from);
                }
                assert(before.links@.contains(link_key(w, a, b) as u128) <==> t.links.contains(
                    (a, b),
                ));
            }
            assert forall|i: int| 0 <= i < self.stack@.len() implies u.cells.contains(
                #[trigger] self.stack@[i],
            ) by {
                if i < before.stack@.len() {
                    assert(self.stack@[i] == before.stack@[i]);
                }
            }
        }
    }

    /// Looks at the neighbours of `pos` in the order of `dirs`, and connects
    /// to `pos` each one that was not reached before.
    pub fn visit_neighbors(&mut self, pos: Position, dirs: &Vec<Direction>)
        requires
            old(self).inv(),
            old(self).trace@.cells.contains(pos),
            old(self).settled(Some(pos)),
        ensures
            final(self).inv(),
            final(self).width == old(self).width,
            final(self).height == old(self).height,
            final(self).settled(Some(pos)),
            final(self).trace@.cells.contains(pos),
            (final(self).trace@, final(self).stack@) == explore(
                old(self).width,
                old(self).height,
                old(self).trace@,
                old(self).stack@,
                pos,
                dirs@,
            ),
            forall|j: int|
                0 <= j < dirs@.len() ==> ((#[trigger] neighbor(
                    final(self).width,
                    final(self).height,
                    pos,
                    dirs@[j],
                )) matches Some(q) ==> final(self).trace@.cells.contains(q)),
            final(self).trace@.cells.len() >= old(self).trace@.cells.len(),
            final(self).stack@.len() - old(self).stack@.len() == final(self).trace@.cells.len() - old(
                self,
            ).trace@.cells.len(),
    {
        let mut i: usize = 0;
        while i < dirs.len()
            invariant
                0 <= i <= dirs@.len(),
                self.inv(),
                self.width == old(self).width,
                self.height == old(self).height,
                self.settled(Some(pos)),
                self.trace@.cells.contains(pos),
                (self.trace@, self.stack@) == explore(
                    self.width,
                    self.height,
                    old(self).trace@,
                    old(self).stack@,
                    pos,
                    dirs@.take(i as int),
                ),
                forall|j: int|
                    0 <= j < i ==> ((#[trigger] neighbor(self.width, self.height, pos, dirs@[j]))
                        matches Some(q) ==> self.trace@.cells.contains(q)),
                self.trace@.cells.len() >= old(self).trace@.cells.len(),
                self.stack@.len() - old(self).stack@.len() == self.trace@.cells.len() - old(
                    self,
                ).trace@.cells.len(),
            decreases dirs@.len() - i,
        {
            let ghost before = *self;
            proof {
                let next = dirs@.take(i + 1);
                assert(next.drop_last() =~= dirs@.take(i as int));
            }
            match step(self.width, self.height, pos, dirs[i]) {
                Some(next) => {
                    proof {
                        lemma_neighbor_adjacent(self.width, self.height, pos);
                        lemma_cell_key_bound(self.width, self.height, next);
                    }
                    let key = cell_index(self.width, self.height, next);
                    if !self.visited.contains(&key) {
                        self.connect(pos, next);
                        proof {
                            assert forall|p: Position|
                                #[trigger] self.trace@.cells.contains(p) && !self.stack@.contains(p)
                                    && Some(pos) != Some(p) implies self.closed(p) by {
                                assert(self.stack@[self.stack@.len() - 1] == next);
                                assert(!before.stack@.contains(p)) by {
                                    if before.stack@.contains(p) {
                                        let k = choose|k: int|
                                            0 <= k < before.stack@.len() && before.stack@[k] == p;
                                        assert(self.stack@[k] == p);
                                    }
                                }
                            }
                        }
                    } else {
                    }
                },
                None => {},
            }
            i += 1;
        }
        assert(dirs@.take(i as int) =~= dirs@);
    }
}

/// Once the stack is empty and every cell reached is closed, every cell of
/// the grid was reached.
proof fn lemma_closed_covers(g: Generator, p: Position)
    requires
        g.inv(),
        g.settled(None),
        g.stack@.len() == 0,
        in_grid(g.width, g.height, p),
    ensures
        g.trace@.cells.contains(p),
    decreases p.x + p.y,
{
    if p.x > 0 {
        let q = Position { x: (p.x - 1) as usize, y: p.y };
        lemma_closed_covers(g, q);
        assert(neighbor(g.width, g.height, q, Direction::East) == Some(p));
    } else if p.y > 0 {
        let q = Position { x: p.x, y: (p.y - 1) as usize };
        lemma_closed_covers(g, q);
        assert(neighbor(g.width, g.height, q, Direction::South) == Some(p));
    }
}

/// What a finished search holds is a spanning tree of the grid.
proof fn lemma_finished(g: Generator)
    requires
        g.inv(),
        g.settled(None),
        g.stack@.len() == 0,
    ensures
        spanning_tree(g.width, g.height, links_of(g.width, g.height, g.links@)),
{
    let w = g.width;
    let h = g.height;
    let t = g.trace@;
    let found = links_of(w, h, g.links@);
    assert forall|e: (Position, Position)| found.contains(e) <==> t.links.contains(e) by {
        assert(e == (e.0, e.1));
    }
    assert(found =~= t.links);
    assert forall|k: usize| #[trigger] g.visited@.contains(k) <==> k < w * h by {
        if k < w * h {
            let p = lemma_cell_key_onto(w, h, k as int);
            lemma_closed_covers(g, p);
        }
    }
    lemma_full_set_len(g.visited@, (w * h) as nat);
    lemma_tree_connected_acyclic(t, Position { x: 0, y: 0 });
    assert forall|p: Position| in_grid(w, h, p) implies #[trigger] connects(
        found,
        Position { x: 0, y: 0 },
        p,
    ) by {
        lemma_closed_covers(g, p);
    }
}

/// Generates a maze on the grid of `width` columns and `height` rows, and
/// returns the keys of its connections. The search starts in the upper
/// left corner. It takes the cell pushed last from the stack, looks at its
/// four neighbours in random order, connects each neighbour not reached
/// before and pushes it, until the stack is empty.
pub fn generate_iterative(width: usize, height: usize, rng: &mut ThreadRng) -> (links: HashSet<
    u128,
>)
    requires
        width >= 1,
        height >= 1,
        width * height <= usize::MAX,
    ensures
        spanning_tree(width, height, links_of(width, height, links@)),
{
    let start = Position { x: 0, y: 0 };
    let mut g = Generator {
        width,
        height,
        visited: HashSet::new(),
        links: HashSet::new(),
        stack: Vec::new(),
        trace: Ghost(seed(start)),
    };
    g.stack.push(start);
    let key = cell_index(width, height, start);
    g.visited.insert(key);
    proof {
        lemma_seed_is_tree(start);
        assert(key == 0) by (nonlinear_arith)
            requires
                key == 0 * width + 0,
        ;
        assert(0 < width * height) by (nonlinear_arith)
            requires
                width >= 1,
                height >= 1,
        ;
        assert forall|p: Position|
            #![trigger g.trace@.cells.contains(p)]
            #![trigger cell_key(width, p)]
            in_grid(width, height, p) implies (g.visited@.contains(cell_key(width, p) as usize)
            <==> g.trace@.cells.contains(p)) by {
            lemma_cell_key_bound(width, height, p);
            if cell_key(width, p) == cell_key(width, start) {
                lemma_cell_key_injective(width, p, start);
            }
        }
    }
    while g.stack.len() > 0
        invariant
            g.inv(),
            g.settled(None),
            g.width == width,
            g.height == height,
        decreases 2 * (width * height - g.trace@.cells.len()) + g.stack@.len(),
    {
        let ghost before = g;
        let pos = g.stack.pop().unwrap();
        let mut dirs = Direction::all();
        let ghost fresh = dirs@;
        shuffle(&mut dirs, rng);
        proof {
            assert forall|p: Position|
                #[trigger] g.trace@.cells.contains(p) && !g.stack@.contains(p) && Some(pos)
                    != Some(p) implies g.closed(p) by {
                assert(!before.stack@.contains(p)) by {
                    if before.stack@.contains(p) {
                        let k = choose|k: int| 0 <= k < before.stack@.len() && before.stack@[k] == p;
                        assert(g.stack@[k] == p);
                    }
                }
            }
            assert forall|i: int| 0 <= i < g.stack@.len() implies g.trace@.cells.contains(
                #[trigger] g.stack@[i],
            ) by {
                assert(g.stack@[i] == before.stack@[i]);
            }
        }
        g.visit_neighbors(pos, &dirs);
        proof {
            lemma_bounded_set_len(g.visited@, (width * height) as nat);
            assert forall|d: Direction|
                ((#[trigger] neighbor(width, height, pos, d)) matches Some(q)
                    ==> g.trace@.cells.contains(q)) by {
                fresh.to_multiset_ensures();
                dirs@.to_multiset_ensures();
                assert(fresh[0] == Direction::North && fresh[1] == Direction::South && fresh[2]
                    == Direction::East && fresh[3] == Direction::West);
                assert(dirs@.to_multiset().count(d) > 0);
                let j = choose|j: int| 0 <= j < dirs@.len() && dirs@[j] == d;
                assert(neighbor(width, height, pos, dirs@[j]) == neighbor(width, height, pos, d));
            }
        }
    }
    proof {
        lemma_finished(g);
    }
    g.links
}

} // verus!
