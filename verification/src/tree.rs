//! Trees that grow one leaf at a time, as a depth-first search builds them.
//!
//! A `Growth` records, beside the cells and connections reached so far, the
//! order in which the cells were reached and a walk from the root to each.
//! With these follows what makes it a tree: every cell is connected to
//! the root, and no cycle exists.

use crate::graph::acyclic;
use crate::graph::connects;
use crate::graph::is_walk;
use crate::graph::lemma_ranked_links_acyclic;
use crate::graph::lemma_walk_monotone;
use crate::graph::lemma_walk_push;
use crate::graph::symmetric;
use crate::graph::Links;
use crate::grid::adjacent;
use crate::grid::in_grid;
use crate::grid::Position;
use vstd::prelude::*;

verus! {

/// Whether `links` is a spanning tree of the grid of `width` columns and
/// `height` rows: it joins only adjacent cells of the grid, in both
/// directions; it has one connection less than the grid has cells; every
/// cell is connected to the cell in the upper left corner; and it has no
/// cycle.
pub open spec fn spanning_tree(width: usize, height: usize, links: Links) -> bool {
    &&& links.finite()
    &&& symmetric(links)
    &&& forall|a: Position, b: Position| #[trigger]
        links.contains((a, b)) ==> in_grid(width, height, a) && in_grid(width, height, b)
            && adjacent(a, b)
    &&& links.len() == 2 * (width * height - 1)
    &&& forall|p: Position|
        in_grid(width, height, p) ==> #[trigger] connects(links, Position { x: 0, y: 0 }, p)
    &&& acyclic(links)
}

/// What a search has reached, with the evidence that it is a tree.
pub struct Growth {
    /// The cells reached.
    pub cells: Set<Position>,
    /// The connections made, each in both directions.
    pub links: Links,
    /// For each cell reached, how many cells were reached before it.
    pub rank: Map<Position, nat>,
    /// For each cell reached, a walk from the root to it.
    pub route: Map<Position, Seq<Position>>,
}

/// Whether `g` is a tree on its cells with root `root`, and its ranks and
/// routes bear that out.
pub open spec fn is_tree(g: Growth, root: Position) -> bool {
    &&& g.cells.finite()
    &&& g.links.finite()
    &&& g.cells.contains(root)
    &&& symmetric(g.links)
    &&& g.links.len() + 2 == 2 * g.cells.len()
    &&& forall|a: Position, b: Position| #[trigger]
        g.links.contains((a, b)) ==> g.cells.contains(a) && g.cells.contains(b) && g.rank[a]
            != g.rank[b]
    &&& forall|p: Position| #[trigger]
        g.cells.contains(p) ==> g.rank.dom().contains(p) && g.route.dom().contains(p) && g.rank[p]
            < g.cells.len() && is_walk(g.links, g.route[p]) && g.route[p].first() == root
            && g.route[p].last() == p
    &&& forall|c: Position, a: Position, b: Position|
        #[trigger] g.links.contains((c, a)) && #[trigger] g.links.contains((c, b)) && g.rank[a]
            < g.rank[c] && g.rank[b] < g.rank[c] ==> a == b
}

/// The tree of the root alone.
pub open spec fn seed(root: Position) -> Growth {
    Growth {
        cells: Set::empty().insert(root),
        links: Set::empty(),
        rank: Map::empty().insert(root, 0),
        route: Map::empty().insert(root, seq![root]),
    }
}

/// `g` with the new cell `to` connected to the cell `from`.
pub open spec fn grow(g: Growth, from: Position, to: Position) -> Growth {
    Growth {
        cells: g.cells.insert(to),
        links: g.links.insert((from, to)).insert((to, from)),
        rank: g.rank.insert(to, g.cells.len()),
        route: g.route.insert(to, g.route[from].push(to)),
    }
}

/// The root alone is a tree.
pub proof fn lemma_seed_is_tree(root: Position)
    ensures
        is_tree(seed(root), root),
{
}

/// A tree to which a cell outside it is connected is a tree.
pub proof fn lemma_grow_is_tree(g: Growth, root: Position, from: Position, to: Position)
    requires
        is_tree(g, root),
        g.cells.contains(from),
        !g.cells.contains(to),
    ensures
        is_tree(grow(g, from, to), root),
{
    let h = grow(g, from, to);
    assert forall|p: Position| #[trigger] h.cells.contains(p) implies is_walk(
        h.links,
        h.route[p],
    ) && h.route[p].first() == root && h.route[p].last() == p by {
        if p == to {
            lemma_walk_monotone(g.links, h.links, g.route[from]);
            lemma_walk_push(h.links, g.route[from], to);
        } else {
            lemma_walk_monotone(g.links, h.links, g.route[p]);
        }
    }
}

/// In a tree every cell is connected to the root, and there is no cycle.
pub proof fn lemma_tree_connected_acyclic(g: Growth, root: Position)
    requires
        is_tree(g, root),
    ensures
        forall|p: Position| g.cells.contains(p) ==> #[trigger] connects(g.links, root, p),
        acyclic(g.links),
{
    lemma_ranked_links_acyclic(g.links, g.rank);
}

} // verus!
