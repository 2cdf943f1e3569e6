//! Walks, reachability and cycles in a set of directed connections between
//! cells. An undirected graph is a set that holds each connection both ways.

use crate::grid::Position;
use vstd::prelude::*;

verus! {

/// A set of connections, each an ordered pair of cells.
pub type Links = Set<(Position, Position)>;

/// Whether `links` holds every connection in both directions.
pub open spec fn symmetric(links: Links) -> bool {
    forall|a: Position, b: Position| #[trigger] links.contains((a, b)) ==> links.contains((b, a))
}

/// Whether the cell at index `i` of `walk` is connected to the one after it.
pub open spec fn hop(links: Links, walk: Seq<Position>, i: int) -> bool {
    links.contains((walk[i], walk[i + 1]))
}

/// Whether `walk` is a non-empty sequence of cells in which each cell is
/// connected to the one after it.
pub open spec fn is_walk(links: Links, walk: Seq<Position>) -> bool {
    &&& walk.len() >= 1
    &&& forall|i: int| 0 <= i < walk.len() - 1 ==> #[trigger] hop(links, walk, i)
}

/// Whether some walk leads from `from` to `to`.
pub open spec fn connects(links: Links, from: Position, to: Position) -> bool {
    exists|walk: Seq<Position>| #[trigger]
        is_walk(links, walk) && walk.first() == from && walk.last() == to
}

/// Whether `ring` is a cycle: at least three cells, no cell twice, each
/// connected to the one after it and the last to the first.
pub open spec fn is_cycle(links: Links, ring: Seq<Position>) -> bool {
    &&& ring.len() >= 3
    &&& ring.no_duplicates()
    &&& is_walk(links, ring)
    &&& links.contains((ring.last(), ring.first()))
}

/// Whether `links` has no cycle.
pub open spec fn acyclic(links: Links) -> bool {
    forall|ring: Seq<Position>| !is_cycle(links, ring)
}

/// A walk stays a walk when connections are added.
pub proof fn lemma_walk_monotone(small: Links, large: Links, walk: Seq<Position>)
    requires
        is_walk(small, walk),
        small.subset_of(large),
    ensures
        is_walk(large, walk),
{
    assert forall|i: int| 0 <= i < walk.len() - 1 implies #[trigger] hop(large, walk, i) by {
        assert(hop(small, walk, i));
    }
}

/// A walk that is extended by a cell connected to its last cell is a walk.
pub proof fn lemma_walk_push(links: Links, walk: Seq<Position>, next: Position)
    requires
        is_walk(links, walk),
        links.contains((walk.last(), next)),
    ensures
        is_walk(links, walk.push(next)),
        walk.push(next).first() == walk.first(),
        walk.push(next).last() == next,
{
    let longer = walk.push(next);
    assert forall|i: int| 0 <= i < longer.len() - 1 implies #[trigger] hop(links, longer, i) by {
        if i < walk.len() - 1 {
            assert(hop(links, walk, i));
        }
    }
}

/// A walk read backwards is a walk, where the connections go both ways.
pub proof fn lemma_walk_reverse(links: Links, walk: Seq<Position>)
    requires
        symmetric(links),
        is_walk(links, walk),
    ensures
        is_walk(links, walk.reverse()),
        walk.reverse().first() == walk.last(),
        walk.reverse().last() == walk.first(),
{
    let back = walk.reverse();
    assert forall|i: int| 0 <= i < back.len() - 1 implies #[trigger] hop(links, back, i) by {
        assert(hop(links, walk, walk.len() - 2 - i));
    }
}

/// Two walks, the second from where the first ends, make one walk.
pub proof fn lemma_walk_join(links: Links, first: Seq<Position>, second: Seq<Position>)
    requires
        is_walk(links, first),
        is_walk(links, second),
        first.last() == second.first(),
    ensures
        is_walk(links, first + second.drop_first()),
        (first + second.drop_first()).first() == first.first(),
        (first + second.drop_first()).last() == second.last(),
{
    let whole = first + second.drop_first();
    assert forall|i: int| 0 <= i < whole.len() - 1 implies #[trigger] hop(links, whole, i) by {
        if i < first.len() - 1 {
            assert(hop(links, first, i));
        } else {
            assert(hop(links, second, i - first.len() + 1));
        }
    }
}

/// Where the connections go both ways, two cells that a third cell is
/// connected to are connected to each other.
pub proof fn lemma_connects_through(links: Links, hub: Position, a: Position, b: Position)
    requires
        symmetric(links),
        connects(links, hub, a),
        connects(links, hub, b),
    ensures
        connects(links, a, b),
{
    let to_a = choose|walk: Seq<Position>| #[trigger]
        is_walk(links, walk) && walk.first() == hub && walk.last() == a;
    let to_b = choose|walk: Seq<Position>| #[trigger]
        is_walk(links, walk) && walk.first() == hub && walk.last() == b;
    lemma_walk_reverse(links, to_a);
    lemma_walk_join(links, to_a.reverse(), to_b);
    assert(is_walk(links, to_a.reverse() + to_b.drop_first()));
}

/// Some index of a non-empty sequence holds a cell of greatest rank.
proof fn lemma_greatest_rank(cells: Seq<Position>, rank: Map<Position, nat>) -> (top: int)
    requires
        cells.len() >= 1,
    ensures
        0 <= top < cells.len(),
        forall|j: int| 0 <= j < cells.len() ==> rank[#[trigger] cells[j]] <= rank[cells[top]],
    decreases cells.len(),
{
    if cells.len() == 1 {
        0
    } else {
        let front = cells.drop_last();
        let best = lemma_greatest_rank(front, rank);
        let last = cells.len() - 1;
        assert forall|j: int| 0 <= j < front.len() implies front[j] == cells[j] by {}
        if rank[cells[last]] <= rank[cells[best]] {
            best
        } else {
            last
        }
    }
}

/// A symmetric set of connections has no cycle where the cells can be
/// ranked so that connected cells differ in rank and no cell is connected
/// to two cells of lower rank.
pub proof fn lemma_ranked_links_acyclic(links: Links, rank: Map<Position, nat>)
    requires
        symmetric(links),
        forall|a: Position, b: Position| #[trigger] links.contains((a, b)) ==> rank[a] != rank[b],
        forall|c: Position, a: Position, b: Position|
            #[trigger] links.contains((c, a)) && #[trigger] links.contains((c, b)) && rank[a]
                < rank[c] && rank[b] < rank[c] ==> a == b,
    ensures
        acyclic(links),
{
    assert forall|ring: Seq<Position>| !is_cycle(links, ring) by {
        if is_cycle(links, ring) {
            // The cell of greatest rank on the ring is connected to the one
            // before it and to the one after it. Both are of lower rank, so
            // they are one cell, and the ring holds it twice.
            let n = ring.len() as int;
            let top = lemma_greatest_rank(ring, rank);
            let after = if top == n - 1 {
                0
            } else {
                top + 1
            };
            let before = if top == 0 {
                n - 1
            } else {
                top - 1
            };
            assert(links.contains((ring[top], ring[after]))) by {
                if top < n - 1 {
                    assert(hop(links, ring, top));
                }
            }
            assert(links.contains((ring[before], ring[top]))) by {
                if top > 0 {
                    assert(hop(links, ring, top - 1));
                }
            }
        }
    }
}

} // verus!
