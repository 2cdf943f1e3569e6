//! Integer keys under which cells and connections are stored in hash sets.

use crate::graph::Links;
use crate::grid::in_grid;
use crate::grid::Position;
use vstd::prelude::*;

verus! {

/// The key of a cell: its place when the grid is read row by row.
pub open spec fn cell_key(width: usize, pos: Position) -> int {
    pos.y * width + pos.x
}

/// The key of a connection: the key of its first cell in the upper 64 bits,
/// that of its second cell in the lower 64 bits.
pub open spec fn link_key(width: usize, a: Position, b: Position) -> int {
    cell_key(width, a) * 0x1_0000_0000_0000_0000 + cell_key(width, b)
}

/// The connections between cells of the grid whose keys `keys` holds.
pub open spec fn links_of(width: usize, height: usize, keys: Set<u128>) -> Links {
    Set::new(
        |e: (Position, Position)|
            in_grid(width, height, e.0) && in_grid(width, height, e.1) && keys.contains(
                link_key(width, e.0, e.1) as u128,
            ),
    )
}

/// The key of a cell of the grid is below the number of cells.
pub proof fn lemma_cell_key_bound(width: usize, height: usize, pos: Position)
    requires
        in_grid(width, height, pos),
    ensures
        0 <= cell_key(width, pos) < width * height,
{
    assert(pos.y * width + pos.x < width * height) by (nonlinear_arith)
        requires
            pos.x < width,
            pos.y < height,
    ;
}

/// Two cells in columns of the grid with one key are one cell.
pub proof fn lemma_cell_key_injective(width: usize, a: Position, b: Position)
    requires
        a.x < width,
        b.x < width,
        cell_key(width, a) == cell_key(width, b),
    ensures
        a == b,
{
    assert(a.y == b.y) by (nonlinear_arith)
        requires
            a.x < width,
            b.x < width,
            0 <= a.x,
            0 <= b.x,
            a.y * width + a.x == b.y * width + b.x,
    ;
}

/// Every number below the number of cells is the key of a cell of the grid.
pub proof fn lemma_cell_key_onto(width: usize, height: usize, key: int) -> (pos: Position)
    requires
        0 <= key < width * height,
    ensures
        in_grid(width, height, pos),
        cell_key(width, pos) == key,
{
    assert(width > 0) by (nonlinear_arith)
        requires
            0 <= key < width * height,
    ;
    let x = key % (width as int);
    let y = key / (width as int);
    assert(0 <= x < width && 0 <= y < height && y * width + x == key) by (nonlinear_arith)
        requires
            width > 0,
            0 <= key < width * height,
            x == key % (width as int),
            y == key / (width as int),
    ;
    Position { x: x as usize, y: y as usize }
}

/// Two connections between cells of the grid with one key are one
/// connection.
pub proof fn lemma_link_key_injective(
    width: usize,
    height: usize,
    a: Position,
    b: Position,
    c: Position,
    d: Position,
)
    requires
        width * height <= usize::MAX,
        in_grid(width, height, a),
        in_grid(width, height, b),
        in_grid(width, height, c),
        in_grid(width, height, d),
        link_key(width, a, b) == link_key(width, c, d),
    ensures
        a == c,
        b == d,
{
    lemma_cell_key_bound(width, height, a);
    lemma_cell_key_bound(width, height, b);
    lemma_cell_key_bound(width, height, c);
    lemma_cell_key_bound(width, height, d);
    lemma_cell_key_injective(width, a, c);
    lemma_cell_key_injective(width, b, d);
}

/// A finite set of numbers below `n` has at most `n` elements.
pub proof fn lemma_bounded_set_len(s: Set<usize>, n: nat)
    requires
        s.finite(),
        forall|k: usize| #[trigger] s.contains(k) ==> k < n,
    ensures
        s.len() <= n,
    decreases n,
{
    if n == 0 {
        assert(s =~= Set::empty());
    } else {
        let top = (n - 1) as usize;
        if n - 1 <= usize::MAX && s.contains(top) {
            lemma_bounded_set_len(s.remove(top), (n - 1) as nat);
        } else {
            lemma_bounded_set_len(s, (n - 1) as nat);
        }
    }
}

/// A finite set that holds exactly the numbers below `n` has `n` elements.
pub proof fn lemma_full_set_len(s: Set<usize>, n: nat)
    requires
        s.finite(),
        n <= usize::MAX,
        forall|k: usize| #[trigger] s.contains(k) <==> k < n,
    ensures
        s.len() == n,
    decreases n,
{
    if n == 0 {
        assert(s =~= Set::empty());
    } else {
        let top = (n - 1) as usize;
        lemma_full_set_len(s.remove(top), (n - 1) as nat);
    }
}

/// Computes the key of a cell of the grid.
pub fn cell_index(width: usize, height: usize, pos: Position) -> (key: usize)
    requires
        width * height <= usize::MAX,
        in_grid(width, height, pos),
    ensures
        key == cell_key(width, pos),
{
    proof {
        lemma_cell_key_bound(width, height, pos);
        assert(0 <= pos.y * width <= pos.y * width + pos.x) by (nonlinear_arith);
    }
    pos.y * width + pos.x
}

/// Computes the key of a connection between two cells of the grid.
pub fn link_index(width: usize, height: usize, a: Position, b: Position) -> (key: u128)
    requires
        width * height <= usize::MAX,
        in_grid(width, height, a),
        in_grid(width, height, b),
    ensures
        key == link_key(width, a, b),
{
    let upper: u128 = cell_index(width, height, a) as u128;
    let lower: u128 = cell_index(width, height, b) as u128;
    upper * 0x1_0000_0000_0000_0000 + lower
}

} // verus!
