//! The kind of spot on which a penguin stands, told from which of the six
//! neighbors of its field have fish.

use crate::game::rules::{index_of, BoardView};
use crate::game::{Doubled, State, Vec2};
use vstd::prelude::*;

verus! {

/// Whether both coordinates of the point lie between zero and seven.
pub open spec fn within_eight(p: Vec2<Doubled>) -> bool {
    0 <= p.x < 8 && 0 <= p.y < 8
}

/// Whether the `i`-th neighbor of the point counts as a field with fish: it
/// has fish, and both of its coordinates lie between zero and seven.
pub open spec fn fishy_neighbor(b: BoardView, root: Vec2<Doubled>, i: int) -> bool {
    let p = root.spec_sliding(i, 1);
    within_eight(p) && b[index_of(p)].fish > 0
}

/// The neighbors of a point in the order of the directions, each with
/// whether it counts as a field with fish.
pub open spec fn ring(b: BoardView, root: Vec2<Doubled>) -> Seq<bool> {
    Seq::new(6, |i: int| fishy_neighbor(b, root, i))
}

/// Whether the `i`-th neighbor of a ring starts or carries on a run: it has
/// fish, and so has the next, or else the one before has none.
pub open spec fn counted(ring: Seq<bool>, i: int) -> bool {
    ring[i] && (ring[(i + 1) % 6] || !ring[(i + 5) % 6])
}

/// The number of counted neighbors among the first `n`.
pub open spec fn count(ring: Seq<bool>, n: int) -> nat
    decreases n,
{
    if n <= 0 {
        0
    } else {
        count(ring, n - 1) + if counted(ring, n - 1) {
            1nat
        } else {
            0nat
        }
    }
}

/// Whether a neighbor with fish stands alone: neither the next nor the one
/// before has fish.
pub open spec fn lone(ring: Seq<bool>) -> bool {
    exists|i: int| 0 <= i < 6 && #[trigger] ring[i] && !ring[(i + 1) % 6] && !ring[(i + 5) % 6]
}

/// Whether two neighbors with fish lie side by side.
pub open spec fn paired(ring: Seq<bool>) -> bool {
    exists|i: int| 0 <= i < 6 && #[trigger] ring[i] && ring[(i + 1) % 6]
}

/// Whether a neighbor without fish lies across from another without fish.
pub open spec fn empty_across(ring: Seq<bool>) -> bool {
    exists|i: int| 0 <= i < 6 && !#[trigger] ring[i] && !ring[(i + 3) % 6]
}

/// Whether a neighbor without fish lies across from one with fish.
pub open spec fn uneven(ring: Seq<bool>) -> bool {
    exists|i: int| 0 <= i < 6 && !#[trigger] ring[i] && ring[(i + 3) % 6]
}

/// The name of the spot with the given ring: `y` for a single counted
/// neighbor that stands alone or leaves a gap across the ring, `b` where no
/// two neighbors with fish lie side by side and the ring is uneven, `r`
/// where a neighbor stands alone or two counted ones leave a gap across the
/// ring, and `w` for all others.
pub open spec fn spot_name(ring: Seq<bool>) -> char {
    let red = lone(ring) || (empty_across(ring) && count(ring, 6) == 2);
    if count(ring, 6) == 1 && red {
        'y'
    } else if !paired(ring) && uneven(ring) {
        'b'
    } else if red {
        'r'
    } else {
        'w'
    }
}

/// Whether both coordinates of the point lie between zero and seven.
pub fn own_is_valid(cord: Vec2<Doubled>) -> (r: bool)
    ensures
        r == within_eight(cord),
{
    0 <= cord.x && cord.x < 8 && 0 <= cord.y && cord.y < 8
}

/// The name of the spot at the point `root` on the board of the state.
pub fn get_spot_name(gamestate: &State, root: Vec2<Doubled>) -> (r: char)
    requires
        root.roomy(),
    ensures
        r == spot_name(ring(gamestate@.board, root)),
{
    let ghost b = gamestate@.board;
    let ghost wanted = ring(b, root);
    let around = root.hex_neighbors();
    let mut neighbors: Vec<bool> = Vec::new();
    let mut k: usize = 0;
    while k < 6
        invariant
            k <= 6,
            b == gamestate@.board,
            wanted == ring(b, root),
            forall|i: int| 0 <= i < 6 ==> around[i] == root.spec_sliding(i, 1),
            neighbors@.len() == k,
            forall|i: int| 0 <= i < k ==> #[trigger] neighbors@[i] == wanted[i],
        decreases 6 - k,
    {
        let n = around[k];
        if own_is_valid(n) {
            neighbors.push(gamestate.board().at(n).fish() > 0);
        } else {
            neighbors.push(false);
        }
        k = k + 1;
    }
    assert(neighbors@ =~= wanted);
    let mut counted_so_far: usize = 0;
    let mut redspot = false;
    let mut blackspot = true;
    let mut empty_mirror = false;
    let mut mirror = true;
    let mut i: usize = 0;
    while i < 6
        invariant
            i <= 6,
            neighbors@ == wanted,
            wanted.len() == 6,
            counted_so_far == count(wanted, i as int),
            counted_so_far <= i,
            redspot <==> exists|j: int|
                0 <= j < i && #[trigger] wanted[j] && !wanted[(j + 1) % 6] && !wanted[(j + 5) % 6],
            !blackspot <==> exists|j: int| 0 <= j < i && #[trigger] wanted[j] && wanted[(j + 1) % 6],
            empty_mirror <==> exists|j: int|
                0 <= j < i && !#[trigger] wanted[j] && !wanted[(j + 3) % 6],
            !mirror <==> exists|j: int| 0 <= j < i && !#[trigger] wanted[j] && wanted[(j + 3) % 6],
        decreases 6 - i,
    {
        if neighbors[i] {
            if neighbors[(i + 1) % 6] {
                counted_so_far = counted_so_far + 1;
                blackspot = false;
            } else if !neighbors[(i + 5) % 6] {
                counted_so_far = counted_so_far + 1;
                redspot = true;
            }
        } else if !neighbors[(i + 3) % 6] {
            empty_mirror = true;
        } else {
            mirror = false;
        }
        proof {
            let j = i as int;
            assert(wanted[j] == neighbors@[j]);
        }
        i = i + 1;
    }
    if empty_mirror && counted_so_far == 2 {
        redspot = true;
    }
    if counted_so_far == 1 && redspot {
        'y'
    } else if blackspot && !mirror {
        'b'
    } else if redspot {
        'r'
    } else {
        'w'
    }
}

} // verus!
