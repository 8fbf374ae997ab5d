//! Orders of the moves of a state: which lists order all moves, and how
//! moves are ranked by the values that a search has found for them.

use crate::scoring_funcs::Score;
use vstd::prelude::*;

verus! {

/// Whether the list holds each index below `n` exactly once: it has `n`
/// items, all below `n`, no two of them the same, and none is missing.
pub open spec fn is_permutation(order: Seq<usize>, n: nat) -> bool {
    &&& order.len() == n
    &&& forall|j: int| 0 <= j < n ==> (#[trigger] order[j]) < n
    &&& forall|p: int, q: int| 0 <= p < q < n ==> (#[trigger] order[p]) != (#[trigger] order[q])
    &&& forall|k: usize| k < n ==> #[trigger] order.contains(k)
}

/// The indices below `n` in rising order.
pub open spec fn natural_order(n: nat) -> Seq<usize> {
    Seq::new(n, |j: int| j as usize)
}

/// The order in which the moves of a state with `n` moves are searched: the
/// hint where it orders them all, else their natural order.
pub open spec fn search_order(hint: Seq<usize>, n: nat) -> Seq<usize> {
    if is_permutation(hint, n) {
        hint
    } else {
        natural_order(n)
    }
}

/// Whether a move with the value `a` is to be searched before one with the
/// value `b` that was ranked earlier: it is at least as good for the side
/// that moves.
pub open spec fn outranks(upward: bool, a: int, b: int) -> bool {
    if upward {
        a >= b
    } else {
        a <= b
    }
}

/// The ranking with the index `x` put in: before the first index that it
/// outranks.
pub open spec fn rank_in(ranking: Seq<usize>, x: usize, values: Seq<int>, upward: bool) -> Seq<
    usize,
>
    decreases ranking.len(),
{
    if ranking.len() == 0 {
        seq![x]
    } else if outranks(upward, values[x as int], values[ranking[0] as int]) {
        seq![x] + ranking
    } else {
        seq![ranking[0]] + rank_in(ranking.drop_first(), x, values, upward)
    }
}

/// The first `n` indices of an order, ranked by their values, best first for
/// the side that moves; of two with the same value, the one that came later
/// in the order is first.
pub open spec fn ranked(order: Seq<usize>, values: Seq<int>, upward: bool, n: int) -> Seq<usize>
    decreases n,
{
    if n <= 0 {
        Seq::empty()
    } else {
        rank_in(ranked(order, values, upward, n - 1), order[n - 1], values, upward)
    }
}

/// Putting an index in at the first place where it outranks what follows
/// gives the ranking with the index put in.
pub proof fn lemma_rank_in(ranking: Seq<usize>, x: usize, values: Seq<int>, upward: bool, p: int)
    requires
        0 <= p <= ranking.len(),
        forall|q: int|
            0 <= q < p ==> !outranks(upward, values[x as int], values[#[trigger] ranking[q] as int]),
        p < ranking.len() ==> outranks(upward, values[x as int], values[ranking[p] as int]),
    ensures
        rank_in(ranking, x, values, upward) == ranking.insert(p, x),
    decreases p,
{
    if p == 0 {
        if ranking.len() == 0 {
            assert(ranking.insert(0, x) =~= seq![x]);
        } else {
            assert(ranking.insert(0, x) =~= seq![x] + ranking);
        }
    } else {
        assert(!outranks(upward, values[x as int], values[ranking[0] as int]));
        let rest = ranking.drop_first();
        assert forall|q: int| 0 <= q < p - 1 implies !outranks(
            upward,
            values[x as int],
            values[#[trigger] rest[q] as int],
        ) by {
            assert(rest[q] == ranking[q + 1]);
        }
        lemma_rank_in(rest, x, values, upward, p - 1);
        assert(ranking.insert(p, x) =~= seq![ranking[0]] + rest.insert(p - 1, x));
    }
}

/// Whether the list holds each index below `n` exactly once.
pub fn valid_order(order: &Vec<usize>, n: usize) -> (r: bool)
    ensures
        r == is_permutation(order@, n as nat),
{
    if order.len() != n {
        return false;
    }
    let mut seen: Vec<bool> = Vec::new();
    let mut k: usize = 0;
    while k < n
        invariant
            k <= n,
            seen@.len() == k,
            forall|q: int| 0 <= q < k ==> !(#[trigger] seen@[q]),
        decreases n - k,
    {
        seen.push(false);
        k = k + 1;
    }
    let mut j: usize = 0;
    while j < n
        invariant
            j <= n,
            order@.len() == n,
            seen@.len() == n,
            forall|q: int| 0 <= q < j ==> (#[trigger] order@[q]) < n,
            forall|p: int, q: int|
                0 <= p < q < j ==> (#[trigger] order@[p]) != (#[trigger] order@[q]),
            forall|k: int|
                0 <= k < n ==> (#[trigger] seen@[k] <==> exists|q: int|
                    0 <= q < j && #[trigger] order@[q] == k),
        decreases n - j,
    {
        let k = order[j];
        if k >= n {
            return false;
        }
        if seen[k] {
            let ghost q = choose|q: int| 0 <= q < j && #[trigger] order@[q] == k;
            assert(order@[q] == order@[j as int]);
            return false;
        }
        let ghost before = seen@;
        seen.set(k, true);
        assert forall|h: int| 0 <= h < n implies (#[trigger] seen@[h] <==> exists|q: int|
            0 <= q < j + 1 && #[trigger] order@[q] == h) by {
            if h == k {
                assert(order@[j as int] == h);
            } else {
                if before[h] {
                    let q = choose|q: int| 0 <= q < j && #[trigger] order@[q] == h;
                    assert(0 <= q < j + 1 && order@[q] == h);
                }
                if exists|q: int| 0 <= q < j + 1 && #[trigger] order@[q] == h {
                    let q = choose|q: int| 0 <= q < j + 1 && #[trigger] order@[q] == h;
                    assert(q < j);
                }
            }
        }
        j = j + 1;
    }
    let mut k: usize = 0;
    while k < n
        invariant
            k <= n,
            seen@.len() == n,
            forall|h: int|
                0 <= h < n ==> (#[trigger] seen@[h] <==> exists|q: int|
                    0 <= q < n && #[trigger] order@[q] == h),
            forall|h: int| 0 <= h < k ==> #[trigger] seen@[h],
        decreases n - k,
    {
        if !seen[k] {
            proof {
                if order@.contains(k) {
                    let q = choose|q: int| 0 <= q < order@.len() && order@[q] == k;
                    assert(order@[q] == k);
                }
            }
            return false;
        }
        k = k + 1;
    }
    assert forall|h: usize| h < n implies #[trigger] order@.contains(h) by {
        assert(seen@[h as int]);
        let q = choose|q: int| 0 <= q < n && #[trigger] order@[q] == h;
        assert(order@[q] == h);
    }
    true
}

/// Whether a move with the value `a` is to be searched before one with the
/// value `b` that was ranked earlier.
pub fn goes_before(upward: bool, a: Score, b: Score) -> (r: bool)
    ensures
        r == outranks(upward, a as int, b as int),
{
    if upward {
        a >= b
    } else {
        a <= b
    }
}

/// The indices of an order ranked by their values, best first.
pub fn rank(order: &Vec<usize>, values: &Vec<Score>, upward: bool) -> (r: Vec<usize>)
    requires
        forall|j: int| 0 <= j < order@.len() ==> (#[trigger] order@[j]) < values@.len(),
    ensures
        r@ == ranked(order@, values@.map_values(|v: Score| v as int), upward, order@.len() as int),
        forall|q: int| 0 <= q < r@.len() ==> (#[trigger] r@[q]) < values@.len(),
{
    let ghost ints = values@.map_values(|v: Score| v as int);
    let mut out: Vec<usize> = Vec::new();
    let mut n: usize = 0;
    while n < order.len()
        invariant
            n <= order@.len(),
            ints == values@.map_values(|v: Score| v as int),
            forall|j: int| 0 <= j < order@.len() ==> (#[trigger] order@[j]) < values@.len(),
            out@ == ranked(order@, ints, upward, n as int),
            out@.len() == n,
            forall|q: int| 0 <= q < out@.len() ==> (#[trigger] out@[q]) < values@.len(),
        decreases order@.len() - n,
    {
        let x = order[n];
        let mine = values[x];
        let mut p: usize = 0;
        while p < out.len() && !goes_before(upward, mine, values[out[p]])
            invariant
                p <= out@.len(),
                x < values@.len(),
                mine == values@[x as int],
                ints == values@.map_values(|v: Score| v as int),
                forall|q: int| 0 <= q < out@.len() ==> (#[trigger] out@[q]) < values@.len(),
                forall|q: int|
                    0 <= q < p ==> !outranks(upward, ints[x as int], ints[#[trigger] out@[q] as int]),
            decreases out@.len() - p,
        {
            p = p + 1;
        }
        proof {
            lemma_rank_in(out@, x, ints, upward, p as int);
        }
        out.insert(p, x);
        n = n + 1;
    }
    out
}

/// The indices below `n` in rising order.
pub fn natural(n: usize) -> (r: Vec<usize>)
    ensures
        r@ == natural_order(n as nat),
{
    let mut out: Vec<usize> = Vec::new();
    let mut k: usize = 0;
    while k < n
        invariant
            k <= n,
            out@ == natural_order(k as nat),
        decreases n - k,
    {
        out.push(k);
        k = k + 1;
    }
    out
}

} // verus!
