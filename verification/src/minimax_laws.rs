//! What holds of the search: whatever the order in which it takes the moves
//! of a node, it is sound, and with the full window the search of a root
//! finds the minimax value and a move that leads to it.

use crate::deepening::SearchError;
use crate::game::laws::{lemma_perform, lemma_possible_moves_bound, lemma_possible_moves_legal};
use crate::game::{Move, StateView, Team};
use crate::minimax::{
    alpha_beta, best_value, better, child_value, deepen, deepening_result, depth_cap, is_leaf,
    is_stuck, lemma_one_ply, maximizing, node_order, node_value, perspective, plies,
    quick_below, quick_values, root_search, search_from, start_of, worst, Reached, QUICK_PLIES,
};
use crate::ordering::{is_permutation, natural_order, outranks, rank_in, ranked, search_order};
use crate::scoring_funcs::{Evaluator, LOSS, WIN};
use vstd::prelude::*;

verus! {

/// The best of the values of the successor states to which the first `j`
/// indices of an order lead.
pub open spec fn best_over<E: Evaluator>(
    e: &E,
    s: StateView,
    me: Team,
    depth: nat,
    order: Seq<usize>,
    j: int,
) -> int
    decreases j,
{
    if j <= 0 {
        worst(s, me)
    } else {
        better(
            s,
            me,
            best_over(e, s, me, depth, order, j - 1),
            child_value(e, s, me, depth, order[j - 1] as int),
        )
    }
}

/// Whether the value `a` is at least as good as `b` for the side that moves
/// in the state.
pub open spec fn as_good(s: StateView, me: Team, a: int, b: int) -> bool {
    if maximizing(s, me) {
        a >= b
    } else {
        a <= b
    }
}

/// The best of the first values is at least as good as the worst value and
/// as each of these values, and it is one of them.
pub proof fn lemma_best_over<E: Evaluator>(
    e: &E,
    s: StateView,
    me: Team,
    depth: nat,
    order: Seq<usize>,
    j: int,
)
    requires
        0 <= j <= order.len(),
    ensures
        as_good(s, me, best_over(e, s, me, depth, order, j), worst(s, me)),
        forall|q: int|
            0 <= q < j ==> as_good(
                s,
                me,
                best_over(e, s, me, depth, order, j),
                #[trigger] child_value(e, s, me, depth, order[q] as int),
            ),
        best_over(e, s, me, depth, order, j) == worst(s, me) || exists|q: int|
            0 <= q < j && #[trigger] child_value(e, s, me, depth, order[q] as int) == best_over(
                e,
                s,
                me,
                depth,
                order,
                j,
            ),
    decreases j,
{
    if j > 0 {
        lemma_best_over(e, s, me, depth, order, j - 1);
        let before = best_over(e, s, me, depth, order, j - 1);
        let last = child_value(e, s, me, depth, order[j - 1] as int);
        let now = best_over(e, s, me, depth, order, j);
        if now == last {
            assert(child_value(e, s, me, depth, order[j - 1] as int) == now);
        } else if before != worst(s, me) {
            let q = choose|q: int|
                0 <= q < j - 1 && #[trigger] child_value(e, s, me, depth, order[q] as int)
                    == before;
            assert(child_value(e, s, me, depth, order[q] as int) == now);
        }
    }
}

/// The best over an order that leaves out no index of another is at least
/// as good as the best over that other order.
pub proof fn lemma_best_over_covers<E: Evaluator>(
    e: &E,
    s: StateView,
    me: Team,
    depth: nat,
    wide: Seq<usize>,
    narrow: Seq<usize>,
)
    requires
        forall|q: int| 0 <= q < narrow.len() ==> wide.contains(#[trigger] narrow[q]),
    ensures
        as_good(
            s,
            me,
            best_over(e, s, me, depth, wide, wide.len() as int),
            best_over(e, s, me, depth, narrow, narrow.len() as int),
        ),
{
    lemma_best_over(e, s, me, depth, wide, wide.len() as int);
    lemma_best_over(e, s, me, depth, narrow, narrow.len() as int);
    let small = best_over(e, s, me, depth, narrow, narrow.len() as int);
    if small != worst(s, me) {
        let q = choose|q: int|
            0 <= q < narrow.len() && #[trigger] child_value(e, s, me, depth, narrow[q] as int)
                == small;
        assert(wide.contains(narrow[q]));
        let p = choose|p: int| 0 <= p < wide.len() && wide[p] == narrow[q];
        assert(child_value(e, s, me, depth, wide[p] as int) == small);
    }
}

/// The best over the natural order is the best of the values.
pub proof fn lemma_best_over_natural<E: Evaluator>(
    e: &E,
    s: StateView,
    me: Team,
    depth: nat,
    n: nat,
    j: int,
)
    requires
        0 <= j <= n <= usize::MAX,
        depth > 0,
    ensures
        best_over(e, s, me, depth, natural_order(n), j) == best_value(e, s, me, depth, j),
    decreases j,
{
    if j > 0 {
        lemma_best_over_natural(e, s, me, depth, n, j - 1);
        assert(natural_order(n)[j - 1] as int == j - 1);
    }
}

/// The order in which the moves are taken does not change the best of their
/// values.
pub proof fn lemma_best_over_permutation<E: Evaluator>(
    e: &E,
    s: StateView,
    me: Team,
    depth: nat,
    order: Seq<usize>,
    n: nat,
)
    requires
        is_permutation(order, n),
        n <= usize::MAX,
        depth > 0,
    ensures
        best_over(e, s, me, depth, order, n as int) == best_value(e, s, me, depth, n as int),
{
    let natural = natural_order(n);
    lemma_best_over_natural(e, s, me, depth, n, n as int);
    assert forall|q: int| 0 <= q < n implies order.contains(#[trigger] natural[q]) by {
        assert(order.contains(q as usize));
    }
    assert forall|q: int| 0 <= q < n implies natural.contains(#[trigger] order[q]) by {
        assert(natural[order[q] as int] == order[q]);
    }
    lemma_best_over_covers(e, s, me, depth, order, natural);
    lemma_best_over_covers(e, s, me, depth, natural, order);
}

/// The minimax value of a valid state lies between the value of a loss and
/// that of a win.
pub proof fn lemma_node_value_range<E: Evaluator>(e: &E, s: StateView, me: Team, depth: nat)
    requires
        s.wf(),
    ensures
        LOSS <= node_value(e, s, me, depth) <= WIN,
    decreases depth, 1nat, 0nat,
{
    if is_leaf(s, depth) || is_stuck(s, depth) {
        if !s.is_over() {
            e.lemma_score_range(s, perspective(s, me));
        }
    } else {
        lemma_best_value_range(e, s, me, depth, s.possible_moves().len() as int);
    }
}

/// The best of the first values of a valid state lies in the same range,
/// and so does each of these values.
pub proof fn lemma_best_value_range<E: Evaluator>(
    e: &E,
    s: StateView,
    me: Team,
    depth: nat,
    n: int,
)
    requires
        s.wf(),
        depth > 0,
        0 <= n <= s.possible_moves().len(),
    ensures
        LOSS <= best_value(e, s, me, depth, n) <= WIN,
        forall|k: int| 0 <= k < n ==> LOSS <= #[trigger] child_value(e, s, me, depth, k) <= WIN,
    decreases depth, 0nat, n,
{
    if n > 0 {
        lemma_best_value_range(e, s, me, depth, n - 1);
        let m = s.possible_moves()[n - 1];
        lemma_possible_moves_legal(s, m);
        lemma_perform(s, m);
        lemma_node_value_range(e, s.perform(m), me, (depth - 1) as nat);
        assert(child_value(e, s, me, depth, n - 1) == node_value(
            e,
            s.perform(m),
            me,
            (depth - 1) as nat,
        ));
    }
}

/// Whether the `k`-th move leads to a state whose value the found value
/// bounds from the side of the window that it has passed, and equals where
/// it has passed neither side.
pub open spec fn leads_to<E: Evaluator>(
    e: &E,
    s: StateView,
    me: Team,
    depth: nat,
    k: int,
    alpha: int,
    beta: int,
    value: int,
) -> bool {
    let exact = child_value(e, s, me, depth, k);
    if maximizing(s, me) {
        value > alpha ==> exact >= value && (value < beta ==> exact == value)
    } else {
        value < beta ==> exact <= value && (value > alpha ==> exact == value)
    }
}

/// Whether what the search of a root has reached fits the first `j` moves
/// of the order, for the window from `alpha0` to `beta0` with which the
/// search began: the value bounds or equals the best of the values as the
/// soundness of the search says, the best move is a move of the state, and
/// where the value lies within the window the best move leads to it.
pub open spec fn fits<E: Evaluator>(
    e: &E,
    s: StateView,
    me: Team,
    depth: nat,
    order: Seq<usize>,
    j: int,
    alpha0: int,
    beta0: int,
    reached: Reached,
) -> bool {
    let so_far = best_over(e, s, me, depth, order, j);
    &&& exists|k: int|
        0 <= k < s.possible_moves().len() && #[trigger] s.possible_moves()[k] == reached.best
            && leads_to(e, s, me, depth, k, alpha0, beta0, reached.value)
    &&& maximizing(s, me) ==> {
        &&& reached.value <= alpha0 ==> so_far <= reached.value
        &&& reached.value > alpha0 ==> so_far == reached.value
    }
    &&& !maximizing(s, me) ==> {
        &&& reached.value >= beta0 ==> so_far >= reached.value
        &&& reached.value < beta0 ==> so_far == reached.value
    }
}

/// The alpha-beta search is sound. For an open window of scores, where it
/// does not fail, what it returns is the minimax value if it lies within the
/// window; if it lies at or below `alpha` it is an upper bound of the
/// minimax value, and at or above `beta` a lower bound. This holds for any
/// number of plies for which the moves are ranked ahead of their search.
pub proof fn lemma_alpha_beta<E: Evaluator>(
    e: &E,
    s: StateView,
    me: Team,
    alpha: int,
    beta: int,
    depth: nat,
    depth2: int,
)
    requires
        LOSS <= alpha < beta <= WIN,
    ensures
        alpha_beta(e, s, me, alpha, beta, depth, depth2) matches Ok(outcome) ==> ({
            let found = outcome.value;
            let exact = node_value(e, s, me, depth);
            &&& found <= alpha ==> exact <= found
            &&& found >= beta ==> exact >= found
            &&& alpha < found < beta ==> exact == found
        }),
    decreases depth, 1nat, 0nat,
{
    if !is_leaf(s, depth) && !is_stuck(s, depth) {
        let n = s.possible_moves().len();
        let order = node_order(e, s, me, depth2);
        lemma_possible_moves_bound(s);
        lemma_node_order(e, s, me, depth2);
        assert(s.possible_moves()[0] == start_of(s, me).best);
        lemma_search_from(e, s, me, depth, depth2, order, 0, alpha, beta, alpha, beta, start_of(s, me));
        lemma_best_over_permutation(e, s, me, depth, order, n);
    }
}

/// The order in which a node takes its moves orders them all.
pub proof fn lemma_node_order<E: Evaluator>(e: &E, s: StateView, me: Team, depth2: int)
    ensures
        is_permutation(node_order(e, s, me, depth2), s.possible_moves().len()),
{
    let n = s.possible_moves().len();
    lemma_possible_moves_bound(s);
    let natural = natural_order(n);
    assert(is_permutation(natural, n)) by {
        assert forall|k: usize| k < n implies #[trigger] natural.contains(k) by {
            assert(natural[k as int] == k);
        }
    }
    if depth2 > 0 {
        lemma_ranking_orders_all(natural, quick_values(e, s, me), maximizing(s, me), n);
    }
}

/// What the search of a node reaches is sound, for any order of its moves.
pub proof fn lemma_search_from<E: Evaluator>(
    e: &E,
    s: StateView,
    me: Team,
    depth: nat,
    depth2: int,
    order: Seq<usize>,
    j: int,
    alpha0: int,
    beta0: int,
    alpha: int,
    beta: int,
    reached: Reached,
)
    requires
        depth > 0,
        0 <= j <= order.len(),
        forall|q: int| 0 <= q < order.len() ==> (#[trigger] order[q]) < s.possible_moves().len(),
        LOSS <= alpha0 < beta0 <= WIN,
        alpha < beta,
        fits(e, s, me, depth, order, j, alpha0, beta0, reached),
        maximizing(s, me) ==> beta == beta0 && alpha == (if reached.value > alpha0 {
            reached.value
        } else {
            alpha0
        }),
        !maximizing(s, me) ==> alpha == alpha0 && beta == (if reached.value < beta0 {
            reached.value
        } else {
            beta0
        }),
    ensures
        search_from(e, s, me, depth, depth2, order, j, alpha, beta, reached) matches Ok(end) ==> ({
            let exact = best_over(e, s, me, depth, order, order.len() as int);
            &&& end.value <= alpha0 ==> exact <= end.value
            &&& end.value >= beta0 ==> exact >= end.value
            &&& alpha0 < end.value < beta0 ==> exact == end.value
            &&& exists|k: int|
                0 <= k < s.possible_moves().len() && #[trigger] s.possible_moves()[k] == end.best
                    && leads_to(e, s, me, depth, k, alpha0, beta0, end.value)
        }),
    decreases depth, 0nat, order.len() - j,
{
    let moves = s.possible_moves();
    let n = order.len() as int;
    if j < n {
        let k = order[j] as int;
        let child = s.perform(moves[k]);
        let below = (depth - 1) as nat;
        lemma_alpha_beta(e, child, me, alpha, beta, below, quick_below(depth2));
        lemma_best_over_grows(e, s, me, depth, order, j + 1, n);
        assert(child_value(e, s, me, depth, k) == node_value(e, child, me, below));
        let searched = alpha_beta(e, child, me, alpha, beta, below, quick_below(depth2));
        if searched is Err {
            return ;
        }
        let found = searched->Ok_0.value;
        let improved = if maximizing(s, me) {
            found > reached.value
        } else {
            found < reached.value
        };
        let next = Reached {
            value: if improved {
                found
            } else {
                reached.value
            },
            best: if improved {
                moves[k]
            } else {
                reached.best
            },
            values: reached.values.update(k, found),
        };
        let next_alpha = if maximizing(s, me) && next.value > alpha {
            next.value
        } else {
            alpha
        };
        let next_beta = if !maximizing(s, me) && next.value < beta {
            next.value
        } else {
            beta
        };
        if improved {
            assert(moves[k] == next.best);
        } else {
            let h = choose|h: int|
                0 <= h < moves.len() && #[trigger] moves[h] == reached.best && leads_to(
                    e,
                    s,
                    me,
                    depth,
                    h,
                    alpha0,
                    beta0,
                    reached.value,
                );
            assert(moves[h] == next.best);
        }
        if next_alpha < next_beta {
            assert(fits(e, s, me, depth, order, j + 1, alpha0, beta0, next));
            lemma_search_from(
                e,
                s,
                me,
                depth,
                depth2,
                order,
                j + 1,
                alpha0,
                beta0,
                next_alpha,
                next_beta,
                next,
            );
        }
    }
}

/// The best of the first values over an order is no better than the best
/// of all.
pub proof fn lemma_best_over_grows<E: Evaluator>(
    e: &E,
    s: StateView,
    me: Team,
    depth: nat,
    order: Seq<usize>,
    i: int,
    n: int,
)
    requires
        0 <= i <= n,
    ensures
        as_good(
            s,
            me,
            best_over(e, s, me, depth, order, n),
            best_over(e, s, me, depth, order, i),
        ),
    decreases n - i,
{
    if i < n {
        lemma_best_over_grows(e, s, me, depth, order, i, n - 1);
    }
}

/// The search of a root is sound, whatever the hint: for an open window of
/// scores, where it does not fail, the value that it returns is the minimax value of the state if it
/// lies within the window, an upper bound of it if it lies at or below
/// `alpha`, and a lower bound at or above `beta`. The move that it returns
/// leads to a state of that value where the value lies within the window.
pub proof fn lemma_root_search_sound<E: Evaluator>(
    e: &E,
    s: StateView,
    me: Team,
    alpha: int,
    beta: int,
    depth: nat,
    depth2: int,
    hint: Seq<usize>,
)
    requires
        LOSS <= alpha < beta <= WIN,
    ensures
        root_search(e, s, me, alpha, beta, depth, depth2, hint) matches Ok(found) ==> ({
            let exact = node_value(e, s, me, depth);
            &&& found.value <= alpha ==> exact <= found.value
            &&& found.value >= beta ==> exact >= found.value
            &&& alpha < found.value < beta ==> exact == found.value
            &&& found.best is None <==> is_leaf(s, depth)
            &&& found.best matches Some(m) ==> exists|k: int|
                0 <= k < s.possible_moves().len() && #[trigger] s.possible_moves()[k] == m
                    && leads_to(e, s, me, depth, k, alpha, beta, found.value)
        }),
{
    if !is_leaf(s, depth) && !is_stuck(s, depth) {
        let n = s.possible_moves().len();
        lemma_possible_moves_bound(s);
        let order = search_order(hint, n);
        assert(is_permutation(order, n)) by {
            if !is_permutation(hint, n) {
                assert forall|k: usize| k < n implies #[trigger] order.contains(k) by {
                    assert(order[k as int] == k);
                }
            }
        }
        let start = start_of(s, me);
        assert(s.possible_moves()[0] == start.best);
        lemma_search_from(e, s, me, depth, depth2, order, 0, alpha, beta, alpha, beta, start);
        lemma_best_over_permutation(e, s, me, depth, order, n);
    }
}

/// With the full window the search of a root is exact, whatever the hint:
/// on a valid state, where it does not fail, it returns the minimax value, and where the state has
/// moves to choose from, one of them that leads to a state of that value.
pub proof fn lemma_root_search_exact<E: Evaluator>(
    e: &E,
    s: StateView,
    me: Team,
    depth: nat,
    depth2: int,
    hint: Seq<usize>,
)
    requires
        s.wf(),
    ensures
        root_search(e, s, me, LOSS as int, WIN as int, depth, depth2, hint) matches Ok(found) ==> ({
            &&& found.value == node_value(e, s, me, depth)
            &&& found.best matches Some(m) ==> exists|k: int|
                0 <= k < s.possible_moves().len() && #[trigger] s.possible_moves()[k] == m
                    && child_value(e, s, me, depth, k) == found.value
        }),
{
    let searched = root_search(e, s, me, LOSS as int, WIN as int, depth, depth2, hint);
    lemma_root_search_sound(e, s, me, LOSS as int, WIN as int, depth, depth2, hint);
    lemma_node_value_range(e, s, me, depth);
    if searched is Ok && !is_leaf(s, depth) {
        let found = searched->Ok_0;
        let n = s.possible_moves().len() as int;
        lemma_possible_moves_bound(s);
        lemma_best_value_range(e, s, me, depth, n);
        lemma_best_over_natural(e, s, me, depth, n as nat, n);
        lemma_best_over(e, s, me, depth, natural_order(n as nat), n);
        let m = found.best->0;
        let k = choose|k: int|
            0 <= k < s.possible_moves().len() && #[trigger] s.possible_moves()[k] == m
                && leads_to(e, s, me, depth, k, LOSS as int, WIN as int, found.value);
        assert(natural_order(n as nat)[k] as int == k);
        assert(as_good(
            s,
            me,
            best_over(e, s, me, depth, natural_order(n as nat), n),
            child_value(e, s, me, depth, natural_order(n as nat)[k] as int),
        ));
        assert(LOSS <= child_value(e, s, me, depth, k) <= WIN);
    }
}

/// Whether the values of the indices never get better along the list, for
/// the side that moves.
pub open spec fn best_first(list: Seq<usize>, values: Seq<int>, upward: bool) -> bool {
    forall|a: int, b: int|
        0 <= a < b < list.len() ==> outranks(
            upward,
            values[#[trigger] list[a] as int],
            values[#[trigger] list[b] as int],
        )
}

/// Putting an index into a ranking puts it at one place and moves nothing
/// else; a ranking that is best first stays so.
pub proof fn lemma_rank_in_place(
    ranking: Seq<usize>,
    x: usize,
    values: Seq<int>,
    upward: bool,
) -> (p: int)
    ensures
        0 <= p <= ranking.len(),
        rank_in(ranking, x, values, upward) == ranking.insert(p, x),
        best_first(ranking, values, upward) ==> best_first(
            rank_in(ranking, x, values, upward),
            values,
            upward,
        ),
    decreases ranking.len(),
{
    let out = rank_in(ranking, x, values, upward);
    if ranking.len() == 0 {
        assert(ranking.insert(0, x) =~= seq![x]);
        0
    } else if outranks(upward, values[x as int], values[ranking[0] as int]) {
        assert(ranking.insert(0, x) =~= seq![x] + ranking);
        if best_first(ranking, values, upward) {
            assert forall|a: int, b: int| 0 <= a < b < out.len() implies outranks(
                upward,
                values[#[trigger] out[a] as int],
                values[#[trigger] out[b] as int],
            ) by {
                if a == 0 {
                    if b > 1 {
                        assert(outranks(
                            upward,
                            values[ranking[0] as int],
                            values[ranking[b - 1] as int],
                        ));
                    }
                } else {
                    assert(outranks(
                        upward,
                        values[ranking[a - 1] as int],
                        values[ranking[b - 1] as int],
                    ));
                }
            }
        }
        0
    } else {
        let rest = ranking.drop_first();
        let p = lemma_rank_in_place(rest, x, values, upward);
        let inner = rank_in(rest, x, values, upward);
        assert(ranking.insert(p + 1, x) =~= seq![ranking[0]] + rest.insert(p, x));
        if best_first(ranking, values, upward) {
            assert(best_first(rest, values, upward)) by {
                assert forall|a: int, b: int| 0 <= a < b < rest.len() implies outranks(
                    upward,
                    values[#[trigger] rest[a] as int],
                    values[#[trigger] rest[b] as int],
                ) by {
                    assert(outranks(
                        upward,
                        values[ranking[a + 1] as int],
                        values[ranking[b + 1] as int],
                    ));
                }
            }
            assert forall|a: int, b: int| 0 <= a < b < out.len() implies outranks(
                upward,
                values[#[trigger] out[a] as int],
                values[#[trigger] out[b] as int],
            ) by {
                if a == 0 {
                    if b - 1 < p {
                        assert(out[b] == ranking[b]);
                        assert(outranks(
                            upward,
                            values[ranking[0] as int],
                            values[ranking[b] as int],
                        ));
                    } else if b - 1 > p {
                        assert(out[b] == ranking[b - 1]);
                        assert(outranks(
                            upward,
                            values[ranking[0] as int],
                            values[ranking[b - 1] as int],
                        ));
                    }
                } else {
                    assert(outranks(
                        upward,
                        values[inner[a - 1] as int],
                        values[inner[b - 1] as int],
                    ));
                }
            }
        }
        p + 1
    }
}

/// The ranking of the first `n` indices of an order holds these indices, as
/// often as the order does, best first.
pub proof fn lemma_ranked(order: Seq<usize>, values: Seq<int>, upward: bool, n: int)
    requires
        0 <= n <= order.len(),
    ensures
        ranked(order, values, upward, n).to_multiset() == order.subrange(0, n).to_multiset(),
        ranked(order, values, upward, n).len() == n,
        best_first(ranked(order, values, upward, n), values, upward),
    decreases n,
{
    broadcast use vstd::seq_lib::group_to_multiset_ensures;

    if n == 0 {
        assert(order.subrange(0, 0) =~= Seq::<usize>::empty());
    } else {
        lemma_ranked(order, values, upward, n - 1);
        let before = ranked(order, values, upward, n - 1);
        let p = lemma_rank_in_place(before, order[n - 1], values, upward);
        assert(order.subrange(0, n) =~= order.subrange(0, n - 1).push(order[n - 1]));
        assert(before.insert(p, order[n - 1]).to_multiset() =~= before.to_multiset().insert(
            order[n - 1],
        ));
    }
}

/// Move-order carry-over: the ranking that the search of a root hands on
/// orders all moves of the state again, best first by the values that the
/// search found.
pub proof fn lemma_ranking_orders_all(order: Seq<usize>, values: Seq<int>, upward: bool, n: nat)
    requires
        is_permutation(order, n),
    ensures
        is_permutation(ranked(order, values, upward, n as int), n),
        best_first(ranked(order, values, upward, n as int), values, upward),
{
    broadcast use vstd::seq_lib::group_to_multiset_ensures;

    lemma_ranked(order, values, upward, n as int);
    let out = ranked(order, values, upward, n as int);
    assert(order.subrange(0, n as int) =~= order);
    assert forall|j: int| 0 <= j < n implies (#[trigger] out[j]) < n by {
        assert(out.to_multiset().count(out[j]) > 0);
        assert(order.contains(out[j]));
    }
    assert forall|k: usize| k < n implies #[trigger] out.contains(k) by {
        assert(order.contains(k));
        assert(order.to_multiset().count(k) > 0);
    }
    assert forall|p: int, q: int| 0 <= p < q < n implies (#[trigger] out[p]) != (
    #[trigger] out[q]) by {
        order.lemma_multiset_has_no_duplicates();
        if out[p] == out[q] {
            lemma_twice(out, p, q);
        }
    }
}

/// An item that stands at two places of a list occurs at least twice in it.
proof fn lemma_twice(list: Seq<usize>, p: int, q: int)
    requires
        0 <= p < q < list.len(),
        list[p] == list[q],
    ensures
        list.to_multiset().count(list[p]) >= 2,
    decreases list.len(),
{
    broadcast use vstd::seq_lib::group_to_multiset_ensures;

    let front = list.drop_last();
    assert(list =~= front.push(list.last()));
    if q == list.len() - 1 {
        assert(front.contains(list[p])) by {
            assert(front[p] == list[p]);
        }
        assert(front.to_multiset().count(list[p]) > 0);
    } else {
        assert(front[p] == front[q]);
        lemma_twice(front, p, q);
    }
}

/// Whether the move is a best move of the state searched `depth` plies
/// deep: it is a move of the state, and the state to which it leads has the
/// minimax value of the state.
pub open spec fn best_at<E: Evaluator>(e: &E, s: StateView, me: Team, m: Move, depth: int) -> bool {
    exists|k: int|
        0 <= k < s.possible_moves().len() && #[trigger] s.possible_moves()[k] == m
            && child_value(e, s, me, plies(depth), k) == node_value(e, s, me, plies(depth))
}

/// Whether the move is a best move of the state at some depth from one ply
/// to `cap`.
pub open spec fn best_within<E: Evaluator>(e: &E, s: StateView, me: Team, m: Move, cap: int) -> bool {
    exists|depth: int| 1 <= depth <= cap && #[trigger] best_at(e, s, me, m, depth)
}

/// An iterative deepening on a valid state that is not over and has moves
/// returns a move, which is a best move of the state at the depth of its
/// last search that did not fail.
pub proof fn lemma_deepen<E: Evaluator>(
    e: &E,
    s: StateView,
    me: Team,
    depth: int,
    cap: int,
    hint: Seq<usize>,
    last: Result<Move, SearchError>,
)
    requires
        s.wf(),
        1 <= depth <= cap,
        !s.is_over(),
        s.possible_moves().len() > 0,
        depth > 1 ==> last is Ok,
        last matches Ok(m) ==> best_within(e, s, me, m, cap),
    ensures
        deepen(e, s, me, depth, cap, hint, last) matches Ok(m) && best_within(e, s, me, m, cap),
    decreases cap - depth,
{
    let searched = root_search(
        e,
        s,
        me,
        LOSS as int,
        WIN as int,
        plies(depth),
        QUICK_PLIES as int,
        hint,
    );
    lemma_root_search_exact(e, s, me, plies(depth), QUICK_PLIES as int, hint);
    lemma_root_search_sound(
        e,
        s,
        me,
        LOSS as int,
        WIN as int,
        plies(depth),
        QUICK_PLIES as int,
        hint,
    );
    if depth == 1 {
        lemma_one_ply(
            e,
            s,
            me,
            QUICK_PLIES as int,
            search_order(hint, s.possible_moves().len()),
            0,
            LOSS as int,
            WIN as int,
            start_of(s, me),
        );
    }
    if searched is Ok {
        let found = searched->Ok_0;
        let m = found.best->0;
        assert(best_at(e, s, me, m, depth));
        if depth < cap {
            lemma_deepen(e, s, me, depth + 1, cap, found.order, Ok(m));
        }
    }
}

/// An iterative deepening on a valid state that is not over and has moves
/// returns one of these moves, a best move of the state at one of the
/// depths from one ply to the deepest allowed.
pub proof fn lemma_deepening_result<E: Evaluator>(e: &E, s: StateView, me: Team, max_depth: int)
    requires
        s.wf(),
        !s.is_over(),
        s.possible_moves().len() > 0,
    ensures
        deepening_result(e, s, me, max_depth) matches Ok(m) && best_within(
            e,
            s,
            me,
            m,
            depth_cap(max_depth),
        ),
{
    lemma_deepen(
        e,
        s,
        me,
        1,
        depth_cap(max_depth),
        Seq::empty(),
        Err(SearchError::NoLegalMove),
    );
}

/// Convergence: two iterative deepenings of the same state, for the same
/// side, to the same depth and with the same evaluator, return the same.
pub proof fn lemma_search_converges<E: Evaluator>(
    e: &E,
    s: StateView,
    me: Team,
    max_depth: int,
    first: Result<Move, SearchError>,
    second: Result<Move, SearchError>,
)
    requires
        first == deepening_result(e, s, me, max_depth),
        second == deepening_result(e, s, me, max_depth),
    ensures
        first == second,
{
}

/// Whether a search of the state, `depth` plies deep, can come to a state
/// at which it fails: it is to go deeper there, and there is no move.
pub open spec fn stuck_within(s: StateView, depth: nat) -> bool
    decreases depth,
{
    !is_leaf(s, depth) && (s.possible_moves().len() == 0 || exists|k: int|
        0 <= k < s.possible_moves().len() && stuck_within(
            s.perform(#[trigger] s.possible_moves()[k]),
            (depth - 1) as nat,
        ))
}

/// The alpha-beta search fails only with `NoLegalMove`, and only where it
/// can come to a state without a move at which it is to go deeper. So it
/// does not fail where every state within its depth that is not over has a
/// move.
pub proof fn lemma_fails_only_stuck<E: Evaluator>(
    e: &E,
    s: StateView,
    me: Team,
    alpha: int,
    beta: int,
    depth: nat,
    depth2: int,
)
    ensures
        alpha_beta(e, s, me, alpha, beta, depth, depth2) matches Err(error) ==> error
            == SearchError::NoLegalMove && stuck_within(s, depth),
    decreases depth, 1nat, 0nat,
{
    if !is_leaf(s, depth) && !is_stuck(s, depth) {
        lemma_node_order(e, s, me, depth2);
        lemma_search_fails_only_stuck(
            e,
            s,
            me,
            depth,
            depth2,
            node_order(e, s, me, depth2),
            0,
            alpha,
            beta,
            start_of(s, me),
        );
    }
}

/// The search of the moves of a node fails only with `NoLegalMove`, and only
/// where the search of one of the moves can come to a state at which it
/// fails.
pub proof fn lemma_search_fails_only_stuck<E: Evaluator>(
    e: &E,
    s: StateView,
    me: Team,
    depth: nat,
    depth2: int,
    order: Seq<usize>,
    j: int,
    alpha: int,
    beta: int,
    reached: Reached,
)
    requires
        depth > 0,
        !s.is_over(),
        0 <= j <= order.len(),
        forall|q: int| 0 <= q < order.len() ==> (#[trigger] order[q]) < s.possible_moves().len(),
    ensures
        search_from(e, s, me, depth, depth2, order, j, alpha, beta, reached) matches Err(error)
            ==> error == SearchError::NoLegalMove && stuck_within(s, depth),
    decreases depth, 0nat, order.len() - j,
{
    if j < order.len() {
        let moves = s.possible_moves();
        let k = order[j] as int;
        let child = s.perform(moves[k]);
        let below = (depth - 1) as nat;
        lemma_fails_only_stuck(e, child, me, alpha, beta, below, quick_below(depth2));
        let searched = alpha_beta(e, child, me, alpha, beta, below, quick_below(depth2));
        if searched is Err {
            assert(stuck_within(s.perform(s.possible_moves()[k]), below));
        } else {
            let found = searched->Ok_0.value;
            let improved = if maximizing(s, me) {
                found > reached.value
            } else {
                found < reached.value
            };
            let next = Reached {
                value: if improved {
                    found
                } else {
                    reached.value
                },
                best: if improved {
                    moves[k]
                } else {
                    reached.best
                },
                values: reached.values.update(k, found),
            };
            let next_alpha = if maximizing(s, me) && next.value > alpha {
                next.value
            } else {
                alpha
            };
            let next_beta = if !maximizing(s, me) && next.value < beta {
                next.value
            } else {
                beta
            };
            if next_alpha < next_beta {
                lemma_search_fails_only_stuck(
                    e,
                    s,
                    me,
                    depth,
                    depth2,
                    order,
                    j + 1,
                    next_alpha,
                    next_beta,
                    next,
                );
            }
        }
    }
}

/// The search of a root fails only with `NoLegalMove`, and only where it can
/// come to a state without a move at which it is to go deeper.
pub proof fn lemma_root_fails_only_stuck<E: Evaluator>(
    e: &E,
    s: StateView,
    me: Team,
    alpha: int,
    beta: int,
    depth: nat,
    depth2: int,
    hint: Seq<usize>,
)
    ensures
        root_search(e, s, me, alpha, beta, depth, depth2, hint) matches Err(error) ==> error
            == SearchError::NoLegalMove && stuck_within(s, depth),
{
    if !is_leaf(s, depth) && !is_stuck(s, depth) {
        let n = s.possible_moves().len();
        lemma_possible_moves_bound(s);
        let order = search_order(hint, n);
        assert(is_permutation(order, n)) by {
            if !is_permutation(hint, n) {
                assert forall|k: usize| k < n implies #[trigger] order.contains(k) by {
                    assert(order[k as int] == k);
                }
            }
        }
        lemma_search_fails_only_stuck(e, s, me, depth, depth2, order, 0, alpha, beta, start_of(s, me));
    }
}

} // verus!
