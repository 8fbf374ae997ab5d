//! Depth-limited alpha-beta search over the states of the game.

use crate::deepening::SearchError;
use crate::game::laws::{lemma_possible_moves_legal, lemma_undo_perform};
use crate::game::{Move, State, StateView, Team};
use crate::ordering::{natural, natural_order, rank, ranked, search_order, valid_order};
use crate::scoring_funcs::{evaluate, territory, Evaluator, Score, DRAW, LOSS, WIN};
use vstd::prelude::*;

verus! {

/// What a search finds at a node: the value of the node and, where the node
/// has moves to choose from, the move that leads to it.
pub struct Outcome {
    pub value: int,
    pub best: Option<Move>,
}

/// The number of plies that a depth stands for: none for a negative depth.
pub open spec fn plies(depth: int) -> nat {
    if depth <= 0 {
        0
    } else {
        depth as nat
    }
}

/// Whether the searching side moves in the state, and so picks the highest
/// value; its opponent picks the lowest.
pub open spec fn maximizing(s: StateView, me: Team) -> bool {
    s.current_team() == me
}

/// The perspective from which a state is scored for the searching side.
pub open spec fn perspective(s: StateView, me: Team) -> int {
    if maximizing(s, me) {
        1
    } else {
        -1
    }
}

/// The value of a game that is over, for the searching side.
pub open spec fn terminal_value(s: StateView, me: Team) -> int {
    match s.winner() {
        None => DRAW as int,
        Some(team) => if team == me {
            WIN as int
        } else {
            LOSS as int
        },
    }
}

/// Whether the search goes no deeper at the state: the game is over or the
/// depth is used up.
pub open spec fn is_leaf(s: StateView, depth: nat) -> bool {
    s.is_over() || depth == 0
}

/// Whether the search fails at the state: it is to go deeper, and the team
/// to move has no move.
pub open spec fn is_stuck(s: StateView, depth: nat) -> bool {
    !is_leaf(s, depth) && s.possible_moves().len() == 0
}

/// The value of a leaf: that of the finished game, or else the score that
/// the evaluator gives.
pub open spec fn leaf_value<E: Evaluator>(e: &E, s: StateView, me: Team) -> int {
    if s.is_over() {
        terminal_value(s, me)
    } else {
        e.score(s, perspective(s, me))
    }
}

/// The value with which a node starts before any of its moves is searched.
pub open spec fn worst(s: StateView, me: Team) -> int {
    if maximizing(s, me) {
        LOSS as int
    } else {
        WIN as int
    }
}

/// The better of two values for the side that moves in the state.
pub open spec fn better(s: StateView, me: Team, a: int, b: int) -> int {
    if maximizing(s, me) {
        if a >= b {
            a
        } else {
            b
        }
    } else {
        if a <= b {
            a
        } else {
            b
        }
    }
}

/// The minimax value of a state searched `depth` plies deep: at a leaf the
/// leaf's value, elsewhere the best of the values of the successor states,
/// for the side that moves. A state at which the search fails counts with
/// the value that it has as a leaf.
pub open spec fn node_value<E: Evaluator>(e: &E, s: StateView, me: Team, depth: nat) -> int
    decreases depth, 1nat, 0nat,
{
    if is_leaf(s, depth) || is_stuck(s, depth) {
        leaf_value(e, s, me)
    } else {
        best_value(e, s, me, depth, s.possible_moves().len() as int)
    }
}

/// The minimax value of the state after the `k`-th move, searched one ply
/// less deep.
pub open spec fn child_value<E: Evaluator>(
    e: &E,
    s: StateView,
    me: Team,
    depth: nat,
    k: int,
) -> int
    decreases depth, 0nat, 0nat,
{
    if depth == 0 {
        0
    } else {
        node_value(e, s.perform(s.possible_moves()[k]), me, (depth - 1) as nat)
    }
}

/// The best of the values of the first `n` successor states.
pub open spec fn best_value<E: Evaluator>(
    e: &E,
    s: StateView,
    me: Team,
    depth: nat,
    n: int,
) -> int
    decreases depth, 0nat, n + 1,
{
    if n <= 0 || depth == 0 {
        worst(s, me)
    } else {
        better(s, me, best_value(e, s, me, depth, n - 1), child_value(e, s, me, depth, n - 1))
    }
}

/// The values by which the moves of a state are ranked ahead of their
/// search: for each move the value of the state to which it leads, taken as
/// a leaf.
pub open spec fn quick_values<E: Evaluator>(e: &E, s: StateView, me: Team) -> Seq<int> {
    Seq::new(
        s.possible_moves().len(),
        |k: int| leaf_value(e, s.perform(s.possible_moves()[k]), me),
    )
}

/// The number of plies below a node for which moves are still ranked ahead
/// of their search, given the number at the node.
pub open spec fn quick_below(depth2: int) -> int {
    if depth2 > 0 {
        depth2 - 1
    } else {
        0
    }
}

/// The order in which a node below the root takes its moves: ranked by
/// their quick values, best first for the side that moves, while `depth2`
/// is positive; after that in their natural order.
pub open spec fn node_order<E: Evaluator>(e: &E, s: StateView, me: Team, depth2: int) -> Seq<
    usize,
> {
    let n = s.possible_moves().len();
    if depth2 > 0 {
        ranked(natural_order(n), quick_values(e, s, me), maximizing(s, me), n as int)
    } else {
        natural_order(n)
    }
}

/// What the search of a node has reached: the value, the move that leads to
/// it, and the value found for each move that was searched, by the move's
/// index.
pub struct Reached {
    pub value: int,
    pub best: Move,
    pub values: Seq<int>,
}

/// What the search of a node starts with: the worst value for the side that
/// moves, the first move, and no values found.
pub open spec fn start_of(s: StateView, me: Team) -> Reached {
    Reached {
        value: worst(s, me),
        best: s.possible_moves()[0],
        values: Seq::new(s.possible_moves().len(), |k: int| 0int),
    }
}

/// What the alpha-beta search returns at a state for the window from
/// `alpha` to `beta`: the value of a leaf, or what the search of the moves
/// in the order of the node reaches. It fails where it is to go deeper and
/// there is no move, at the state or at a state that it comes to.
pub open spec fn alpha_beta<E: Evaluator>(
    e: &E,
    s: StateView,
    me: Team,
    alpha: int,
    beta: int,
    depth: nat,
    depth2: int,
) -> Result<Outcome, SearchError>
    decreases depth, 1nat, 0nat,
{
    if is_leaf(s, depth) {
        Ok(Outcome { value: leaf_value(e, s, me), best: None })
    } else if is_stuck(s, depth) {
        Err(SearchError::NoLegalMove)
    } else {
        match search_from(
            e,
            s,
            me,
            depth,
            depth2,
            node_order(e, s, me, depth2),
            0,
            alpha,
            beta,
            start_of(s, me),
        ) {
            Ok(reached) => Ok(Outcome { value: reached.value, best: Some(reached.best) }),
            Err(error) => Err(error),
        }
    }
}

/// What the search of a node reaches once it has searched the first `j`
/// moves of the order, with the window and the values that it has reached by
/// then: it searches move after move, keeps the first move with the best
/// value and the value found for each, narrows the window by the best value,
/// and stops when the window closes. It fails where the search of a move
/// fails.
pub open spec fn search_from<E: Evaluator>(
    e: &E,
    s: StateView,
    me: Team,
    depth: nat,
    depth2: int,
    order: Seq<usize>,
    j: int,
    alpha: int,
    beta: int,
    reached: Reached,
) -> Result<Reached, SearchError>
    decreases depth, 0nat, order.len() - j,
{
    let moves = s.possible_moves();
    if j < 0 || j >= order.len() || depth == 0 {
        Ok(reached)
    } else {
        let k = order[j] as int;
        match alpha_beta(
            e,
            s.perform(moves[k]),
            me,
            alpha,
            beta,
            (depth - 1) as nat,
            quick_below(depth2),
        ) {
            Err(error) => Err(error),
            Ok(child) => {
                let found = child.value;
                let improved = if maximizing(s, me) {
                    found > reached.value
                } else {
                    found < reached.value
                };
                let next = Reached {
                    value: if improved {
                        found
                    } else {
                        reached.value
                    },
                    best: if improved {
                        moves[k]
                    } else {
                        reached.best
                    },
                    values: reached.values.update(k, found),
                };
                let alpha = if maximizing(s, me) && next.value > alpha {
                    next.value
                } else {
                    alpha
                };
                let beta = if !maximizing(s, me) && next.value < beta {
                    next.value
                } else {
                    beta
                };
                if alpha >= beta {
                    Ok(next)
                } else {
                    search_from(e, s, me, depth, depth2, order, j + 1, alpha, beta, next)
                }
            },
        }
    }
}

/// What the search of a root returns: the value, the best move, and the
/// order in which the next, deeper search is to take the moves.
pub struct RootOutcome {
    pub value: int,
    pub best: Option<Move>,
    pub order: Seq<usize>,
}

/// What the search of a root returns for a window and a hint at the order
/// of its moves: it takes the moves in the order of the hint where the hint
/// orders them all, else in their natural order, and ranks them by the
/// values found.
pub open spec fn root_search<E: Evaluator>(
    e: &E,
    s: StateView,
    me: Team,
    alpha: int,
    beta: int,
    depth: nat,
    depth2: int,
    hint: Seq<usize>,
) -> Result<RootOutcome, SearchError> {
    if is_leaf(s, depth) {
        Ok(RootOutcome { value: leaf_value(e, s, me), best: None, order: Seq::empty() })
    } else if is_stuck(s, depth) {
        Err(SearchError::NoLegalMove)
    } else {
        let n = s.possible_moves().len();
        let order = search_order(hint, n);
        match search_from(e, s, me, depth, depth2, order, 0, alpha, beta, start_of(s, me)) {
            Err(error) => Err(error),
            Ok(reached) => Ok(
                RootOutcome {
                    value: reached.value,
                    best: Some(reached.best),
                    order: ranked(order, reached.values, maximizing(s, me), n as int),
                },
            ),
        }
    }
}

/// What the search of a root returns, as a mathematical value.
pub open spec fn found_by(r: (Option<Move>, Score, Vec<usize>)) -> RootOutcome {
    RootOutcome { value: r.1 as int, best: r.0, order: r.2@ }
}

/// What a search returns when it has reached the values: the best move,
/// its value, and the values found.
pub open spec fn reached_by(r: (Move, Score, Vec<Score>)) -> Reached {
    Reached { value: r.1 as int, best: r.0, values: r.2@.map_values(|v: Score| v as int) }
}

/// A search of one ply below a node with moves does not fail: the states to
/// which the moves lead are leaves.
pub proof fn lemma_one_ply<E: Evaluator>(
    e: &E,
    s: StateView,
    me: Team,
    depth2: int,
    order: Seq<usize>,
    j: int,
    alpha: int,
    beta: int,
    reached: Reached,
)
    requires
        0 <= j <= order.len(),
    ensures
        search_from(e, s, me, 1, depth2, order, j, alpha, beta, reached) is Ok,
    decreases order.len() - j,
{
    if j < order.len() {
        let moves = s.possible_moves();
        let k = order[j] as int;
        let child = alpha_beta(e, s.perform(moves[k]), me, alpha, beta, 0, quick_below(depth2));
        assert(child is Ok);
        let found = child->Ok_0.value;
        let improved = if maximizing(s, me) {
            found > reached.value
        } else {
            found < reached.value
        };
        let next = Reached {
            value: if improved {
                found
            } else {
                reached.value
            },
            best: if improved {
                moves[k]
            } else {
                reached.best
            },
            values: reached.values.update(k, found),
        };
        let next_alpha = if maximizing(s, me) && next.value > alpha {
            next.value
        } else {
            alpha
        };
        let next_beta = if !maximizing(s, me) && next.value < beta {
            next.value
        } else {
            beta
        };
        if next_alpha < next_beta {
            lemma_one_ply(e, s, me, depth2, order, j + 1, next_alpha, next_beta, next);
        }
    }
}

/// The value of a leaf, computed.
fn leaf<E: Evaluator>(gamestate: &State, my_team: Team, evaluator: &E) -> (r: Score)
    ensures
        r == leaf_value(evaluator, gamestate@, my_team),
{
    if gamestate.is_over() {
        match gamestate.winner() {
            None => DRAW,
            Some(team) => if team == my_team {
                WIN
            } else {
                LOSS
            },
        }
    } else {
        let my_turn: i32 = if gamestate.current_team() == my_team {
            1
        } else {
            -1
        };
        evaluator.evaluate(gamestate, my_turn)
    }
}

/// The number of plies below a node for which moves are still ranked.
fn below(depth2: i32) -> (r: i32)
    ensures
        r == quick_below(depth2 as int),
{
    if depth2 > 0 {
        depth2 - 1
    } else {
        0
    }
}

/// The moves of the state ranked by their quick values, best first for the
/// side that moves. The state is left as it was.
fn quick_order<E: Evaluator>(
    gamestate: &mut State,
    my_team: Team,
    moves: &Vec<Move>,
    evaluator: &E,
) -> (r: Vec<usize>)
    requires
        moves@ == old(gamestate)@.possible_moves(),
    ensures
        final(gamestate)@ == old(gamestate)@,
        r@ == ranked(
            natural_order(moves@.len()),
            quick_values(evaluator, old(gamestate)@, my_team),
            maximizing(old(gamestate)@, my_team),
            moves@.len() as int,
        ),
        forall|q: int| 0 <= q < r@.len() ==> (#[trigger] r@[q]) < moves@.len(),
{
    let ghost s = gamestate@;
    let team = gamestate.current_team();
    let mine = team == my_team;
    let mut values: Vec<Score> = Vec::new();
    let mut k: usize = 0;
    while k < moves.len()
        invariant
            k <= moves@.len(),
            gamestate@ == s,
            s == old(gamestate)@,
            moves@ == s.possible_moves(),
            team == s.current_team(),
            values@.len() == k,
            forall|q: int|
                0 <= q < k ==> #[trigger] values@[q] == leaf_value(
                    evaluator,
                    s.perform(s.possible_moves()[q]),
                    my_team,
                ),
        decreases moves@.len() - k,
    {
        let m = moves[k];
        proof {
            use_type_invariant(&*gamestate);
            assert(s.possible_moves()[k as int] == m);
            lemma_possible_moves_legal(s, m);
            lemma_undo_perform(s, m);
        }
        match gamestate.perform(m) {
            // A move of the state is never refused.
            Err(_) => {
                values.push(0);
            },
            Ok(captured) => {
                let value = leaf(gamestate, my_team, evaluator);
                gamestate.undo_move(m, captured, team);
                values.push(value);
            },
        }
        k = k + 1;
    }
    assert(values@.map_values(|v: Score| v as int) =~= quick_values(evaluator, s, my_team));
    let order = natural(moves.len());
    rank(&order, &values, mine)
}

/// Searches the given moves of the state in the given order, each
/// `depth - 1` plies deep, and leaves the state as it was. Returns the best
/// move, its value, and the value found for each move.
fn search_in_order<E: Evaluator>(
    gamestate: &mut State,
    my_team: Team,
    alpha: Score,
    beta: Score,
    depth: i32,
    depth2: i32,
    order: &Vec<usize>,
    moves: &Vec<Move>,
    evaluator: &E,
) -> (r: Result<(Move, Score, Vec<Score>), SearchError>)
    requires
        depth > 0,
        moves@ == old(gamestate)@.possible_moves(),
        moves@.len() > 0,
        forall|j: int| 0 <= j < order@.len() ==> (#[trigger] order@[j]) < moves@.len(),
    ensures
        final(gamestate)@ == old(gamestate)@,
        match search_from(
            evaluator,
            old(gamestate)@,
            my_team,
            plies(depth as int),
            depth2 as int,
            order@,
            0,
            alpha as int,
            beta as int,
            start_of(old(gamestate)@, my_team),
        ) {
            Ok(found) => r is Ok && reached_by(r->Ok_0) == found,
            Err(error) => r == Err::<(Move, Score, Vec<Score>), SearchError>(error),
        },
        r matches Ok(found) ==> found.2@.len() == moves@.len() && old(
            gamestate,
        )@.possible_moves().contains(found.0),
        r matches Err(error) ==> error == SearchError::NoLegalMove,
    decreases plies(depth as int), 0nat,
{
    let ghost s = gamestate@;
    let ghost d = plies(depth as int);
    let n = moves.len();
    let mut values: Vec<Score> = Vec::new();
    let mut k: usize = 0;
    while k < n
        invariant
            k <= n,
            values@.len() == k,
            forall|q: int| 0 <= q < k ==> (#[trigger] values@[q]) == 0,
        decreases n - k,
    {
        values.push(0);
        k = k + 1;
    }
    let team = gamestate.current_team();
    let mine = team == my_team;
    let mut best = moves[0];
    let mut value = if mine {
        LOSS
    } else {
        WIN
    };
    let mut low = alpha;
    let mut high = beta;
    let ghost whole = search_from(
        evaluator,
        s,
        my_team,
        d,
        depth2 as int,
        order@,
        0,
        alpha as int,
        beta as int,
        start_of(s, my_team),
    );
    assert(values@.map_values(|v: Score| v as int) =~= start_of(s, my_team).values);
    assert(moves@[0] == moves[0]);
    let mut j: usize = 0;
    let mut closed = false;
    while j < order.len() && !closed
        invariant
            j <= order@.len(),
            n == moves@.len() == values@.len(),
            forall|q: int| 0 <= q < order@.len() ==> (#[trigger] order@[q]) < n,
            gamestate@ == s,
            s == old(gamestate)@,
            moves@ == s.possible_moves(),
            s.possible_moves().contains(best),
            d == plies(depth as int),
            depth > 0,
            team == s.current_team(),
            mine == maximizing(s, my_team),
            whole == search_from(
                evaluator,
                s,
                my_team,
                d,
                depth2 as int,
                order@,
                0,
                alpha as int,
                beta as int,
                start_of(s, my_team),
            ),
            !closed ==> search_from(
                evaluator,
                s,
                my_team,
                d,
                depth2 as int,
                order@,
                j as int,
                low as int,
                high as int,
                (Reached {
                    value: value as int,
                    best,
                    values: values@.map_values(|v: Score| v as int),
                }),
            ) == whole,
            closed ==> whole == Ok::<Reached, SearchError>(
                Reached {
                    value: value as int,
                    best,
                    values: values@.map_values(|v: Score| v as int),
                },
            ),
        decreases order@.len() - j, (if closed {
            0int
        } else {
            1int
        }),
    {
        let k = order[j];
        let m = moves[k];
        proof {
            use_type_invariant(&*gamestate);
            assert(s.possible_moves()[k as int] == m);
            lemma_possible_moves_legal(s, m);
            lemma_undo_perform(s, m);
        }
        let ghost reached = Reached {
            value: value as int,
            best,
            values: values@.map_values(|v: Score| v as int),
        };
        let ghost window = (low, high);
        match gamestate.perform(m) {
            // A move of the state is never refused.
            Err(_) => {
                closed = true;
            },
            Ok(captured) => {
                let searched = new_minimax(
                    gamestate,
                    my_team,
                    low,
                    high,
                    depth - 1,
                    below(depth2),
                    evaluator,
                );
                gamestate.undo_move(m, captured, team);
                assert(plies(depth as int - 1) == (d - 1) as nat);
                let found = match searched {
                    Ok(child) => child.1,
                    Err(error) => {
                        assert(search_from(
                            evaluator,
                            s,
                            my_team,
                            d,
                            depth2 as int,
                            order@,
                            j as int,
                            window.0 as int,
                            window.1 as int,
                            reached,
                        ) == Err::<Reached, SearchError>(error));
                        return Err(error);
                    },
                };
                values.set(k, found);
                assert(values@.map_values(|v: Score| v as int) =~= reached.values.update(
                    k as int,
                    found as int,
                ));
                if mine {
                    if found > value {
                        best = m;
                        value = found;
                    }
                    if value > low {
                        low = value;
                    }
                } else {
                    if found < value {
                        best = m;
                        value = found;
                    }
                    if value < high {
                        high = value;
                    }
                }
                let ghost next = Reached {
                    value: value as int,
                    best,
                    values: values@.map_values(|v: Score| v as int),
                };
                assert(search_from(
                    evaluator,
                    s,
                    my_team,
                    d,
                    depth2 as int,
                    order@,
                    j as int,
                    window.0 as int,
                    window.1 as int,
                    reached,
                ) == (if low >= high {
                    Ok::<Reached, SearchError>(next)
                } else {
                    search_from(
                        evaluator,
                        s,
                        my_team,
                        d,
                        depth2 as int,
                        order@,
                        j as int + 1,
                        low as int,
                        high as int,
                        next,
                    )
                }));
                if low >= high {
                    closed = true;
                } else {
                    j = j + 1;
                }
            },
        }
    }
    Ok((best, value, values))
}

/// Searches the state `depth` plies deep with alpha-beta pruning, for the
/// side `my_team`, and leaves the state as it was. For the first `depth2`
/// plies it ranks the moves of a node by their quick values before it
/// searches them. Returns the value found and the first move that reaches
/// it; no move where the search goes no deeper: the game is over or the
/// depth is used up. It fails with `NoLegalMove` where it is to go deeper
/// and there is no move, at the state or at a state that it comes to.
pub fn new_minimax<E: Evaluator>(
    gamestate: &mut State,
    my_team: Team,
    alpha: Score,
    beta: Score,
    depth: i32,
    depth2: i32,
    evaluator: &E,
) -> (r: Result<(Option<Move>, Score), SearchError>)
    ensures
        final(gamestate)@ == old(gamestate)@,
        match alpha_beta(
            evaluator,
            old(gamestate)@,
            my_team,
            alpha as int,
            beta as int,
            plies(depth as int),
            depth2 as int,
        ) {
            Ok(found) => r == Ok::<(Option<Move>, Score), SearchError>(
                (found.best, found.value as Score),
            ) && r->Ok_0.1 == found.value,
            Err(error) => r == Err::<(Option<Move>, Score), SearchError>(error),
        },
        is_stuck(old(gamestate)@, plies(depth as int)) ==> r == Err::<
            (Option<Move>, Score),
            SearchError,
        >(SearchError::NoLegalMove),
        r matches Err(error) ==> error == SearchError::NoLegalMove,
        r matches Ok(found) ==> (found.0 is None <==> is_leaf(
            old(gamestate)@,
            plies(depth as int),
        )),
        r matches Ok((Some(m), _)) ==> old(gamestate)@.possible_moves().contains(m),
    decreases plies(depth as int), 1nat,
{
    if gamestate.is_over() || depth <= 0 {
        return Ok((None, leaf(gamestate, my_team, evaluator)));
    }
    let moves = gamestate.possible_moves();
    if moves.len() == 0 {
        return Err(SearchError::NoLegalMove);
    }
    let order = if depth2 > 0 {
        quick_order(gamestate, my_team, &moves, evaluator)
    } else {
        natural(moves.len())
    };
    match search_in_order(
        gamestate,
        my_team,
        alpha,
        beta,
        depth,
        depth2,
        &order,
        &moves,
        evaluator,
    ) {
        Ok(found) => Ok((Some(found.0), found.1)),
        Err(error) => Err(error),
    }
}

/// Searches the moves of the state, in the order of the hint where it
/// orders them all, each `depth - 1` plies deep with alpha-beta pruning, for
/// the side `my_team`, and leaves the state as it was. Below the root the
/// moves of a node are ranked by their quick values for the next
/// `depth2 - 1` plies. Returns the best move with its value, and the moves
/// ranked by the values found, best first, as the hint for the next, deeper
/// search. Where the search goes no deeper it returns no move and an empty
/// ranking. It fails with `NoLegalMove` where it is to go deeper and there
/// is no move, at the state or at a state that it comes to.
pub fn minimax2<E: Evaluator>(
    gamestate: &mut State,
    my_team: Team,
    alpha: Score,
    beta: Score,
    depth: i32,
    depth2: i32,
    controlfirst: Vec<usize>,
    evaluator: &E,
) -> (r: Result<(Option<Move>, Score, Vec<usize>), SearchError>)
    ensures
        final(gamestate)@ == old(gamestate)@,
        match root_search(
            evaluator,
            old(gamestate)@,
            my_team,
            alpha as int,
            beta as int,
            plies(depth as int),
            depth2 as int,
            controlfirst@,
        ) {
            Ok(found) => r is Ok && found_by(r->Ok_0) == found,
            Err(error) => r == Err::<(Option<Move>, Score, Vec<usize>), SearchError>(error),
        },
        is_stuck(old(gamestate)@, plies(depth as int)) ==> r == Err::<
            (Option<Move>, Score, Vec<usize>),
            SearchError,
        >(SearchError::NoLegalMove),
        r matches Err(error) ==> error == SearchError::NoLegalMove,
        r matches Ok(found) ==> (found.0 is None <==> is_leaf(
            old(gamestate)@,
            plies(depth as int),
        )),
        r matches Ok((Some(m), _, _)) ==> old(gamestate)@.possible_moves().contains(m),
{
    if gamestate.is_over() || depth <= 0 {
        return Ok((None, leaf(gamestate, my_team, evaluator), Vec::new()));
    }
    let moves = gamestate.possible_moves();
    if moves.len() == 0 {
        return Err(SearchError::NoLegalMove);
    }
    let order = if valid_order(&controlfirst, moves.len()) {
        controlfirst
    } else {
        natural(moves.len())
    };
    let mine = gamestate.current_team() == my_team;
    match search_in_order(
        gamestate,
        my_team,
        alpha,
        beta,
        depth,
        depth2,
        &order,
        &moves,
        evaluator,
    ) {
        Ok(found) => {
            let ranking = rank(&order, &found.2, mine);
            Ok((Some(found.0), found.1, ranking))
        },
        Err(error) => Err(error),
    }
}

/// Searches the moves of the state as `minimax2` does, with every node
/// below the root taking its moves in their natural order.
pub fn minimax<E: Evaluator>(
    gamestate: &mut State,
    my_team: Team,
    alpha: Score,
    beta: Score,
    depth: i32,
    controlfirst: Vec<usize>,
    evaluator: &E,
) -> (r: Result<(Option<Move>, Score, Vec<usize>), SearchError>)
    ensures
        final(gamestate)@ == old(gamestate)@,
        match root_search(
            evaluator,
            old(gamestate)@,
            my_team,
            alpha as int,
            beta as int,
            plies(depth as int),
            0,
            controlfirst@,
        ) {
            Ok(found) => r is Ok && found_by(r->Ok_0) == found,
            Err(error) => r == Err::<(Option<Move>, Score, Vec<usize>), SearchError>(error),
        },
        is_stuck(old(gamestate)@, plies(depth as int)) ==> r == Err::<
            (Option<Move>, Score, Vec<usize>),
            SearchError,
        >(SearchError::NoLegalMove),
        r matches Err(error) ==> error == SearchError::NoLegalMove,
        r matches Ok(found) ==> (found.0 is None <==> is_leaf(
            old(gamestate)@,
            plies(depth as int),
        )),
        r matches Ok((Some(m), _, _)) ==> old(gamestate)@.possible_moves().contains(m),
{
    minimax2(gamestate, my_team, alpha, beta, depth, 0, controlfirst, evaluator)
}

/// The number of plies from the root for which an iterative deepening ranks
/// the moves of a node ahead of their search.
pub const QUICK_PLIES: i32 = 2;

/// What an iterative deepening returns from the search of depth `depth` on,
/// with the result of the searches before: the best move of the search of
/// depth `cap`, which takes the moves in the order that the search one ply
/// less deep has handed on, and so on down to `depth`, which takes them by
/// the hint. A search that fails ends the deepening, which then returns the
/// move of the search before, if there is one.
pub open spec fn deepen<E: Evaluator>(
    e: &E,
    s: StateView,
    me: Team,
    depth: int,
    cap: int,
    hint: Seq<usize>,
    last: Result<Move, SearchError>,
) -> Result<Move, SearchError>
    decreases cap - depth,
{
    match root_search(e, s, me, LOSS as int, WIN as int, plies(depth), QUICK_PLIES as int, hint) {
        Err(error) => if last is Ok {
            last
        } else {
            Err(error)
        },
        Ok(found) => match found.best {
            None => Err(SearchError::GameOver),
            Some(m) => if depth >= cap {
                Ok(m)
            } else {
                deepen(e, s, me, depth + 1, cap, found.order, Ok(m))
            },
        },
    }
}

/// The deepest search of an iterative deepening up to `max_depth`: at least
/// one ply.
pub open spec fn depth_cap(max_depth: int) -> int {
    if max_depth < 1 {
        1
    } else {
        max_depth
    }
}

/// What an iterative deepening up to `max_depth` returns: the best move of
/// its deepest search, or the reason for which there is none.
pub open spec fn deepening_result<E: Evaluator>(
    e: &E,
    s: StateView,
    me: Team,
    max_depth: int,
) -> Result<Move, SearchError> {
    if s.is_over() {
        Err(SearchError::GameOver)
    } else {
        deepen(
            e,
            s,
            me,
            1,
            depth_cap(max_depth),
            Seq::empty(),
            Err(SearchError::NoLegalMove),
        )
    }
}

/// Searches the state for the side `my_team` by iterative deepening without
/// a clock: depth after depth from one ply up to `max_depth`, each search
/// with the full window and with the ranking of the one before as its hint.
/// Returns the best move of the deepest search, or of the deepest that did
/// not fail. There is none when the game is over, nor when the team to move
/// has no move.
pub fn dyn_max<E: Evaluator>(
    gamestate: State,
    my_team: Team,
    max_depth: i32,
    evaluator: &E,
) -> (r: Result<Move, SearchError>)
    ensures
        r == deepening_result(evaluator, gamestate@, my_team, max_depth as int),
        r is Ok <==> !gamestate@.is_over() && gamestate@.possible_moves().len() > 0,
        r matches Ok(m) ==> gamestate@.possible_moves().contains(m),
        r matches Err(e) ==> (e == SearchError::GameOver <==> gamestate@.is_over()),
{
    let mut state = gamestate;
    if state.is_over() {
        return Err(SearchError::GameOver);
    }
    let cap: i32 = if max_depth < 1 {
        1
    } else {
        max_depth
    };
    let ghost s = gamestate@;
    let ghost whole = deepen(
        evaluator,
        s,
        my_team,
        1,
        cap as int,
        Seq::empty(),
        Err(SearchError::NoLegalMove),
    );
    let mut hint: Vec<usize> = Vec::new();
    let mut last: Option<Move> = None;
    let mut depth: i32 = 1;
    while depth <= cap
        invariant
            1 <= depth <= cap,
            cap == depth_cap(max_depth as int),
            state@ == s,
            s == gamestate@,
            whole == deepen(
                evaluator,
                s,
                my_team,
                1,
                cap as int,
                Seq::empty(),
                Err(SearchError::NoLegalMove),
            ),
            !s.is_over(),
            last matches Some(m) ==> s.possible_moves().contains(m),
            depth > 1 ==> last is Some,
            deepen(
                evaluator,
                s,
                my_team,
                depth as int,
                cap as int,
                hint@,
                (match last {
                    Some(m) => Ok(m),
                    None => Err(SearchError::NoLegalMove),
                }),
            ) == whole,
        decreases cap - depth,
    {
        proof {
            if depth == 1 && s.possible_moves().len() > 0 {
                lemma_one_ply(
                    evaluator,
                    s,
                    my_team,
                    QUICK_PLIES as int,
                    search_order(hint@, s.possible_moves().len()),
                    0,
                    LOSS as int,
                    WIN as int,
                    start_of(s, my_team),
                );
            }
        }
        match minimax2(&mut state, my_team, LOSS, WIN, depth, QUICK_PLIES, hint, evaluator) {
            Err(error) => {
                return match last {
                    Some(m) => Ok(m),
                    None => Err(error),
                };
            },
            Ok(found) => match found.0 {
                // The game is not over, and the search went at least one ply deep.
                None => {
                    return Err(SearchError::GameOver);
                },
                Some(m) => {
                    if depth >= cap {
                        return Ok(m);
                    }
                    last = Some(m);
                    hint = found.2;
                    depth = depth + 1;
                },
            },
        }
    }
    match last {
        Some(m) => Ok(m),
        None => Err(SearchError::NoLegalMove),
    }
}

/// The score by territory of the state to which the move leads, from the
/// given perspective on that state; `None` if the move is refused. The state
/// is left as it was.
pub fn evaluate_move(gamestate: &mut State, m: Move, my_turn: i32) -> (r: Option<Score>)
    ensures
        final(gamestate)@ == old(gamestate)@,
        r is Some <==> old(gamestate)@.legal(m),
        r matches Some(score) ==> score == territory(old(gamestate)@.perform(m), my_turn as int),
{
    proof {
        use_type_invariant(&*gamestate);
        if gamestate@.legal(m) {
            lemma_undo_perform(gamestate@, m);
        }
    }
    let team = gamestate.current_team();
    match gamestate.perform(m) {
        Err(_) => None,
        Ok(captured) => {
            let score = evaluate(gamestate, my_turn);
            gamestate.undo_move(m, captured, team);
            Some(score)
        },
    }
}

} // verus!
