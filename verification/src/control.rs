//! Which team controls which fields: a field that the first team reaches is
//! its own; a field that only the second team reaches is the second team's
//! unless enough of that team's slides lead to it.

use crate::game::laws::{
    lemma_coords_of, lemma_in_bounds, lemma_moves_from_bound, lemma_slide_lands,
};
use crate::game::rules::{board_fish, coords_of, in_bounds, index_of, moves_from, BoardView};
use crate::game::{Board, Doubled, Move, State, StateView, Team, Vec2};
use crate::territory::{covered, steps_of, steps_within, UNREACHED};
use vstd::prelude::*;

verus! {

/// Whether the penguins of a team reach the field by slides.
pub open spec fn reached(b: BoardView, team: Team, t: int) -> bool {
    covered(b, team, 64, t)
}

/// Whether the marks of the second team spread from the field: one of its
/// penguins stands on it, or it reaches the field and the first team does
/// not.
pub open spec fn spreads(b: BoardView, first: Team, second: Team, f: int) -> bool {
    b[f].penguin == Some(second) || (reached(b, second, f) && !reached(b, first, f))
}

/// The number of the first `j` moves of a list that land on the field `t`.
pub open spec fn landed(moves: Seq<Move>, t: int, j: int) -> nat
    decreases j,
{
    if j <= 0 {
        0
    } else {
        landed(moves, t, j - 1) + if index_of(moves[j - 1].to) == t {
            1nat
        } else {
            0nat
        }
    }
}

/// The number of slides from a point that land on the field `t`.
pub open spec fn arrivals_from(b: BoardView, from: Vec2<Doubled>, t: int) -> nat {
    landed(moves_from(b, from), t, moves_from(b, from).len() as int)
}

/// The number of slides that land on `t` from those of the first `n` fields
/// from which the marks of the second team spread.
pub open spec fn arrivals(b: BoardView, first: Team, second: Team, t: int, n: int) -> nat
    decreases n,
{
    if n <= 0 {
        0
    } else {
        arrivals(b, first, second, t, n - 1) + if spreads(b, first, second, n - 1) {
            arrivals_from(b, coords_of(n - 1), t)
        } else {
            0nat
        }
    }
}

/// The mark of a field: 1 if the first team reaches it. If only the second
/// team reaches it, the mark starts at -1 and rises by one with each slide
/// that arrives after the first, up to 1. A field that nobody reaches has
/// the mark 0.
pub open spec fn mark(b: BoardView, first: Team, second: Team, t: int) -> int {
    if reached(b, first, t) {
        1
    } else if reached(b, second, t) {
        let risen = arrivals(b, first, second, t, 64) - 2;
        if risen < -1 {
            -1
        } else if risen > 1 {
            1
        } else {
            risen
        }
    } else {
        0
    }
}

/// The fish on the first `n` fields, each counted with the mark of its
/// field.
pub open spec fn controlled(b: BoardView, first: Team, second: Team, n: int) -> int
    decreases n,
{
    if n <= 0 {
        0
    } else {
        controlled(b, first, second, n - 1) + mark(b, first, second, n - 1) * b[n - 1].fish
    }
}

/// At most 42 slides from a point land on a given field.
pub proof fn lemma_arrivals_bound(b: BoardView, from: Vec2<Doubled>)
    ensures
        forall|t: int| #[trigger] arrivals_from(b, from, t) <= 42,
{
    lemma_moves_from_bound(b, from);
    assert forall|t: int| #[trigger] arrivals_from(b, from, t) <= 42 by {
        lemma_landed_bound(moves_from(b, from), t, moves_from(b, from).len() as int);
    }
}

/// Of the first `j` moves of a list, at most `j` land on a given field.
pub proof fn lemma_landed_bound(moves: Seq<Move>, t: int, j: int)
    requires
        0 <= j,
    ensures
        landed(moves, t, j) <= j,
    decreases j,
{
    if j > 0 {
        lemma_landed_bound(moves, t, j - 1);
    }
}

/// A field has steps exactly if one of the waves has covered it.
pub proof fn lemma_steps_reached(b: BoardView, team: Team, k: nat, t: int)
    requires
        k <= 64,
    ensures
        steps_within(b, team, k, t) != UNREACHED <==> covered(b, team, k, t),
    decreases k,
{
    if k > 0 {
        lemma_steps_reached(b, team, (k - 1) as nat, t);
    }
}

/// Counts the slides from a field: for each field, the count rises by the
/// number of slides from `field` that land on it.
pub fn get_field_control(gamestate: &State, field: Vec2<Doubled>, counts: &mut Vec<usize>)
    requires
        in_bounds(field),
        old(counts)@.len() == 64,
        forall|t: int| 0 <= t < 64 ==> #[trigger] old(counts)@[t] <= usize::MAX - 42,
    ensures
        final(counts)@.len() == 64,
        forall|t: int|
            0 <= t < 64 ==> #[trigger] final(counts)@[t] == old(counts)@[t] + arrivals_from(
                gamestate@.board,
                field,
                t,
            ),
{
    let board = gamestate.board();
    let ghost b = board@;
    proof {
        lemma_in_bounds(field);
        lemma_moves_from_bound(b, field);
    }
    let moves = board.possible_moves_from(field);
    let mut j: usize = 0;
    while j < moves.len()
        invariant
            j <= moves@.len() <= 42,
            in_bounds(field),
            b == board@,
            counts@.len() == 64,
            moves@ == moves_from(b, field),
            forall|t: int| 0 <= t < 64 ==> #[trigger] old(counts)@[t] <= usize::MAX - 42,
            forall|t: int|
                0 <= t < 64 ==> #[trigger] counts@[t] == old(counts)@[t] + landed(
                    moves@,
                    t,
                    j as int,
                ),
            forall|t: int| 0 <= t < 64 ==> #[trigger] counts@[t] <= old(counts)@[t] + j,
        decreases moves@.len() - j,
    {
        let m = moves[j];
        proof {
            assert(moves@.contains(m));
            lemma_in_bounds(field);
            lemma_slide_lands(b, field, m);
        }
        let t = Board::index_for(m.to());
        let bumped = counts[t] + 1;
        counts.set(t, bumped);
        j = j + 1;
    }
}

/// The fish that the first team controls, less those that the second team
/// controls.
pub fn get_controlled_fields_of(gamestate: &State, team1: Team, team2: Team) -> (r: i128)
    ensures
        r == controlled(gamestate@.board, team1, team2, 64),
{
    let board = gamestate.board();
    let ghost b = board@;
    proof {
        board.lemma_size();
    }
    let ours = steps_of(board, team1);
    let theirs = steps_of(board, team2);
    proof {
        assert forall|t: int| 0 <= t < 64 implies (#[trigger] ours@[t] != UNREACHED <==> reached(
            b,
            team1,
            t,
        )) by {
            lemma_steps_reached(b, team1, 64, t);
        }
        assert forall|t: int| 0 <= t < 64 implies (#[trigger] theirs@[t] != UNREACHED
            <==> reached(b, team2, t)) by {
            lemma_steps_reached(b, team2, 64, t);
        }
    }
    let mut counts: Vec<usize> = Vec::new();
    let mut c: usize = 0;
    while c < 64
        invariant
            c <= 64,
            counts@.len() == c,
            forall|t: int| 0 <= t < c ==> #[trigger] counts@[t] == 0,
        decreases 64 - c,
    {
        counts.push(0);
        c = c + 1;
    }
    let mut f: usize = 0;
    while f < 64
        invariant
            f <= 64,
            b == board@,
            b == gamestate@.board,
            b.len() == 64,
            counts@.len() == 64,
            forall|t: int| 0 <= t < 64 ==> (#[trigger] ours@[t] != UNREACHED <==> reached(b, team1, t)),
            forall|t: int|
                0 <= t < 64 ==> (#[trigger] theirs@[t] != UNREACHED <==> reached(b, team2, t)),
            forall|t: int|
                0 <= t < 64 ==> #[trigger] counts@[t] == arrivals(b, team1, team2, t, f as int),
            forall|t: int| 0 <= t < 64 ==> #[trigger] counts@[t] <= 42 * f,
        decreases 64 - f,
    {
        let spreading = board.nth(f).penguin() == Some(team2) || (theirs[f] != UNREACHED && ours[f]
            == UNREACHED);
        assert(spreading == spreads(b, team1, team2, f as int));
        proof {
            lemma_coords_of(f as int);
            lemma_arrivals_bound(b, coords_of(f as int));
        }
        if spreading {
            let ghost before = counts@;
            get_field_control(gamestate, Board::doubled_for(f), &mut counts);
            assert forall|t: int| 0 <= t < 64 implies #[trigger] counts@[t] == arrivals(
                b,
                team1,
                team2,
                t,
                f as int + 1,
            ) && counts@[t] <= 42 * (f + 1) by {
                assert(counts@[t] == before[t] + arrivals_from(b, coords_of(f as int), t));
                assert(arrivals_from(b, coords_of(f as int), t) <= 42);
            }
        }
        f = f + 1;
    }
    let mut net: i128 = 0;
    let mut t: usize = 0;
    while t < 64
        invariant
            t <= 64,
            b == board@,
            b == gamestate@.board,
            counts@.len() == 64,
            forall|u: int| 0 <= u < 64 ==> (#[trigger] ours@[u] != UNREACHED <==> reached(b, team1, u)),
            forall|u: int|
                0 <= u < 64 ==> (#[trigger] theirs@[u] != UNREACHED <==> reached(b, team2, u)),
            forall|u: int|
                0 <= u < 64 ==> #[trigger] counts@[u] == arrivals(b, team1, team2, u, 64),
            net == controlled(b, team1, team2, t as int),
            -(t * usize::MAX) <= net <= t * usize::MAX,
        decreases 64 - t,
    {
        let field = board.nth(t);
        proof {
            field.lemma_fish_bounded();
        }
        let fish = field.fish() as i128;
        let gain: i128 = if ours[t] != UNREACHED {
            fish
        } else if theirs[t] != UNREACHED {
            if counts[t] < 2 {
                -fish
            } else if counts[t] == 2 {
                0
            } else {
                fish
            }
        } else {
            0
        };
        assert(gain == mark(b, team1, team2, t as int) * b[t as int].fish) by {
            let sign = mark(b, team1, team2, t as int);
            assert(sign == 1 || sign == 0 || sign == -1);
            assert(1 * fish == fish && 0 * fish == 0 && (-1) * fish == -fish);
        }
        net = net + gain;
        t = t + 1;
    }
    net
}

/// The fish that the current team controls, less those that its opponent
/// controls, seen from the given perspective.
pub open spec fn control_lead(s: StateView, perspective: int) -> int {
    let ahead = controlled(s.board, s.current_team(), s.current_team().spec_opponent(), 64);
    if perspective == 1 {
        ahead
    } else {
        -ahead
    }
}

/// The fish that the current team controls, less those that its opponent
/// controls, seen from the given perspective.
pub fn get_controlled_fields(gamestate: &State, my_turn: i32) -> (r: i128)
    ensures
        r == control_lead(gamestate@, my_turn as int),
{
    let team = gamestate.current_team();
    proof {
        lemma_controlled_bound(gamestate@.board, team, team.spec_opponent(), 64);
        use_type_invariant(gamestate);
    }
    let ahead = get_controlled_fields_of(gamestate, team, team.opponent());
    if my_turn == 1 {
        ahead
    } else {
        -ahead
    }
}

/// The fish counted with their marks are no more than the fish on the
/// board, to either side.
pub proof fn lemma_controlled_bound(b: BoardView, first: Team, second: Team, n: int)
    requires
        0 <= n,
    ensures
        -board_fish(b, n) <= controlled(b, first, second, n)
            <= board_fish(b, n),
    decreases n,
{
    if n > 0 {
        lemma_controlled_bound(b, first, second, n - 1);
        let sign = mark(b, first, second, n - 1);
        let fish = b[n - 1].fish as int;
        assert(sign == 1 || sign == 0 || sign == -1);
        assert(1 * fish == fish && 0 * fish == 0 && (-1) * fish == -fish);
    }
}

} // verus!
