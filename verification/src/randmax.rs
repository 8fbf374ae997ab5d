//! Random playouts: games played to their end with moves drawn at random.

use crate::game::laws::{lemma_perform, lemma_possible_moves_legal, lemma_undo_perform};
use crate::game::rules::fishy_fields;
use crate::game::{Move, State, StateView, Team};
use rand::seq::SliceRandom;
use vstd::prelude::*;

verus! {

/// The number of playouts of a simulation.
pub const TESTS: i32 = 10;

/// `rand::seq::SliceRandom::choose` with the generator of `rand::thread_rng`:
/// nothing of an empty list, else one of the moves of the list. Which one is
/// left open, and two calls may differ.
#[verifier::external_body]
fn choose_move(moves: &Vec<Move>) -> (r: Option<Move>)
    ensures
        moves@.len() == 0 ==> r is None,
        moves@.len() > 0 ==> r is Some && moves@.contains(r->0),
{
    moves.choose(&mut rand::thread_rng()).copied()
}

/// The outcome of a game for a team: 1 if it has won, -1 if its opponent has
/// won, 0 if nobody has.
pub open spec fn outcome(s: StateView, me: Team) -> int {
    match s.winner() {
        None => 0,
        Some(team) => if team == me {
            1
        } else {
            -1
        },
    }
}

/// Whether `r` is what some playout of at most `n` moves from the state
/// ends with: the outcome of the finished game to which its moves lead, or
/// 0 where they lead to a state that is not over and has no move.
pub open spec fn ends_with(s: StateView, me: Team, r: int, n: nat) -> bool
    decreases n,
{
    if s.is_over() {
        r == outcome(s, me)
    } else if s.possible_moves().len() == 0 {
        r == 0
    } else {
        n > 0 && exists|m: Move| #[trigger]
            s.possible_moves().contains(m) && ends_with(s.perform(m), me, r, (n - 1) as nat)
    }
}

/// What a playout from the state after a move ends with, a playout from the
/// state ends with too.
pub proof fn lemma_ends_with(s: StateView, me: Team, r: int, n: nat, m: Move)
    requires
        !s.is_over(),
        s.possible_moves().contains(m),
        n > 0,
        ends_with(s.perform(m), me, r, (n - 1) as nat),
    ensures
        ends_with(s, me, r, n),
{
    assert(s.possible_moves().len() > 0);
}

/// The outcome of the state for a team.
pub fn outcome_of(gamestate: &State, my_team: Team) -> (r: i32)
    ensures
        r == outcome(gamestate@, my_team),
{
    match gamestate.winner() {
        None => 0,
        Some(team) => if team == my_team {
            1
        } else {
            -1
        },
    }
}

/// Plays the given move of the state and then random moves to the end of the
/// game, and takes all of them back. Returns what the playout ends with.
pub fn play_on(gamestate: &mut State, my_team: Team, m: Move) -> (r: i32)
    requires
        old(gamestate)@.possible_moves().contains(m),
    ensures
        final(gamestate)@ == old(gamestate)@,
        -1 <= r <= 1,
        fishy_fields(old(gamestate)@.board, 64) > 0,
        ends_with(
            old(gamestate)@.perform(m),
            my_team,
            r as int,
            (fishy_fields(old(gamestate)@.board, 64) - 1) as nat,
        ),
    decreases fishy_fields(old(gamestate)@.board, 64), 0nat,
{
    proof {
        use_type_invariant(&*gamestate);
        lemma_possible_moves_legal(gamestate@, m);
        lemma_perform(gamestate@, m);
        lemma_undo_perform(gamestate@, m);
    }
    let team = gamestate.current_team();
    match gamestate.perform(m) {
        // A move of the state is never refused.
        Err(_) => 0,
        Ok(captured) => {
            let r = randmax(gamestate, my_team);
            gamestate.undo_move(m, captured, team);
            r
        },
    }
}

/// Plays random moves from the state to the end of the game, and takes all
/// of them back. Returns what the playout ends with: the outcome of the
/// finished game for `my_team`, or 0 if the playout comes to a state that is
/// not over and has no move.
pub fn randmax(gamestate: &mut State, my_team: Team) -> (r: i32)
    ensures
        final(gamestate)@ == old(gamestate)@,
        -1 <= r <= 1,
        ends_with(old(gamestate)@, my_team, r as int, fishy_fields(old(gamestate)@.board, 64)),
    decreases fishy_fields(old(gamestate)@.board, 64), 1nat,
{
    if gamestate.is_over() {
        return outcome_of(gamestate, my_team);
    }
    let ghost s = gamestate@;
    let moves = gamestate.possible_moves();
    match choose_move(&moves) {
        None => {
            assert(ends_with(s, my_team, 0, fishy_fields(s.board, 64)));
            0
        },
        Some(m) => {
            let r = play_on(gamestate, my_team, m);
            assert(s.possible_moves().contains(m) && ends_with(
                s.perform(m),
                my_team,
                r as int,
                (fishy_fields(s.board, 64) - 1) as nat,
            ));
            proof {
                lemma_ends_with(s, my_team, r as int, fishy_fields(s.board, 64), m);
            }
            r
        },
    }
}

/// Whether each of the values is what some playout from the state ends with
/// for the team.
pub open spec fn playouts(s: StateView, me: Team, outcomes: Seq<int>) -> bool {
    forall|i: int|
        0 <= i < outcomes.len() ==> ends_with(
            s,
            me,
            #[trigger] outcomes[i],
            fishy_fields(s.board, 64),
        )
}

/// The sum of the values.
pub open spec fn total(outcomes: Seq<int>) -> int
    decreases outcomes.len(),
{
    if outcomes.len() == 0 {
        0
    } else {
        total(outcomes.drop_last()) + outcomes.last()
    }
}

/// The sum of what ten random playouts from the state end with for the
/// current team, times `my_turn`.
pub fn get_game_sim(gamestate: &State, my_turn: i32) -> (r: i64)
    ensures
        exists|outcomes: Seq<int>|
            outcomes.len() == TESTS && #[trigger] playouts(
                gamestate@,
                gamestate@.current_team(),
                outcomes,
            ) && r == my_turn * total(outcomes),
{
    let team = gamestate.current_team();
    let ghost s = gamestate@;
    let mut state = *gamestate;
    let mut sum: i32 = 0;
    let ghost mut outcomes: Seq<int> = Seq::empty();
    let mut i: i32 = 0;
    while i < TESTS
        invariant
            0 <= i <= TESTS,
            state@ == s,
            team == s.current_team(),
            outcomes.len() == i,
            playouts(s, team, outcomes),
            sum == total(outcomes),
            -i <= sum <= i,
        decreases TESTS - i,
    {
        let r = randmax(&mut state, team);
        proof {
            let before = outcomes;
            outcomes = outcomes.push(r as int);
            assert(outcomes.drop_last() =~= before);
        }
        sum = sum + r;
        i = i + 1;
    }
    assert(-0x8000_0000 * 10 <= my_turn * sum <= 0x8000_0000 * 10) by (nonlinear_arith)
        requires
            -0x8000_0000 <= my_turn < 0x8000_0000,
            -10 <= sum <= 10,
    ;
    assert(playouts(s, s.current_team(), outcomes) && outcomes.len() == TESTS);
    my_turn as i64 * sum as i64
}

} // verus!
