//! Scores of positions: the interface through which the search asks for the
//! score of a position, and the evaluators that the library brings along.

pub use crate::control::{get_controlled_fields, get_controlled_fields_of, get_field_control};
use crate::game::laws::{lemma_coords_of, lemma_moves_bound};
use crate::game::rules::{board_fish, movable_penguins};
use crate::game::{Board, State, StateView, Team};
use crate::territory::{claim, claim_of, lemma_claim_bound};
use vstd::prelude::*;

verus! {

/// The score of a position. Higher is better for the side that asks.
pub type Score = i128;

/// The score of a position that the asking side has won.
pub const WIN: Score = i128::MAX;

/// The score of a position that the asking side has lost.
pub const LOSS: Score = i128::MIN;

/// The score of a drawn position.
pub const DRAW: Score = 0;

/// Scores positions that are not decided. An evaluator is a function of the
/// state and the perspective alone: `1` asks for the current team, `-1` for
/// its opponent.
pub trait Evaluator {
    /// The score of the state from the given perspective.
    spec fn score(&self, s: StateView, perspective: int) -> int;

    /// The score of the state from the given perspective.
    fn evaluate(&self, state: &State, perspective: i32) -> (r: Score)
        requires
            perspective == 1 || perspective == -1,
        ensures
            r == self.score(state@, perspective as int),
    ;

    /// The score of a valid state lies between that of a loss and that of a
    /// win.
    proof fn lemma_score_range(&self, s: StateView, perspective: int)
        requires
            s.wf(),
            perspective == 1 || perspective == -1,
        ensures
            LOSS <= self.score(s, perspective) <= WIN,
    ;
}

/// The lead in fish of the team that `perspective` picks: of the current
/// team for `1`, of its opponent otherwise.
pub open spec fn fish_lead(s: StateView, perspective: int) -> int {
    let us = s.fish[s.current_team().spec_index()];
    let them = s.fish[s.current_team().spec_opponent().spec_index()];
    if perspective == 1 {
        us - them
    } else {
        them - us
    }
}

/// The lead in fish of the current team over its opponent, seen from the
/// given perspective.
pub fn get_fish_dif(gamestate: &State, my_turn: i32) -> (r: Score)
    ensures
        r == fish_lead(gamestate@, my_turn as int),
{
    let team = gamestate.current_team();
    let us = gamestate.fish(team) as i128;
    let them = gamestate.fish(team.opponent()) as i128;
    if my_turn == 1 {
        us - them
    } else {
        them - us
    }
}

/// The number of moves by which the current team is ahead of its opponent,
/// seen from the given perspective.
pub open spec fn move_lead(s: StateView, perspective: int) -> int {
    let ahead = s.possible_moves().len() - s.opponent_moves().len();
    if perspective == 1 {
        ahead
    } else {
        -ahead
    }
}

/// The number of moves by which the current team is ahead of its opponent,
/// seen from the given perspective.
pub fn get_move_num(gamestate: &State, my_turn: i32) -> (r: Score)
    ensures
        r == move_lead(gamestate@, my_turn as int),
{
    let ours = gamestate.possible_moves().len() as i128;
    let theirs = gamestate.opponent_moves().len() as i128;
    if my_turn == 1 {
        ours - theirs
    } else {
        theirs - ours
    }
}

/// The number of fish that are left on the board.
pub fn get_fish_left(gamestate: &State) -> (r: usize)
    ensures
        r == board_fish(gamestate@.board, 64),
{
    gamestate.get_fish_left()
}

/// The number of penguins of the team that have a slide.
pub fn get_moveable_peguins(gamestate: &State, team: Team) -> (r: usize)
    ensures
        r == movable_penguins(gamestate@.board, team, 64),
        r <= 64,
{
    let board = gamestate.board();
    let mut count: usize = 0;
    let mut i: usize = 0;
    while i < 64
        invariant
            i <= 64,
            count <= i,
            board@ == gamestate@.board,
            count == movable_penguins(board@, team, i as int),
        decreases 64 - i,
    {
        if board.nth(i).penguin() == Some(team) {
            proof {
                lemma_coords_of(i as int);
            }
            if board.possible_moves_from(Board::doubled_for(i)).len() > 0 {
                count = count + 1;
            }
        }
        i = i + 1;
    }
    count
}

/// The number of movable penguins by which the current team is ahead of its
/// opponent, seen from the given perspective.
pub open spec fn mobility_lead(s: StateView, perspective: int) -> int {
    let ahead = movable_penguins(s.board, s.current_team(), 64) - movable_penguins(
        s.board,
        s.current_team().spec_opponent(),
        64,
    );
    if perspective == 1 {
        ahead
    } else {
        -ahead
    }
}

/// The number of movable penguins by which the current team is ahead of its
/// opponent, seen from the given perspective.
pub fn get_pengu(gamestate: &State, my_turn: i32) -> (r: Score)
    ensures
        r == mobility_lead(gamestate@, my_turn as int),
{
    let team = gamestate.current_team();
    let ours = get_moveable_peguins(gamestate, team) as i128;
    let theirs = get_moveable_peguins(gamestate, team.opponent()) as i128;
    if my_turn == 1 {
        ours - theirs
    } else {
        theirs - ours
    }
}

/// The number of moves made so far.
pub fn get_turn(gamestate: &State) -> (r: usize)
    ensures
        r == gamestate@.turn,
{
    gamestate.turn()
}

/// The score of a state by territory for the team that `perspective`
/// picks, the opponent of the current team for `-1` and the current team
/// otherwise: twice the lead that the team has once the fish on the board
/// have fallen to the team that is nearer to them, less one.
pub open spec fn territory(s: StateView, perspective: int) -> int {
    let us = if perspective == -1 {
        s.current_team().spec_opponent()
    } else {
        s.current_team()
    };
    let lead = s.fish[us.spec_index()] - s.fish[us.spec_opponent().spec_index()];
    2 * (lead + claim(s.board, us, 64)) - 1
}

/// Scores a state by territory, for the current team or, where `my_turn` is
/// `-1`, for its opponent.
pub fn evaluate(s: &State, my_turn: i32) -> (r: Score)
    ensures
        r == territory(s@, my_turn as int),
{
    let us = if my_turn == -1 {
        s.current_team().opponent()
    } else {
        s.current_team()
    };
    proof {
        lemma_claim_bound(s@.board, us, 64);
        use_type_invariant(s);
    }
    let lead = s.fish(us) as i128 - s.fish(us.opponent()) as i128;
    2 * (lead + claim_of(s.board(), us)) - 1
}

/// Scores a position by territory.
#[derive(Debug, Clone, Copy)]
pub struct Territory;

impl Evaluator for Territory {
    open spec fn score(&self, s: StateView, perspective: int) -> int {
        territory(s, perspective)
    }

    fn evaluate(&self, state: &State, perspective: i32) -> (r: Score) {
        evaluate(state, perspective)
    }

    proof fn lemma_score_range(&self, s: StateView, perspective: int) {
        lemma_claim_bound(s.board, s.current_team(), 64);
        lemma_claim_bound(s.board, s.current_team().spec_opponent(), 64);
    }
}

/// Scores a position by the lead in fish alone.
#[derive(Debug, Clone, Copy)]
pub struct FishLead;

impl Evaluator for FishLead {
    open spec fn score(&self, s: StateView, perspective: int) -> int {
        fish_lead(s, perspective)
    }

    fn evaluate(&self, state: &State, perspective: i32) -> (r: Score) {
        get_fish_dif(state, perspective)
    }

    proof fn lemma_score_range(&self, s: StateView, perspective: int) {
    }
}

/// The number of movable penguins among the first `n` fields is at most `n`.
pub proof fn lemma_movable_bound(b: crate::game::rules::BoardView, team: Team, n: int)
    requires
        0 <= n,
    ensures
        movable_penguins(b, team, n) <= n,
    decreases n,
{
    if n > 0 {
        lemma_movable_bound(b, team, n - 1);
    }
}

/// Scores a position by a weighted sum of its features. The weights are
/// data: one for the lead in fish, one for the lead in moves, one for the
/// lead in movable penguins, and one for the score by territory.
#[derive(Debug, Clone, Copy, PartialEq, Eq)]
pub struct Weighted {
    pub fish: i32,
    pub moves: i32,
    pub penguins: i32,
    pub territory: i32,
}

/// The weighted sum of the features of a state, from the given perspective.
pub open spec fn weighted(w: Weighted, s: StateView, perspective: int) -> int {
    w.fish * fish_lead(s, perspective) + w.moves * move_lead(s, perspective) + w.penguins
        * mobility_lead(s, perspective) + w.territory * territory(s, perspective)
}

/// The features of a valid state are bounded.
pub proof fn lemma_feature_bounds(s: StateView, perspective: int)
    requires
        s.wf(),
    ensures
        -0x1_0000_0000_0000_0000 <= fish_lead(s, perspective) <= 0x1_0000_0000_0000_0000,
        -2688 <= move_lead(s, perspective) <= 2688,
        -64 <= mobility_lead(s, perspective) <= 64,
        -0x8_0000_0000_0000_0000 <= territory(s, perspective) <= 0x8_0000_0000_0000_0000,
{
    lemma_moves_bound(s.board, s.current_team(), 64);
    lemma_moves_bound(s.board, s.current_team().spec_opponent(), 64);
    lemma_movable_bound(s.board, s.current_team(), 64);
    lemma_movable_bound(s.board, s.current_team().spec_opponent(), 64);
    lemma_claim_bound(s.board, s.current_team(), 64);
    lemma_claim_bound(s.board, s.current_team().spec_opponent(), 64);
}

/// A product of a weight and a bounded feature is bounded.
proof fn lemma_weighted_term(w: int, f: int, bound: int)
    requires
        -0x8000_0000 <= w <= 0x8000_0000,
        -bound <= f <= bound,
        0 <= bound,
    ensures
        -0x8000_0000 * bound <= w * f <= 0x8000_0000 * bound,
{
    assert(-0x8000_0000 * bound <= w * f <= 0x8000_0000 * bound) by (nonlinear_arith)
        requires
            -0x8000_0000 <= w <= 0x8000_0000,
            -bound <= f <= bound,
            0 <= bound,
    ;
}

impl Evaluator for Weighted {
    open spec fn score(&self, s: StateView, perspective: int) -> int {
        weighted(*self, s, perspective)
    }

    fn evaluate(&self, state: &State, perspective: i32) -> (r: Score) {
        proof {
            use_type_invariant(state);
            lemma_feature_bounds(state@, perspective as int);
            lemma_weighted_term(
                self.fish as int,
                fish_lead(state@, perspective as int),
                0x1_0000_0000_0000_0000,
            );
            lemma_weighted_term(self.moves as int, move_lead(state@, perspective as int), 2688);
            lemma_weighted_term(
                self.penguins as int,
                mobility_lead(state@, perspective as int),
                64,
            );
            lemma_weighted_term(
                self.territory as int,
                territory(state@, perspective as int),
                0x8_0000_0000_0000_0000,
            );
        }
        let fish = self.fish as i128 * get_fish_dif(state, perspective);
        let moves = self.moves as i128 * get_move_num(state, perspective);
        let penguins = self.penguins as i128 * get_pengu(state, perspective);
        let land = self.territory as i128 * evaluate(state, perspective);
        fish + moves + penguins + land
    }

    proof fn lemma_score_range(&self, s: StateView, perspective: int) {
        lemma_feature_bounds(s, perspective);
        lemma_weighted_term(self.fish as int, fish_lead(s, perspective), 0x1_0000_0000_0000_0000);
        lemma_weighted_term(self.moves as int, move_lead(s, perspective), 2688);
        lemma_weighted_term(self.penguins as int, mobility_lead(s, perspective), 64);
        lemma_weighted_term(
            self.territory as int,
            territory(s, perspective),
            0x8_0000_0000_0000_0000,
        );
    }
}

} // verus!
