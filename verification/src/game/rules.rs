//! The rules of the game as mathematics: what a board and a state are, which
//! moves exist, and what a move does.

use super::error::MoveError;
use super::field::FieldView;
use super::moves::Move;
use super::team::Team;
use super::vec2::{straight_delta, Doubled, Vec2};
use vstd::prelude::*;

verus! {

/// A board as a mathematical value: its fields in row-major order.
pub type BoardView = Seq<FieldView>;

/// Whether the doubled point lies on the board. A negative `x` is ruled out
/// before halving, which rounds toward zero.
pub open spec fn in_bounds(p: Vec2<Doubled>) -> bool {
    &&& 0 <= p.x
    &&& p.x / 2 < 8
    &&& 0 <= p.y < 8
}

/// The row-major index of a point on the board.
pub open spec fn index_of(p: Vec2<Doubled>) -> int {
    p.y * 8 + p.x / 2
}

/// The doubled point of the field with the given row-major index.
pub open spec fn coords_of(i: int) -> Vec2<Doubled> {
    Vec2::at(2 * (i % 8) + (i / 8) % 2, i / 8)
}

/// What the board holds at a point; off the board, nothing.
pub open spec fn field_at(b: BoardView, p: Vec2<Doubled>) -> FieldView {
    if in_bounds(p) {
        b[index_of(p)]
    } else {
        FieldView::empty()
    }
}

/// Whether a penguin can land on the point: it lies on the board and has
/// fish. A floe that was fished empty has none, nor has one with a penguin.
pub open spec fn landable(b: BoardView, p: Vec2<Doubled>) -> bool {
    field_at(b, p).fish > 0
}

/// The number of consecutive landable points along the `i`-th direction from
/// `from`, counted from the `n`-th step up to the seventh.
pub open spec fn run_length(b: BoardView, from: Vec2<Doubled>, i: int, n: int) -> nat
    decreases 8 - n,
{
    if n < 1 || n > 7 || !landable(b, from.spec_sliding(i, n)) {
        0
    } else {
        1 + run_length(b, from, i, n + 1)
    }
}

/// The slides from `from` along the `i`-th direction, nearest first: one to
/// each point before the first that is not landable.
pub open spec fn ray(b: BoardView, from: Vec2<Doubled>, i: int) -> Seq<Move> {
    Seq::new(run_length(b, from, i, 1), |k: int| Move::slide(from, from.spec_sliding(i, k + 1)))
}

/// The slides from `from`, direction by direction.
#[verifier::opaque]
pub open spec fn moves_from(b: BoardView, from: Vec2<Doubled>) -> Seq<Move> {
    ray(b, from, 0) + ray(b, from, 1) + ray(b, from, 2) + ray(b, from, 3) + ray(b, from, 4)
        + ray(b, from, 5)
}

/// A state of the game as a mathematical value.
pub struct StateView {
    /// The board.
    pub board: BoardView,
    /// The number of moves made so far.
    pub turn: nat,
    /// The fish that each team has caught, by the team's index.
    pub fish: Seq<nat>,
    /// The most recent move.
    pub last_move: Option<Move>,
    /// The team that made the first move.
    pub start_team: Team,
}

/// What `perform` records of the state before a move, so that the move can be
/// taken back.
pub struct CapturedView {
    /// What the origin of a slide held; `None` for a placement.
    pub vacated: Option<FieldView>,
    /// What the target held.
    pub landed: FieldView,
    /// The fish that the move added to the mover's score.
    pub catch: nat,
    /// The move before this one.
    pub last_move: Option<Move>,
}

/// Whether a penguin stands on the field that the filter selects: any
/// penguin without a filter, else one of the given team.
pub open spec fn selected(filter: Option<Team>, f: FieldView) -> bool {
    f.penguin is Some && (filter is None || f.penguin == filter)
}

/// The number of selected penguins among the first `n` fields.
pub open spec fn penguin_count(b: BoardView, filter: Option<Team>, n: int) -> nat
    decreases n,
{
    if n <= 0 {
        0
    } else {
        penguin_count(b, filter, n - 1) + if selected(filter, b[n - 1]) {
            1nat
        } else {
            0nat
        }
    }
}

/// The number of fish on the first `n` fields.
pub open spec fn board_fish(b: BoardView, n: int) -> nat
    decreases n,
{
    if n <= 0 {
        0
    } else {
        board_fish(b, n - 1) + b[n - 1].fish
    }
}

/// The number of fields with fish among the first `n`.
pub open spec fn fishy_fields(b: BoardView, n: int) -> nat
    decreases n,
{
    if n <= 0 {
        0
    } else {
        fishy_fields(b, n - 1) + if b[n - 1].fish > 0 {
            1nat
        } else {
            0nat
        }
    }
}

/// The number of penguins of `team` on the first `n` fields that have a
/// slide.
pub open spec fn movable_penguins(b: BoardView, team: Team, n: int) -> nat
    decreases n,
{
    if n <= 0 {
        0
    } else {
        movable_penguins(b, team, n - 1) + if b[n - 1].penguin == Some(team) && moves_from(
            b,
            coords_of(n - 1),
        ).len() > 0 {
            1nat
        } else {
            0nat
        }
    }
}

/// Whether no neighbor of the point is landable.
pub open spec fn boxed_in(b: BoardView, p: Vec2<Doubled>) -> bool {
    forall|i: int| 0 <= i < 6 ==> !landable(b, #[trigger] p.spec_sliding(i, 1))
}

/// Whether the selected penguins are all on the board (four of one team, or
/// all eight) and none of them can move.
pub open spec fn immovable(b: BoardView, filter: Option<Team>) -> bool {
    &&& penguin_count(b, filter, 64) == (if filter is None {
        8nat
    } else {
        4nat
    })
    &&& forall|k: int| 0 <= k < 64 && selected(filter, #[trigger] b[k]) ==> boxed_in(b, coords_of(k))
}

/// The penguins on the first `n` fields with their points, in row-major
/// order.
pub open spec fn penguins(b: BoardView, n: int) -> Seq<(Vec2<Doubled>, Team)>
    decreases n,
{
    if n <= 0 {
        Seq::empty()
    } else if b[n - 1].penguin is Some {
        penguins(b, n - 1).push((coords_of(n - 1), b[n - 1].penguin->0))
    } else {
        penguins(b, n - 1)
    }
}

/// The fields among the first `n` on which a penguin of `team` stands, with
/// their points, in row-major order.
pub open spec fn pieces(b: BoardView, team: Team, n: int) -> Seq<(Vec2<Doubled>, FieldView)>
    decreases n,
{
    if n <= 0 {
        Seq::empty()
    } else if b[n - 1].penguin == Some(team) {
        pieces(b, team, n - 1).push((coords_of(n - 1), b[n - 1]))
    } else {
        pieces(b, team, n - 1)
    }
}

/// The placements on the fields with exactly one fish among the first `n`,
/// in row-major order.
pub open spec fn placements(b: BoardView, n: int) -> Seq<Move>
    decreases n,
{
    if n <= 0 {
        Seq::empty()
    } else if b[n - 1].fish == 1 {
        placements(b, n - 1).push(Move::put(coords_of(n - 1)))
    } else {
        placements(b, n - 1)
    }
}

/// The slides of the penguins of `team` on the first `n` fields, penguin by
/// penguin in row-major order.
pub open spec fn slides(b: BoardView, team: Team, n: int) -> Seq<Move>
    decreases n,
{
    if n <= 0 {
        Seq::empty()
    } else if b[n - 1].penguin == Some(team) {
        slides(b, team, n - 1) + moves_from(b, coords_of(n - 1))
    } else {
        slides(b, team, n - 1)
    }
}

impl StateView {
    /// The team whose turn it is by the parity of the turn alone.
    pub open spec fn team_from_turn(self) -> Team {
        if self.turn % 2 == 0 {
            self.start_team
        } else {
            self.start_team.spec_opponent()
        }
    }

    /// The team that moves next: the team by parity, unless its four
    /// penguins are all boxed in, in which case it is skipped.
    pub open spec fn current_team(self) -> Team {
        if immovable(self.board, Some(self.team_from_turn())) {
            self.team_from_turn().spec_opponent()
        } else {
            self.team_from_turn()
        }
    }

    /// Whether the current team has placed all its penguins.
    pub open spec fn placed(self) -> bool {
        penguin_count(self.board, Some(self.current_team()), 64) >= 4
    }

    /// Whether the game is over: all eight penguins are placed and boxed in.
    pub open spec fn is_over(self) -> bool {
        immovable(self.board, None)
    }

    /// The winner of a game that is over: the team with more fish, if any.
    pub open spec fn winner(self) -> Option<Team> {
        if !self.is_over() || self.fish[0] == self.fish[1] {
            None
        } else if self.fish[0] > self.fish[1] {
            Some(Team::One)
        } else {
            Some(Team::Two)
        }
    }

    /// The moves of the current team: placements while it has penguins left
    /// to place, slides after that.
    pub open spec fn possible_moves(self) -> Seq<Move> {
        if self.placed() {
            slides(self.board, self.current_team(), 64)
        } else {
            placements(self.board, 64)
        }
    }

    /// The moves that the opponent of the current team would have if it were
    /// to move.
    pub open spec fn opponent_moves(self) -> Seq<Move> {
        let team = self.current_team().spec_opponent();
        if penguin_count(self.board, Some(team), 64) >= 4 {
            slides(self.board, team, 64)
        } else {
            placements(self.board, 64)
        }
    }

    /// All fish of the game: those caught and those still on the board.
    pub open spec fn total_fish(self) -> nat {
        self.fish[0] + self.fish[1] + board_fish(self.board, 64)
    }

    /// The validity of a state: a board of 64 valid fields with at most four
    /// penguins per team, two scores, and room in a machine word for all
    /// fish in one score and for a turn counter that advances once for each
    /// field that still has fish.
    pub open spec fn wf(self) -> bool {
        &&& self.board.len() == 64
        &&& forall|k: int| 0 <= k < 64 ==> (#[trigger] self.board[k]).wf()
        &&& self.fish.len() == 2
        &&& penguin_count(self.board, Some(Team::One), 64) <= 4
        &&& penguin_count(self.board, Some(Team::Two), 64) <= 4
        &&& self.total_fish() <= usize::MAX
        &&& self.turn + fishy_fields(self.board, 64) <= usize::MAX
    }

    /// Whether the current team may make the move: a placement puts one of
    /// its remaining penguins on a field with exactly one fish; a slide takes
    /// one of its penguins, once all are placed, along a straight line over
    /// landable fields only.
    pub open spec fn legal(self, m: Move) -> bool {
        &&& in_bounds(m.to)
        &&& match m.from {
            Some(from) => {
                &&& in_bounds(from)
                &&& self.board[index_of(from)].penguin == Some(self.current_team())
                &&& self.placed()
                &&& straight_delta(m.to.x - from.x, m.to.y - from.y)
                &&& moves_from(self.board, from).contains(m)
            },
            None => {
                &&& !self.placed()
                &&& self.board[index_of(m.to)].fish == 1
            },
        }
    }

    /// The first reason for which the move is refused, if there is one. Of a
    /// slide the origin is looked at first: it must lie on the board and hold
    /// a penguin of the mover, who must have placed all penguins. Then the
    /// line must be straight, the target must lie on the board, and the way
    /// must be free. Of a placement the mover must have a penguin left, the
    /// target must lie on the board, and it must hold exactly one fish.
    pub open spec fn refusal(self, m: Move) -> Option<MoveError> {
        match m.from {
            Some(from) => {
                if !in_bounds(from) {
                    Some(MoveError::OutOfBounds)
                } else if self.board[index_of(from)].penguin != Some(self.current_team()) {
                    Some(MoveError::NotOwnPenguin)
                } else if !self.placed() {
                    Some(MoveError::StillPlacing)
                } else if !straight_delta(m.to.x - from.x, m.to.y - from.y) {
                    Some(MoveError::NotStraight)
                } else if !in_bounds(m.to) {
                    Some(MoveError::OutOfBounds)
                } else if !moves_from(self.board, from).contains(m) {
                    Some(MoveError::Blocked)
                } else {
                    None
                }
            },
            None => {
                if self.placed() {
                    Some(MoveError::AlreadyPlaced)
                } else if !in_bounds(m.to) {
                    Some(MoveError::OutOfBounds)
                } else if self.board[index_of(m.to)].fish != 1 {
                    Some(MoveError::NotOneFish)
                } else {
                    None
                }
            },
        }
    }

    /// The board after the origin of the move, if it has one, was vacated.
    pub open spec fn vacated_board(self, m: Move) -> BoardView {
        match m.from {
            Some(from) => self.board.update(index_of(from), FieldView::empty()),
            None => self.board,
        }
    }

    /// The state after the current team has made the move.
    pub open spec fn perform(self, m: Move) -> StateView {
        let team = self.current_team();
        let catch = self.vacated_board(m)[index_of(m.to)].fish;
        StateView {
            board: self.vacated_board(m).update(index_of(m.to), FieldView::placed(team)),
            turn: self.turn + 1,
            fish: self.fish.update(team.spec_index(), self.fish[team.spec_index()] + catch),
            last_move: Some(m),
            start_team: self.start_team,
        }
    }

    /// What `perform` records of the state for the move.
    pub open spec fn captured(self, m: Move) -> CapturedView {
        CapturedView {
            vacated: match m.from {
                Some(from) => Some(self.board[index_of(from)]),
                None => None,
            },
            landed: self.vacated_board(m)[index_of(m.to)],
            catch: self.vacated_board(m)[index_of(m.to)].fish,
            last_move: self.last_move,
        }
    }

    /// The state before `team` made the move, given what was recorded.
    pub open spec fn undo(self, m: Move, c: CapturedView, team: Team) -> StateView {
        let restored = self.board.update(index_of(m.to), c.landed);
        StateView {
            board: match (m.from, c.vacated) {
                (Some(from), Some(field)) => restored.update(index_of(from), field),
                _ => restored,
            },
            turn: (self.turn - 1) as nat,
            fish: self.fish.update(
                team.spec_index(),
                (self.fish[team.spec_index()] - c.catch) as nat,
            ),
            last_move: c.last_move,
            start_team: self.start_team,
        }
    }

    /// Whether the recorded values fit the state, so that `undo` stays within
    /// the board and above zero.
    pub open spec fn can_undo(self, m: Move, c: CapturedView, team: Team) -> bool {
        &&& in_bounds(m.to)
        &&& m.from is Some ==> in_bounds(m.from->0) && c.vacated is Some
        &&& self.turn >= 1
        &&& self.fish[team.spec_index()] >= c.catch
        &&& self.undo(m, c, team).wf()
    }
}

} // verus!
