use super::board::Board;
use super::cells::{cells_get, cells_len, cells_new, cells_of, cells_try_push};
use super::constants::{PENGUINS_PER_TEAM, TEAMS};
use super::error::{MoveError, ParseError};
use super::field::Field;
use super::laws::{
    lemma_board_fish_grows, lemma_coords_of, lemma_field_within_totals, lemma_in_bounds, lemma_legal_target,
    lemma_perform,
};
use super::moves::Move;
use super::rules::{
    board_fish, boxed_in, coords_of, fishy_fields, immovable, in_bounds, index_of,
    penguin_count, pieces, placements, selected, slides, CapturedView, StateView,
};
use super::team::Team;
use super::text::parse_board;
use super::vec2::{Doubled, Vec2};
use vstd::prelude::*;

verus! {

/// What [`State::perform`] records of the state before a move, so that
/// [`State::undo_move`] can take the move back.
#[derive(Debug, Clone, Copy, PartialEq, Eq)]
pub struct Captured {
    vacated: Option<Field>,
    landed: Field,
    catch: usize,
    last_move: Option<Move>,
}

impl View for Captured {
    type V = CapturedView;

    closed spec fn view(&self) -> CapturedView {
        CapturedView {
            vacated: match self.vacated {
                Some(field) => Some(field@),
                None => None,
            },
            landed: self.landed@,
            catch: self.catch as nat,
            last_move: self.last_move,
        }
    }
}

impl Captured {
    /// The fish that the move added to the mover's score.
    pub fn catch(&self) -> (r: usize)
        ensures
            r == self@.catch,
    {
        self.catch
    }
}

/// The state of the game at a point in time.
#[derive(Debug, Clone, Copy, PartialEq, Eq)]
pub struct State {
    board: Board,
    turn: usize,
    fish: [usize; 2],
    last_move: Option<Move>,
    start_team: Team,
}

impl View for State {
    type V = StateView;

    closed spec fn view(&self) -> StateView {
        StateView {
            board: self.board@,
            turn: self.turn as nat,
            fish: seq![self.fish[0] as nat, self.fish[1] as nat],
            last_move: self.last_move,
            start_team: self.start_team,
        }
    }
}

/// Whether a move occurs in a list.
fn contains_move(moves: &Vec<Move>, m: Move) -> (r: bool)
    ensures
        r == moves@.contains(m),
{
    let mut i: usize = 0;
    while i < moves.len()
        invariant
            i <= moves@.len(),
            forall|k: int| 0 <= k < i ==> moves@[k] != m,
        decreases moves@.len() - i,
    {
        if moves[i] == m {
            return true;
        }
        i = i + 1;
    }
    false
}

impl State {
    /// The state that the parts make, or the reason for which they are
    /// refused: the text is no board, the fish are not those of two teams, or
    /// the state would not be valid.
    pub open spec fn parts_view(
        board: Seq<char>,
        turn: usize,
        fish: Seq<usize>,
        last_move: Option<Move>,
        start_team: Team,
    ) -> Result<StateView, ParseError> {
        match parse_board(board) {
            Err(e) => Err(e),
            Ok(fields) => if fish.len() != 2 {
                Err(ParseError::WrongTeamCount)
            } else {
                let view = StateView {
                    board: fields,
                    turn: turn as nat,
                    fish: seq![fish[0] as nat, fish[1] as nat],
                    last_move,
                    start_team,
                };
                if view.wf() {
                    Ok(view)
                } else if penguin_count(fields, Some(Team::One), 64) > 4 || penguin_count(
                    fields,
                    Some(Team::Two),
                    64,
                ) > 4 {
                    Err(ParseError::TooManyPenguins)
                } else if fish[0] + fish[1] + board_fish(fields, 64) > usize::MAX {
                    Err(ParseError::TooManyFish)
                } else {
                    Err(ParseError::TurnTooLarge)
                }
            },
        }
    }

    /// Two states with the same board, turn, fish, last move and starting
    /// team are the same state.
    pub proof fn lemma_view_injective(a: State, b: State)
        requires
            a@ == b@,
        ensures
            a == b,
    {
        Board::lemma_view_injective(a.board, b.board);
        assert(a@.fish[0] == b@.fish[0] && a@.fish[1] == b@.fish[1]);
        assert(a.fish =~= b.fish);
    }

    /// Every state is valid.
    #[verifier::type_invariant]
    pub open spec fn valid(&self) -> bool {
        self@.wf()
    }

    /// A state with the given parts. It is refused if a team has more than
    /// four penguins on the board, or if a machine word has no room for all
    /// fish in one score, or for the turns that can still follow.
    pub fn new(
        board: Board,
        turn: usize,
        fish: [usize; 2],
        last_move: Option<Move>,
        start_team: Team,
    ) -> (r: Result<State, ParseError>)
        ensures
            r is Ok <==> (StateView {
                board: board@,
                turn: turn as nat,
                fish: seq![fish[0] as nat, fish[1] as nat],
                last_move,
                start_team,
            }).wf(),
            r matches Ok(state) ==> state@ == (StateView {
                board: board@,
                turn: turn as nat,
                fish: seq![fish[0] as nat, fish[1] as nat],
                last_move,
                start_team,
            }),
            r matches Err(e) ==> e == (if penguin_count(board@, Some(Team::One), 64) > 4
                || penguin_count(board@, Some(Team::Two), 64) > 4 {
                ParseError::TooManyPenguins
            } else if fish[0] + fish[1] + board_fish(board@, 64) > usize::MAX {
                ParseError::TooManyFish
            } else {
                ParseError::TurnTooLarge
            }),
    {
        proof {
            board.lemma_size();
        }
        let mut on_board: u128 = 0;
        let mut fishy: usize = 0;
        let mut i: usize = 0;
        while i < 64
            invariant
                i <= 64,
                on_board == board_fish(board@, i as int),
                on_board <= i * usize::MAX,
                fishy == fishy_fields(board@, i as int),
                fishy <= i,
                forall|k: int| 0 <= k < i ==> (#[trigger] board@[k]).wf(),
            decreases 64 - i,
        {
            let field = board.nth(i);
            proof {
                use_type_invariant(&field);
                field.lemma_fish_bounded();
            }
            on_board = on_board + field.fish() as u128;
            if field.fish() > 0 {
                fishy = fishy + 1;
            }
            i = i + 1;
        }
        if board.penguin_count(Some(Team::One)) > PENGUINS_PER_TEAM || board.penguin_count(
            Some(Team::Two),
        ) > PENGUINS_PER_TEAM {
            return Err(ParseError::TooManyPenguins);
        }
        let total: u128 = on_board + fish[0] as u128 + fish[1] as u128;
        if total > usize::MAX as u128 {
            return Err(ParseError::TooManyFish);
        }
        if turn > usize::MAX - fishy {
            return Err(ParseError::TurnTooLarge);
        }
        Ok(State { board, turn, fish, last_move, start_team })
    }

    /// A state from the parts in which it is handed over: the text of the
    /// board, the turn, the fish of the teams, the last move, and the team
    /// that began. It is refused if the text is no board, if the fish are not
    /// those of two teams, or if the state that the parts make is not valid.
    pub fn from_parts(
        board: &str,
        turn: usize,
        fish: &Vec<usize>,
        last_move: Option<Move>,
        start_team: Team,
    ) -> (r: Result<State, ParseError>)
        ensures
            match Self::parts_view(board@, turn, fish@, last_move, start_team) {
                Ok(view) => r is Ok && r->Ok_0@ == view,
                Err(e) => r == Err::<State, ParseError>(e),
            },
    {
        let board = match Board::parse(board) {
            Ok(board) => board,
            Err(e) => {
                return Err(e);
            },
        };
        if fish.len() != 2 {
            return Err(ParseError::WrongTeamCount);
        }
        State::new(board, turn, [fish[0], fish[1]], last_move, start_team)
    }

    /// The board.
    pub fn board(&self) -> (r: &Board)
        ensures
            r@ == self@.board,
    {
        &self.board
    }

    /// The number of moves made so far.
    pub fn turn(&self) -> (r: usize)
        ensures
            r == self@.turn,
    {
        self.turn
    }

    /// The fish that the team has caught.
    pub fn fish(&self, team: Team) -> (r: usize)
        ensures
            r == self@.fish[team.spec_index()],
    {
        self.fish[team.index()]
    }

    /// The most recent move.
    pub fn last_move(&self) -> (r: Option<Move>)
        ensures
            r == self@.last_move,
    {
        self.last_move
    }

    /// The team that made the first move.
    pub fn start_team(&self) -> (r: Team)
        ensures
            r == self@.start_team,
    {
        self.start_team
    }

    /// The team whose turn it is by the parity of the turn alone.
    pub fn current_team_from_turn(&self) -> (r: Team)
        ensures
            r == self@.team_from_turn(),
    {
        self.start_team.opponent_if(self.turn % 2 != 0)
    }

    /// Whether the penguins that the filter selects are all on the board
    /// (four of the given team, or all eight without a filter) and every
    /// neighbor of each of them is without fish.
    pub fn immovable(&self, team: Option<Team>) -> (r: bool)
        ensures
            r == immovable(self@.board, team),
    {
        proof {
            self.board.lemma_size();
        }
        let mut list = cells_new();
        let ghost mut found: Seq<int> = Seq::empty();
        let mut i: usize = 0;
        while i < 64
            invariant
                i <= 64,
                self@.board == self.board@,
                self.board@.len() == 64,
                found.len() == cells_of(list).len(),
                found.len() == penguin_count(self.board@, team, i as int),
                found.len() <= i,
                forall|j: int|
                    0 <= j < found.len() ==> 0 <= #[trigger] found[j] < i && selected(
                        team,
                        self.board@[found[j]],
                    ) && cells_of(list)[j].0 == coords_of(found[j]),
                forall|k: int|
                    0 <= k < i && selected(team, #[trigger] self.board@[k]) ==> found.contains(k),
            decreases 64 - i,
        {
            let field = self.board.nth(i);
            if Board::selected(team, field) {
                let pushed = cells_try_push(&mut list, (Board::doubled_for(i), field));
                proof {
                    let ghost before = found;
                    found = found.push(i as int);
                    assert forall|k: int|
                        0 <= k < i + 1 && selected(
                            team,
                            #[trigger] self.board@[k],
                        ) implies found.contains(k) by {
                        if k < i {
                            let j = choose|j: int| 0 <= j < before.len() && before[j] == k;
                            assert(found[j] == k);
                        } else {
                            assert(found[before.len() as int] == k);
                        }
                    }
                }
            }
            i = i + 1;
        }
        let wanted: usize = if team.is_none() {
            TEAMS * PENGUINS_PER_TEAM
        } else {
            PENGUINS_PER_TEAM
        };
        if cells_len(&list) != wanted {
            return false;
        }
        let mut j: usize = 0;
        while j < cells_len(&list)
            invariant
                j <= found.len(),
                self@.board == self.board@,
                found.len() == cells_of(list).len(),
                forall|j: int|
                    0 <= j < found.len() ==> 0 <= #[trigger] found[j] < 64 && selected(
                        team,
                        self.board@[found[j]],
                    ) && cells_of(list)[j].0 == coords_of(found[j]),
                forall|k: int|
                    0 <= k < 64 && selected(team, #[trigger] self.board@[k]) ==> found.contains(k),
                forall|h: int| 0 <= h < j ==> boxed_in(self.board@, coords_of(#[trigger] found[h])),
            decreases found.len() - j,
        {
            let cell = cells_get(&list, j);
            proof {
                lemma_coords_of(found[j as int]);
            }
            if !self.board.boxed_in(cell.0) {
                assert(selected(team, self.board@[found[j as int]]));
                return false;
            }
            j = j + 1;
        }
        assert forall|k: int|
            0 <= k < 64 && selected(team, #[trigger] self.board@[k]) implies boxed_in(
            self.board@,
            coords_of(k),
        ) by {
            let h = choose|h: int| 0 <= h < found.len() && found[h] == k;
            assert(boxed_in(self.board@, coords_of(found[h])));
        }
        true
    }

    /// The team that moves next: the team by parity, unless it is immovable.
    pub fn current_team(&self) -> (r: Team)
        ensures
            r == self@.current_team(),
    {
        let team = self.current_team_from_turn();
        team.opponent_if(self.immovable(Some(team)))
    }

    /// The fields on which the penguins of `team` stand, with their points.
    pub fn pieces_of(&self, team: Team) -> (r: Vec<(Vec2<Doubled>, Field)>)
        ensures
            r@.len() == pieces(self@.board, team, 64).len(),
            forall|j: int|
                0 <= j < r@.len() ==> (#[trigger] r@[j]).0 == pieces(self@.board, team, 64)[j].0
                    && r@[j].1@ == pieces(self@.board, team, 64)[j].1,
    {
        self.board.pieces_of(team)
    }

    /// The fields on which the penguins of the current team stand, with
    /// their points.
    pub fn current_pieces(&self) -> (r: Vec<(Vec2<Doubled>, Field)>)
        ensures
            r@.len() == pieces(self@.board, self@.current_team(), 64).len(),
            forall|j: int|
                0 <= j < r@.len() ==> (#[trigger] r@[j]).0 == pieces(
                    self@.board,
                    self@.current_team(),
                    64,
                )[j].0 && r@[j].1@ == pieces(self@.board, self@.current_team(), 64)[j].1,
    {
        self.board.pieces_of(self.current_team())
    }

    /// Whether the current team has placed all of its penguins.
    pub fn penguins_placed(&self) -> (r: bool)
        ensures
            r == self@.placed(),
    {
        self.board.penguin_count(Some(self.current_team())) >= PENGUINS_PER_TEAM
    }

    /// Whether the game is over.
    pub fn is_over(&self) -> (r: bool)
        ensures
            r == self@.is_over(),
    {
        self.immovable(None)
    }

    /// The winner of a game that is over: the team with more fish. `None`
    /// while the game goes on, and for a draw.
    pub fn winner(&self) -> (r: Option<Team>)
        ensures
            r == self@.winner(),
            self@.is_over() && self@.fish[0] == self@.fish[1] ==> r is None,
    {
        if self.is_over() {
            if self.fish[0] == self.fish[1] {
                None
            } else if self.fish[0] > self.fish[1] {
                Some(Team::One)
            } else {
                Some(Team::Two)
            }
        } else {
            None
        }
    }

    /// The moves that `team` has if it is to move: placements if `placed` is
    /// false, slides of its penguins if it is true.
    fn moves_of(&self, team: Team, placed: bool) -> (r: Vec<Move>)
        ensures
            r@ == (if placed {
                slides(self@.board, team, 64)
            } else {
                placements(self@.board, 64)
            }),
    {
        proof {
            self.board.lemma_size();
        }
        let mut moves: Vec<Move> = Vec::new();
        let mut i: usize = 0;
        if placed {
            while i < 64
                invariant
                    i <= 64,
                    self@.board == self.board@,
                    moves@ == slides(self.board@, team, i as int),
                decreases 64 - i,
            {
                if self.board.nth(i).penguin() == Some(team) {
                    proof {
                        lemma_coords_of(i as int);
                    }
                    let mut more = self.board.possible_moves_from(Board::doubled_for(i));
                    moves.append(&mut more);
                }
                i = i + 1;
            }
        } else {
            while i < 64
                invariant
                    i <= 64,
                    self@.board == self.board@,
                    moves@ == placements(self.board@, i as int),
                decreases 64 - i,
            {
                if self.board.nth(i).fish() == 1 {
                    moves.push(Move::placing(Board::doubled_for(i)));
                }
                i = i + 1;
            }
        }
        moves
    }

    /// The moves of the current team: while it has penguins left to place,
    /// one placement for each field with exactly one fish; after that, the
    /// slides of each of its penguins.
    pub fn possible_moves(&self) -> (r: Vec<Move>)
        ensures
            r@ == self@.possible_moves(),
    {
        let team = self.current_team();
        self.moves_of(team, self.board.penguin_count(Some(team)) >= PENGUINS_PER_TEAM)
    }

    /// The moves that the opponent of the current team would have if it were
    /// to move.
    pub fn opponent_moves(&self) -> (r: Vec<Move>)
        ensures
            r@ == self@.opponent_moves(),
    {
        let team = self.current_team().opponent();
        self.moves_of(team, self.board.penguin_count(Some(team)) >= PENGUINS_PER_TEAM)
    }

    /// The number of fish that are left on the board.
    pub fn get_fish_left(&self) -> (r: usize)
        ensures
            r == board_fish(self@.board, 64),
    {
        proof {
            use_type_invariant(self);
            self.board.lemma_size();
        }
        let mut left: usize = 0;
        let mut i: usize = 0;
        while i < 64
            invariant
                i <= 64,
                self@.board == self.board@,
                left == board_fish(self.board@, i as int),
                board_fish(self.board@, 64) <= usize::MAX,
            decreases 64 - i,
        {
            proof {
                lemma_board_fish_grows(self.board@, i as int + 1, 64);
            }
            left = left + self.board.nth(i).fish();
            i = i + 1;
        }
        left
    }

    /// Makes the move for the current team, or refuses it and leaves the
    /// state as it is. A placement puts a penguin on the target; a slide
    /// vacates the origin first. The fish of the target go to the mover's
    /// score, the move becomes the last move, and the turn advances.
    pub fn perform(&mut self, m: Move) -> (r: Result<Captured, MoveError>)
        ensures
            r is Ok <==> old(self)@.legal(m),
            r matches Ok(c) ==> final(self)@ == old(self)@.perform(m) && c@ == old(self)@.captured(
                m,
            ),
            r matches Err(e) ==> final(self)@ == old(self)@ && old(self)@.refusal(m) == Some(e),
    {
        proof {
            use_type_invariant(&*self);
            self.board.lemma_size();
        }
        let team = self.current_team();
        let to = m.to();
        let mut board = self.board;
        let mut vacated: Option<Field> = None;
        match m.from() {
            Some(from) => {
                if !Board::in_bounds(from) {
                    return Err(MoveError::OutOfBounds);
                }
                if board.at(from).penguin() != Some(team) {
                    return Err(MoveError::NotOwnPenguin);
                }
                if !self.penguins_placed() {
                    return Err(MoveError::StillPlacing);
                }
                if !from.straight_to(to) {
                    return Err(MoveError::NotStraight);
                }
                if !Board::in_bounds(to) {
                    return Err(MoveError::OutOfBounds);
                }
                proof {
                    lemma_in_bounds(from);
                }
                let reachable = board.possible_moves_from(from);
                if !contains_move(&reachable, m) {
                    return Err(MoveError::Blocked);
                }
                vacated = Some(board.at(from));
                board.set(from, Field::empty());
            },
            None => {
                if self.penguins_placed() {
                    return Err(MoveError::AlreadyPlaced);
                }
                if !Board::in_bounds(to) {
                    return Err(MoveError::OutOfBounds);
                }
                if board.at(to).fish() != 1 {
                    return Err(MoveError::NotOneFish);
                }
            },
        }
        proof {
            lemma_legal_target(self@, m);
            lemma_perform(self@, m);
            lemma_field_within_totals(self@.board, index_of(to), 64);
        }
        let landed = board.at(to);
        let mut target = landed;
        let catch = target.place(team);
        board.set(to, target);
        let mut fish = self.fish;
        let index = team.index();
        fish[index] = fish[index] + catch;
        let captured = Captured { vacated, landed, catch, last_move: self.last_move };
        let next = State {
            board,
            turn: self.turn + 1,
            fish,
            last_move: Some(m),
            start_team: self.start_team,
        };
        assert(next@.fish =~= self@.perform(m).fish);
        assert(next@ == self@.perform(m));
        *self = next;
        Ok(captured)
    }

    /// Takes back the move that `team` made, with what `perform` recorded of
    /// it: both fields get back what they held, the catch leaves the score
    /// of `team`, the turn goes back by one, and the move before returns as
    /// the last move. `team` is the team that was current when the move was
    /// made; the state after the move may name another.
    pub fn undo_move(&mut self, m: Move, captured: Captured, team: Team)
        requires
            old(self)@.can_undo(m, captured@, team),
        ensures
            final(self)@ == old(self)@.undo(m, captured@, team),
    {
        proof {
            use_type_invariant(&*self);
            self.board.lemma_size();
        }
        let mut board = self.board;
        board.set(m.to(), captured.landed);
        match (m.from(), captured.vacated) {
            (Some(from), Some(field)) => {
                board.set(from, field);
            },
            _ => {},
        }
        let mut fish = self.fish;
        let index = team.index();
        fish[index] = fish[index] - captured.catch;
        let before = State {
            board,
            turn: self.turn - 1,
            fish,
            last_move: captured.last_move,
            start_team: self.start_team,
        };
        assert(before@.fish =~= self@.undo(m, captured@, team).fish);
        assert(before@ == self@.undo(m, captured@, team));
        *self = before;
    }

    /// The state after the move, or the reason for which the move is refused.
    pub fn child(&self, m: Move) -> (r: Result<State, MoveError>)
        ensures
            r is Ok <==> self@.legal(m),
            r matches Ok(next) ==> next@ == self@.perform(m),
            r matches Err(e) ==> self@.refusal(m) == Some(e),
    {
        let mut next = *self;
        match next.perform(m) {
            Ok(_) => Ok(next),
            Err(e) => Err(e),
        }
    }
}

} // verus!
