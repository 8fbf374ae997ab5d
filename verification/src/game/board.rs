use super::field::{Field, FieldView};
use super::laws::lemma_sliding;
use super::moves::Move;
use super::rules::{
    boxed_in, coords_of, in_bounds, index_of, landable, moves_from, penguin_count, penguins, pieces, ray,
    run_length, selected, BoardView,
};
use super::team::Team;
use super::vec2::{Direct, Doubled, Vec2};
use vstd::prelude::*;

verus! {

/// The 8x8 game board, a grid of ice floes.
#[derive(Debug, Clone, Copy, PartialEq, Eq)]
pub struct Board {
    fields: [Field; 64],
}

impl View for Board {
    type V = BoardView;

    closed spec fn view(&self) -> BoardView {
        Seq::new(64, |i: int| self.fields[i]@)
    }
}

impl Default for Board {
    fn default() -> (r: Self)
        ensures
            r@ == Seq::new(64, |i: int| FieldView::empty()),
    {
        Board::empty()
    }
}

impl Board {
    /// A board has 64 fields.
    pub proof fn lemma_size(self)
        ensures
            self@.len() == 64,
    {
    }

    /// Two boards that hold the same are the same board.
    pub proof fn lemma_view_injective(a: Board, b: Board)
        requires
            a@ == b@,
        ensures
            a == b,
    {
        assert forall|i: int| 0 <= i < 64 implies a.fields[i] == b.fields[i] by {
            assert(a@[i] == a.fields[i]@);
            assert(b@[i] == b.fields[i]@);
            Field::lemma_view_injective(a.fields[i], b.fields[i]);
        }
        assert(a.fields =~= b.fields);
    }

    /// The board without fish and without penguins.
    pub fn empty() -> (r: Self)
        ensures
            r@ == Seq::new(64, |i: int| FieldView::empty()),
    {
        let e = Field::empty();
        let mut fields = [e;64];
        let mut i: usize = 0;
        while i < 64
            invariant
                i <= 64,
                e@ == FieldView::empty(),
                forall|k: int| 0 <= k < i ==> (#[trigger] fields@[k]) == e,
            decreases 64 - i,
        {
            fields[i] = e;
            i = i + 1;
        }
        let r = Board { fields };
        assert(r@ =~= Seq::new(64, |i: int| FieldView::empty()));
        r
    }

    /// The board with the given fields, in row-major order.
    pub fn new(fields: [Field; 64]) -> (r: Self)
        ensures
            r@ == Seq::new(64, |i: int| fields[i]@),
    {
        Board { fields }
    }

    /// Whether the doubled point lies on the board.
    pub fn in_bounds(coords: Vec2<Doubled>) -> (r: bool)
        ensures
            r == in_bounds(coords),
    {
        let direct = coords.direct();
        coords.x >= 0 && direct.x >= 0 && direct.x < 8 && direct.y >= 0 && direct.y < 8
    }

    /// The row-major index of a point on the board.
    pub fn index_for(coords: Vec2<Doubled>) -> (r: usize)
        requires
            in_bounds(coords),
        ensures
            r == index_of(coords),
            r < 64,
    {
        let direct = coords.direct();
        direct.y as usize * 8 + direct.x as usize
    }

    /// The point of the dense grid with the given row-major index.
    pub fn coords_for(index: usize) -> (r: Vec2<Direct>)
        requires
            index < 64,
        ensures
            r.spec_doubled() == coords_of(index as int),
            r == Vec2::<Direct>::at(index as int % 8, index as int / 8),
    {
        Vec2::new((index % 8) as i32, (index / 8) as i32)
    }

    /// The doubled point of the field with the given row-major index.
    pub fn doubled_for(index: usize) -> (r: Vec2<Doubled>)
        requires
            index < 64,
        ensures
            r == coords_of(index as int),
            in_bounds(r),
            index_of(r) == index,
    {
        Self::coords_for(index).doubled()
    }

    /// The field at a point, or `None` off the board.
    pub fn get(&self, coords: Vec2<Doubled>) -> (r: Option<Field>)
        ensures
            in_bounds(coords) ==> r is Some && r->0@ == self@[index_of(coords)],
            !in_bounds(coords) ==> r is None,
    {
        if Self::in_bounds(coords) {
            Some(self.fields[Self::index_for(coords)])
        } else {
            None
        }
    }

    /// The field at a point on the board.
    pub fn at(&self, coords: Vec2<Doubled>) -> (r: Field)
        requires
            in_bounds(coords),
        ensures
            r@ == self@[index_of(coords)],
    {
        self.fields[Self::index_for(coords)]
    }

    /// The field with the given row-major index.
    pub fn nth(&self, index: usize) -> (r: Field)
        requires
            index < 64,
        ensures
            r@ == self@[index as int],
    {
        self.fields[index]
    }

    /// Replaces the field at a point on the board.
    pub fn set(&mut self, coords: Vec2<Doubled>, field: Field)
        requires
            in_bounds(coords),
        ensures
            final(self)@ == old(self)@.update(index_of(coords), field@),
    {
        let i = Self::index_for(coords);
        self.fields[i] = field;
        assert(self@ =~= old(self)@.update(index_of(coords), field@));
    }

    /// Whether a penguin can land on the point.
    pub fn landable(&self, coords: Vec2<Doubled>) -> (r: bool)
        ensures
            r == landable(self@, coords),
    {
        match self.get(coords) {
            Some(field) => field.fish() > 0,
            None => false,
        }
    }

    /// The point `n` steps from a point with room along the `i`-th direction.
    fn ray_point(from: Vec2<Doubled>, i: usize, n: i32) -> (r: Vec2<Doubled>)
        requires
            from.roomy(),
            i < 6,
            0 <= n <= 7,
        ensures
            r == from.spec_sliding(i as int, n as int),
    {
        proof {
            lemma_sliding(from, i as int, n as int);
        }
        from.sliding(i, n)
    }

    /// Appends the slides from `from` along the `i`-th direction.
    fn push_ray(&self, from: Vec2<Doubled>, i: usize, moves: &mut Vec<Move>)
        requires
            from.roomy(),
            i < 6,
        ensures
            final(moves)@ == old(moves)@ + ray(self@, from, i as int),
    {
        let mut n: i32 = 1;
        while n < 8 && self.landable(Self::ray_point(from, i, n))
            invariant
                from.roomy(),
                i < 6,
                1 <= n <= 8,
                run_length(self@, from, i as int, 1) == (n - 1) + run_length(
                    self@,
                    from,
                    i as int,
                    n as int,
                ),
                moves@ =~= old(moves)@ + Seq::new(
                    (n - 1) as nat,
                    |k: int| Move::slide(from, from.spec_sliding(i as int, k + 1)),
                ),
            decreases 8 - n,
        {
            moves.push(Move::between(from, Self::ray_point(from, i, n)));
            n = n + 1;
        }
        assert(moves@ =~= old(moves)@ + ray(self@, from, i as int));
    }

    /// The slides from a point: along each of the six directions, one to
    /// each floe before the first that has no fish or lies off the board.
    pub fn possible_moves_from(&self, coords: Vec2<Doubled>) -> (r: Vec<Move>)
        requires
            coords.roomy(),
        ensures
            r@ == moves_from(self@, coords),
    {
        let mut moves: Vec<Move> = Vec::new();
        self.push_ray(coords, 0, &mut moves);
        self.push_ray(coords, 1, &mut moves);
        self.push_ray(coords, 2, &mut moves);
        self.push_ray(coords, 3, &mut moves);
        self.push_ray(coords, 4, &mut moves);
        self.push_ray(coords, 5, &mut moves);
        assert(moves@ =~= moves_from(self@, coords)) by {
            reveal(moves_from);
        }
        moves
    }

    /// Whether no neighbor of the point is landable.
    pub fn boxed_in(&self, coords: Vec2<Doubled>) -> (r: bool)
        requires
            coords.roomy(),
        ensures
            r == boxed_in(self@, coords),
    {
        let neighbors = coords.hex_neighbors();
        let mut i: usize = 0;
        while i < 6
            invariant
                i <= 6,
                forall|k: int| 0 <= k < 6 ==> neighbors[k] == coords.spec_sliding(k, 1),
                forall|k: int| 0 <= k < i ==> !landable(self@, #[trigger] coords.spec_sliding(k, 1)),
            decreases 6 - i,
        {
            if self.landable(neighbors[i]) {
                assert(landable(self@, coords.spec_sliding(i as int, 1)));
                return false;
            }
            i = i + 1;
        }
        true
    }

    /// The number of penguins that the filter selects: all penguins without a
    /// filter, else those of the given team.
    pub fn penguin_count(&self, filter: Option<Team>) -> (r: usize)
        ensures
            r == penguin_count(self@, filter, 64),
            r <= 64,
    {
        let mut count: usize = 0;
        let mut i: usize = 0;
        while i < 64
            invariant
                i <= 64,
                count <= i,
                count == penguin_count(self@, filter, i as int),
            decreases 64 - i,
        {
            if Self::selected(filter, self.fields[i]) {
                count = count + 1;
            }
            i = i + 1;
        }
        count
    }

    /// Whether a penguin stands on the field that the filter selects.
    pub fn selected(filter: Option<Team>, field: Field) -> (r: bool)
        ensures
            r == selected(filter, field@),
    {
        match field.penguin() {
            Some(team) => match filter {
                Some(wanted) => team == wanted,
                None => true,
            },
            None => false,
        }
    }

    /// All 64 fields with their doubled points, in row-major order.
    pub fn fields(&self) -> (r: Vec<(Vec2<Doubled>, Field)>)
        ensures
            r@.len() == 64,
            forall|i: int| 0 <= i < 64 ==> r@[i].0 == coords_of(i) && r@[i].1@ == self@[i],
    {
        let mut out: Vec<(Vec2<Doubled>, Field)> = Vec::new();
        let mut i: usize = 0;
        while i < 64
            invariant
                i <= 64,
                out@.len() == i,
                forall|k: int| 0 <= k < i ==> out@[k].0 == coords_of(k) && out@[k].1@ == self@[k],
            decreases 64 - i,
        {
            out.push((Self::doubled_for(i), self.fields[i]));
            i = i + 1;
        }
        out
    }

    /// The penguins on the board with their points, in row-major order.
    pub fn penguins(&self) -> (r: Vec<(Vec2<Doubled>, Team)>)
        ensures
            r@ == penguins(self@, 64),
    {
        let mut out: Vec<(Vec2<Doubled>, Team)> = Vec::new();
        let mut i: usize = 0;
        while i < 64
            invariant
                i <= 64,
                out@ == penguins(self@, i as int),
            decreases 64 - i,
        {
            match self.fields[i].penguin() {
                Some(team) => {
                    out.push((Self::doubled_for(i), team));
                },
                None => {},
            }
            i = i + 1;
        }
        out
    }

    /// The fields on which a penguin of `team` stands, with their points, in
    /// row-major order.
    pub fn pieces_of(&self, team: Team) -> (r: Vec<(Vec2<Doubled>, Field)>)
        ensures
            r@.len() == pieces(self@, team, 64).len(),
            forall|j: int|
                0 <= j < r@.len() ==> (#[trigger] r@[j]).0 == pieces(self@, team, 64)[j].0
                    && r@[j].1@ == pieces(self@, team, 64)[j].1,
    {
        let mut out: Vec<(Vec2<Doubled>, Field)> = Vec::new();
        let mut i: usize = 0;
        while i < 64
            invariant
                i <= 64,
                out@.len() == pieces(self@, team, i as int).len(),
                forall|j: int|
                    0 <= j < out@.len() ==> (#[trigger] out@[j]).0 == pieces(
                        self@,
                        team,
                        i as int,
                    )[j].0 && out@[j].1@ == pieces(self@, team, i as int)[j].1,
            decreases 64 - i,
        {
            if self.fields[i].penguin() == Some(team) {
                out.push((Self::doubled_for(i), self.fields[i]));
            }
            i = i + 1;
        }
        out
    }
}

} // verus!
