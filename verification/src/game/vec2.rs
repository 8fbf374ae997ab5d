use core::marker::PhantomData;
use vstd::prelude::*;
use vstd::std_specs::cmp::PartialEqSpecImpl;

verus! {

/// Marks a coordinate in the dense grid: `x` is the column, `y` the row.
#[derive(Debug, Clone, Copy, PartialEq, Eq, Hash)]
pub struct Direct;

/// Marks a coordinate in the doubled hex grid: within a row `x` advances by
/// two, and odd rows are shifted by one.
#[derive(Debug, Clone, Copy, PartialEq, Eq, Hash)]
pub struct Doubled;

/// A point or a displacement in the coordinate system `C`.
#[derive(Debug, Hash)]
pub struct Vec2<C> {
    pub x: i32,
    pub y: i32,
    pub system: PhantomData<C>,
}

impl<C> Clone for Vec2<C> {
    fn clone(&self) -> (r: Self)
        ensures
            r == *self,
    {
        Vec2 { x: self.x, y: self.y, system: PhantomData }
    }
}

impl<C> Copy for Vec2<C> {

}

impl<C> PartialEq for Vec2<C> {
    fn eq(&self, other: &Self) -> (r: bool) {
        self.x == other.x && self.y == other.y
    }
}

impl<C> Eq for Vec2<C> {

}

impl<C> PartialEqSpecImpl for Vec2<C> {
    open spec fn obeys_eq_spec() -> bool {
        true
    }

    open spec fn eq_spec(&self, other: &Self) -> bool {
        self.x == other.x && self.y == other.y
    }
}

/// The number of hex directions.
pub const DIRECTION_COUNT: usize = 6;

/// Integer division by two that rounds toward zero, as machine division does.
pub open spec fn half_toward_zero(x: int) -> int {
    if x >= 0 {
        x / 2
    } else {
        -((-x) / 2)
    }
}

/// The `i`-th hex direction as a doubled displacement `(dx, dy)`, clockwise
/// from the upper right.
pub open spec fn direction_delta(i: int) -> (int, int) {
    if i == 0 {
        (1, -1)
    } else if i == 1 {
        (2, 0)
    } else if i == 2 {
        (1, 1)
    } else if i == 3 {
        (-1, 1)
    } else if i == 4 {
        (-2, 0)
    } else {
        (-1, -1)
    }
}

/// The displacement of `n` steps along the `i`-th direction.
pub open spec fn steps_delta(i: int, n: int) -> (int, int) {
    (n * direction_delta(i).0, n * direction_delta(i).1)
}

/// Whether the doubled displacement `(dx, dy)` is a positive multiple of a hex
/// direction.
pub open spec fn straight_delta(dx: int, dy: int) -> bool {
    exists|i: int, n: int| 0 <= i < 6 && n >= 1 && #[trigger] steps_delta(i, n) == (dx, dy)
}

/// A displacement is straight exactly if it stays in its row by an even,
/// nonzero amount, or moves as many half-columns as rows.
pub proof fn lemma_straight_delta(dx: int, dy: int)
    ensures
        straight_delta(dx, dy) <==> ((dy == 0 && dx != 0 && dx % 2 == 0) || (dy != 0 && (dx == dy
            || dx == -dy))),
{
    if straight_delta(dx, dy) {
        let (i, n) = choose|i: int, n: int|
            0 <= i < 6 && n >= 1 && #[trigger] steps_delta(i, n) == (dx, dy);
    }
    if dy == 0 && dx != 0 && dx % 2 == 0 {
        if dx > 0 {
            let k = dx / 2;
            assert(direction_delta(1) == (2int, 0int));
            assert(k * 2 == dx && k * 0 == 0);
            assert(steps_delta(1, k) == (dx, dy));
        } else {
            let k = (-dx) / 2;
            assert(direction_delta(4) == (-2int, 0int));
            assert(k * (-2) == dx && k * 0 == 0);
            assert(steps_delta(4, k) == (dx, dy));
        }
    }
    if dy != 0 && (dx == dy || dx == -dy) {
        if dy > 0 && dx == dy {
            assert(steps_delta(2, dy) == (dx, dy));
        } else if dy > 0 {
            assert(steps_delta(3, dy) == (dx, dy));
        } else if dx == dy {
            assert(steps_delta(5, -dy) == (dx, dy));
        } else {
            let k = -dy;
            assert(direction_delta(0) == (1int, -1int));
            assert(k * 1 == dx && k * (-1) == dy);
            assert(steps_delta(0, k) == (dx, dy));
        }
    }
}

impl<C> Vec2<C> {
    /// The point with the given coordinates, as a specification value.
    pub open spec fn at(x: int, y: int) -> Self {
        Vec2 { x: x as i32, y: y as i32, system: PhantomData }
    }

    /// The point with the given coordinates.
    pub fn new(x: i32, y: i32) -> (r: Self)
        ensures
            r == Self::at(x as int, y as int),
            r.x == x,
            r.y == y,
    {
        Vec2 { x, y, system: PhantomData }
    }
}

impl Vec2<Doubled> {
    /// The point `n` steps from `self` along the `i`-th direction.
    pub open spec fn spec_sliding(self, i: int, n: int) -> Self {
        Self::at(self.x + steps_delta(i, n).0, self.y + steps_delta(i, n).1)
    }

    /// Whether every point within seven steps of `self` has machine
    /// coordinates.
    pub open spec fn roomy(self) -> bool {
        &&& i32::MIN + 14 <= self.x <= i32::MAX - 14
        &&& i32::MIN + 7 <= self.y <= i32::MAX - 7
    }

    /// The same point in the dense grid.
    pub open spec fn spec_direct(self) -> Vec2<Direct> {
        Vec2::<Direct>::at(half_toward_zero(self.x as int), self.y as int)
    }

    /// The `i`-th hex direction, clockwise from the upper right.
    pub fn direction(i: usize) -> (r: Self)
        requires
            i < DIRECTION_COUNT,
        ensures
            r == Self::at(direction_delta(i as int).0, direction_delta(i as int).1),
    {
        if i == 0 {
            Vec2::new(1, -1)
        } else if i == 1 {
            Vec2::new(2, 0)
        } else if i == 2 {
            Vec2::new(1, 1)
        } else if i == 3 {
            Vec2::new(-1, 1)
        } else if i == 4 {
            Vec2::new(-2, 0)
        } else {
            Vec2::new(-1, -1)
        }
    }

    /// The point `n` steps from `self` along the `i`-th direction.
    pub fn sliding(self, i: usize, n: i32) -> (r: Self)
        requires
            i < DIRECTION_COUNT,
            i32::MIN <= self.x + steps_delta(i as int, n as int).0 <= i32::MAX,
            i32::MIN <= self.y + steps_delta(i as int, n as int).1 <= i32::MAX,
        ensures
            r == self.spec_sliding(i as int, n as int),
    {
        let d = Self::direction(i);
        assert(n * d.x == steps_delta(i as int, n as int).0 && n * d.y == steps_delta(
            i as int,
            n as int,
        ).1 && -0x1_0000_0000 <= n * d.x <= 0x1_0000_0000 && -0x1_0000_0000 <= n * d.y
            <= 0x1_0000_0000) by (nonlinear_arith)
            requires
                -0x8000_0000 <= n < 0x8000_0000,
                -2 <= d.x <= 2,
                -1 <= d.y <= 1,
                d.x == direction_delta(i as int).0,
                d.y == direction_delta(i as int).1,
        ;
        let x: i64 = self.x as i64 + n as i64 * d.x as i64;
        let y: i64 = self.y as i64 + n as i64 * d.y as i64;
        Vec2::new(x as i32, y as i32)
    }

    /// The six points one step away, in the order of the directions. They may
    /// lie off the board.
    pub fn hex_neighbors(self) -> (r: [Self; 6])
        requires
            self.roomy(),
        ensures
            forall|i: int| 0 <= i < 6 ==> r[i] == self.spec_sliding(i, 1),
    {
        [
            self.sliding(0, 1),
            self.sliding(1, 1),
            self.sliding(2, 1),
            self.sliding(3, 1),
            self.sliding(4, 1),
            self.sliding(5, 1),
        ]
    }

    /// Whether this displacement is a positive multiple of a hex direction:
    /// it stays in its row by an even, nonzero amount, or moves as many
    /// half-columns as rows.
    pub fn straight(self) -> (r: bool)
        ensures
            r == straight_delta(self.x as int, self.y as int),
            r == ((self.y == 0 && self.x != 0 && self.x % 2 == 0) || (self.y != 0 && (self.x
                == self.y || self.x == -self.y))),
    {
        proof {
            lemma_straight_delta(self.x as int, self.y as int);
        }
        let dx: i64 = self.x as i64;
        let dy: i64 = self.y as i64;
        (dy == 0 && dx != 0 && dx % 2 == 0) || (dy != 0 && (dx == dy || dx == -dy))
    }

    /// Whether the way from this point to `to` is a positive multiple of a
    /// hex direction.
    pub fn straight_to(self, to: Self) -> (r: bool)
        ensures
            r == straight_delta(to.x - self.x, to.y - self.y),
    {
        proof {
            lemma_straight_delta(to.x - self.x, to.y - self.y);
        }
        let dx: i64 = to.x as i64 - self.x as i64;
        let dy: i64 = to.y as i64 - self.y as i64;
        (dy == 0 && dx != 0 && dx % 2 == 0) || (dy != 0 && (dx == dy || dx == -dy))
    }

    /// The same point in the dense grid. Halving rounds toward zero, so a
    /// negative `x` must be ruled out before the conversion.
    pub fn direct(self) -> (r: Vec2<Direct>)
        ensures
            r == self.spec_direct(),
    {
        Vec2::new(self.x / 2, self.y)
    }
}

impl Vec2<Direct> {
    /// The same point in the doubled grid.
    pub open spec fn spec_doubled(self) -> Vec2<Doubled> {
        Vec2::<Doubled>::at(2 * self.x + self.y % 2, self.y as int)
    }

    /// The same point in the doubled grid.
    pub fn doubled(self) -> (r: Vec2<Doubled>)
        requires
            0 <= self.y,
            -0x4000_0000 <= self.x < 0x3fff_ffff,
        ensures
            r == self.spec_doubled(),
    {
        Vec2::new(2 * self.x + self.y % 2, self.y)
    }
}

/// Converting a point of the dense grid to the doubled grid and back loses
/// nothing.
pub proof fn lemma_doubled_direct(p: Vec2<Direct>)
    requires
        0 <= p.y,
        0 <= p.x < 0x3fff_ffff,
    ensures
        p.spec_doubled().spec_direct() == p,
{
}

} // verus!
