use super::vec2::{Doubled, Vec2};
use vstd::prelude::*;
use vstd::std_specs::cmp::PartialEqSpecImpl;

verus! {

/// A game move: a slide from one field to another, or, without an origin,
/// the placement of a new penguin.
#[derive(Debug, Clone, Copy, Hash)]
pub struct Move {
    pub from: Option<Vec2<Doubled>>,
    pub to: Vec2<Doubled>,
}

impl PartialEq for Move {
    fn eq(&self, other: &Self) -> (r: bool) {
        let same_from = match (self.from, other.from) {
            (Some(a), Some(b)) => a == b,
            (None, None) => true,
            _ => false,
        };
        same_from && self.to == other.to
    }
}

impl Eq for Move {

}

impl PartialEqSpecImpl for Move {
    open spec fn obeys_eq_spec() -> bool {
        true
    }

    open spec fn eq_spec(&self, other: &Self) -> bool {
        *self == *other
    }
}

impl Move {
    /// The slide from `from` to `to`, as a specification value.
    pub open spec fn slide(from: Vec2<Doubled>, to: Vec2<Doubled>) -> Move {
        Move { from: Some(from), to }
    }

    /// The placement on `to`, as a specification value.
    pub open spec fn put(to: Vec2<Doubled>) -> Move {
        Move { from: None, to }
    }

    /// A move with the given origin, if any, and the given target.
    pub fn new(from: Option<Vec2<Doubled>>, to: Vec2<Doubled>) -> (r: Self)
        ensures
            r == (Move { from, to }),
    {
        Move { from, to }
    }

    /// The slide of a penguin from one field to another.
    pub fn between(from: Vec2<Doubled>, to: Vec2<Doubled>) -> (r: Self)
        ensures
            r == Move::slide(from, to),
    {
        Move::new(Some(from), to)
    }

    /// The slide of a penguin from `from` by the displacement `by`.
    pub fn sliding(from: Vec2<Doubled>, by: Vec2<Doubled>) -> (r: Self)
        requires
            i32::MIN <= from.x + by.x <= i32::MAX,
            i32::MIN <= from.y + by.y <= i32::MAX,
        ensures
            r == Move::slide(from, Vec2::at(from.x + by.x, from.y + by.y)),
    {
        Move::between(from, Vec2::new(from.x + by.x, from.y + by.y))
    }

    /// The placement of a new penguin on `pos`.
    pub fn placing(pos: Vec2<Doubled>) -> (r: Self)
        ensures
            r == Move::put(pos),
    {
        Move::new(None, pos)
    }

    /// The origin of a slide; `None` for a placement.
    pub fn from(self) -> (r: Option<Vec2<Doubled>>)
        ensures
            r == self.from,
    {
        self.from
    }

    /// The field on which the penguin lands.
    pub fn to(self) -> (r: Vec2<Doubled>)
        ensures
            r == self.to,
    {
        self.to
    }
}

} // verus!
