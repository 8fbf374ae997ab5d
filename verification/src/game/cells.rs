//! A bounded list of located fields, kept in an `arrayvec::ArrayVec`.

use super::field::Field;
use super::vec2::{Doubled, Vec2};
use arrayvec::ArrayVec;
use vstd::prelude::*;

verus! {

/// `arrayvec::ArrayVec`, a vector of at most `CAP` items that lives in an
/// array. The verifier sees nothing inside it.
#[verifier::external_type_specification]
#[verifier::external_body]
#[verifier::reject_recursive_types(T)]
pub struct ExArrayVec<T, const CAP: usize>(ArrayVec<T, CAP>);

/// A field together with its doubled point.
pub type Cell = (Vec2<Doubled>, Field);

/// A list of at most 64 located fields.
pub type Cells = ArrayVec<Cell, 64>;

/// The items that a list holds, first to last.
pub uninterp spec fn cells_of(list: Cells) -> Seq<Cell>;

/// `ArrayVec::new`: the list that it returns holds nothing.
#[verifier::external_body]
pub(crate) fn cells_new() -> (list: Cells)
    ensures
        cells_of(list) == Seq::<Cell>::empty(),
{
    ArrayVec::new()
}

/// `ArrayVec::try_push`: while the list holds fewer than 64 items the item is
/// appended; a full list is left as it is, and the call reports it.
#[verifier::external_body]
pub(crate) fn cells_try_push(list: &mut Cells, cell: Cell) -> (pushed: bool)
    ensures
        pushed == (cells_of(*old(list)).len() < 64),
        pushed ==> cells_of(*final(list)) == cells_of(*old(list)).push(cell),
        !pushed ==> cells_of(*final(list)) == cells_of(*old(list)),
{
    list.try_push(cell).is_ok()
}

/// `ArrayVec::len`: the number of items in the list.
#[verifier::external_body]
pub(crate) fn cells_len(list: &Cells) -> (n: usize)
    ensures
        n == cells_of(*list).len(),
{
    list.len()
}

/// Indexing an `ArrayVec` as a slice: the item at a position below the
/// length. Beyond it the call would panic.
#[verifier::external_body]
pub(crate) fn cells_get(list: &Cells, i: usize) -> (cell: Cell)
    requires
        i < cells_of(*list).len(),
    ensures
        cell == cells_of(*list)[i as int],
{
    list[i]
}

/// `ArrayVec::into_inner`: the array of the items if the list holds exactly
/// 64 of them, nothing if it holds fewer.
#[verifier::external_body]
pub(crate) fn cells_into_inner(list: Cells) -> (array: Option<[Cell; 64]>)
    ensures
        array is Some <==> cells_of(list).len() >= 64,
        array is Some ==> array->0@ == cells_of(list),
{
    list.into_inner().ok()
}

} // verus!
