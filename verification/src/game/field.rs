use super::team::Team;
use vstd::prelude::*;
use vstd::std_specs::convert::FromSpecImpl;

verus! {

/// What a field holds, as a mathematical value.
pub struct FieldView {
    /// The number of fish on the floe.
    pub fish: nat,
    /// The team whose penguin stands on the floe, if any.
    pub penguin: Option<Team>,
}

impl FieldView {
    /// A field holds fish or a penguin, never both.
    pub open spec fn wf(self) -> bool {
        self.penguin is Some ==> self.fish == 0
    }

    /// The field without fish and without a penguin.
    pub open spec fn empty() -> FieldView {
        FieldView { fish: 0, penguin: None }
    }

    /// The field after a penguin of `team` has been put on it.
    pub open spec fn placed(team: Team) -> FieldView {
        FieldView { fish: 0, penguin: Some(team) }
    }
}

/// A field on the board: an ice floe with fish on it, or with a penguin.
#[derive(Debug, Clone, Copy, PartialEq, Eq)]
pub struct Field {
    fish: usize,
    penguin: Option<Team>,
}

impl View for Field {
    type V = FieldView;

    closed spec fn view(&self) -> FieldView {
        FieldView { fish: self.fish as nat, penguin: self.penguin }
    }
}

impl Default for Field {
    fn default() -> (r: Self)
        ensures
            r@ == FieldView::empty(),
    {
        Field::empty()
    }
}

impl Field {
    /// Every field holds fish or a penguin, never both.
    #[verifier::type_invariant]
    pub open spec fn valid(&self) -> bool {
        self@.wf()
    }

    /// Two fields that hold the same are the same field.
    pub proof fn lemma_view_injective(a: Field, b: Field)
        requires
            a@ == b@,
        ensures
            a == b,
    {
    }

    /// The fish count of a field fits a machine word.
    pub proof fn lemma_fish_bounded(self)
        ensures
            self@.fish <= usize::MAX,
    {
    }

    /// The empty field.
    pub fn empty() -> (r: Self)
        ensures
            r@ == FieldView::empty(),
    {
        Field { fish: 0, penguin: None }
    }

    /// A field with the given number of fish and no penguin.
    pub fn with_fish(fish: usize) -> (r: Self)
        ensures
            r@ == (FieldView { fish: fish as nat, penguin: None }),
    {
        Field { fish, penguin: None }
    }

    /// A field with a penguin of the given team and no fish.
    pub fn with_penguin(team: Team) -> (r: Self)
        ensures
            r@ == FieldView::placed(team),
    {
        Field { fish: 0, penguin: Some(team) }
    }

    /// Whether the field holds neither fish nor a penguin.
    pub fn is_empty(self) -> (r: bool)
        ensures
            r == (self@.fish == 0 && self@.penguin is None),
    {
        self.fish == 0 && self.penguin.is_none()
    }

    /// Whether a penguin stands on the field.
    pub fn is_occupied(self) -> (r: bool)
        ensures
            r == (self@.penguin is Some),
    {
        self.penguin.is_some()
    }

    /// The number of fish on the field.
    pub fn fish(self) -> (r: usize)
        ensures
            r == self@.fish,
    {
        self.fish
    }

    /// The team whose penguin stands on the field, if any.
    pub fn penguin(self) -> (r: Option<Team>)
        ensures
            r == self@.penguin,
    {
        self.penguin
    }

    /// Puts a penguin of `team` on the field in place of its fish, and
    /// returns the number of fish that were there.
    pub fn place(&mut self, team: Team) -> (r: usize)
        ensures
            r == old(self)@.fish,
            final(self)@ == FieldView::placed(team),
    {
        let fish = self.fish;
        *self = Field::with_penguin(team);
        fish
    }
}

impl From<usize> for Field {
    fn from(fish: usize) -> (r: Self)
        ensures
            r@ == (FieldView { fish: fish as nat, penguin: None }),
    {
        Field::with_fish(fish)
    }
}

impl FromSpecImpl<usize> for Field {
    open spec fn obeys_from_spec() -> bool {
        true
    }

    open spec fn from_spec(fish: usize) -> Self {
        Field::spec_with_fish(fish)
    }
}

impl From<Team> for Field {
    fn from(team: Team) -> (r: Self)
        ensures
            r@ == FieldView::placed(team),
    {
        Field::with_penguin(team)
    }
}

impl FromSpecImpl<Team> for Field {
    open spec fn obeys_from_spec() -> bool {
        true
    }

    open spec fn from_spec(team: Team) -> Self {
        Field::spec_with_penguin(team)
    }
}

impl Field {
    /// The field with the given number of fish, as a specification value.
    pub closed spec fn spec_with_fish(fish: usize) -> Field {
        Field { fish, penguin: None }
    }

    /// The field with a penguin of the given team, as a specification value.
    pub closed spec fn spec_with_penguin(team: Team) -> Field {
        Field { fish: 0, penguin: Some(team) }
    }

    /// What the two specification values hold.
    pub proof fn lemma_spec_constructors(fish: usize, team: Team)
        ensures
            Field::spec_with_fish(fish)@ == (FieldView { fish: fish as nat, penguin: None }),
            Field::spec_with_penguin(team)@ == FieldView::placed(team),
    {
    }
}

} // verus!
