use vstd::prelude::*;

verus! {

/// One of the two playing teams.
#[derive(Debug, Clone, Copy, PartialEq, Eq, Structural, Hash)]
pub enum Team {
    One,
    Two,
}

impl Team {
    /// The other team.
    pub open spec fn spec_opponent(self) -> Team {
        match self {
            Team::One => Team::Two,
            Team::Two => Team::One,
        }
    }

    /// The dense index that keys per-team data: 0 for the first team, 1 for the second.
    pub open spec fn spec_index(self) -> int {
        match self {
            Team::One => 0,
            Team::Two => 1,
        }
    }

    /// The letter that stands for the team in a board text.
    pub open spec fn spec_letter(self) -> char {
        match self {
            Team::One => 'R',
            Team::Two => 'B',
        }
    }

    /// The team that a letter stands for, if any.
    pub open spec fn spec_with_letter(c: char) -> Option<Team> {
        if c == 'R' {
            Some(Team::One)
        } else if c == 'B' {
            Some(Team::Two)
        } else {
            None
        }
    }

    /// The other team.
    #[verifier::when_used_as_spec(spec_opponent)]
    pub fn opponent(self) -> (r: Team)
        ensures
            r == self.spec_opponent(),
    {
        match self {
            Team::One => Team::Two,
            Team::Two => Team::One,
        }
    }

    /// This team, or the other one if `swap` holds.
    pub fn opponent_if(self, swap: bool) -> (r: Team)
        ensures
            r == if swap { self.spec_opponent() } else { self },
    {
        if swap {
            self.opponent()
        } else {
            self
        }
    }

    /// The dense index that keys per-team data.
    pub fn index(self) -> (r: usize)
        ensures
            r == self.spec_index(),
    {
        match self {
            Team::One => 0,
            Team::Two => 1,
        }
    }

    /// The letter that stands for the team in a board text.
    pub fn letter(self) -> (r: char)
        ensures
            r == self.spec_letter(),
    {
        match self {
            Team::One => 'R',
            Team::Two => 'B',
        }
    }

    /// The team that a letter stands for, if any.
    pub fn with_letter(c: char) -> (r: Option<Team>)
        ensures
            r == Self::spec_with_letter(c),
    {
        if c == 'R' {
            Some(Team::One)
        } else if c == 'B' {
            Some(Team::Two)
        } else {
            None
        }
    }
}

} // verus!
