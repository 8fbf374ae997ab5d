use vstd::prelude::*;

verus! {

/// The side length of the board.
pub const BOARD_SIZE: usize = 8;

/// The number of fields on the board.
pub const BOARD_FIELDS: usize = 64;

/// The number of teams.
pub const TEAMS: usize = 2;

/// The number of penguins per team.
pub const PENGUINS_PER_TEAM: usize = 4;

} // verus!
