use vstd::prelude::*;

verus! {

/// Why a board text or the parts of a state were refused.
#[derive(Debug, Clone, Copy, PartialEq, Eq)]
pub enum ParseError {
    /// A character that is neither a digit nor the letter of a team.
    InvalidField(char),
    /// A row of the text does not hold eight fields.
    WrongFieldCount,
    /// The text does not hold eight rows.
    WrongRowCount,
    /// The scores are not those of two teams.
    WrongTeamCount,
    /// A team has more than four penguins on the board.
    TooManyPenguins,
    /// The fish of the game do not fit one score.
    TooManyFish,
    /// The turn counter has no room left for the moves to come.
    TurnTooLarge,
}

/// Why a move was refused.
#[derive(Debug, Clone, Copy, PartialEq, Eq)]
pub enum MoveError {
    /// The origin or the target lies off the board.
    OutOfBounds,
    /// The penguin at the origin of a slide is not one of the mover's.
    NotOwnPenguin,
    /// A slide before the mover has placed all penguins.
    StillPlacing,
    /// A slide that does not follow a straight line.
    NotStraight,
    /// A slide over or onto a field without fish.
    Blocked,
    /// A placement after the mover has placed all penguins.
    AlreadyPlaced,
    /// A placement on a field that does not hold exactly one fish.
    NotOneFish,
}

} // verus!
