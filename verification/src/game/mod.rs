//! The game model: teams, coordinates, fields, moves, the board and the state.

pub mod board;
pub mod cells;
pub mod constants;
pub mod error;
pub mod field;
pub mod laws;
pub mod moves;
pub mod rules;
pub mod state;
pub mod team;
pub mod text;
pub mod vec2;

pub use board::Board;
pub use constants::{BOARD_FIELDS, BOARD_SIZE, PENGUINS_PER_TEAM, TEAMS};
pub use error::{MoveError, ParseError};
pub use field::{Field, FieldView};
pub use moves::Move;
pub use rules::{CapturedView, StateView};
pub use state::{Captured, State};
pub use team::Team;
pub use vec2::{Direct, Doubled, Vec2};
