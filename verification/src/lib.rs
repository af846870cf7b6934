//! A grid-based mine-discovery puzzle engine.
//!
//! A rectangular board hides a number of "dinosaur" markers at random
//! cells. A player reveals cells one at a time; each reveal discloses
//! either a marker (loss), a count of adjacent markers, or triggers a
//! cascading reveal of a zero-count region. The player may also flag
//! suspected markers; the game is won when every non-marker cell has
//! been revealed.

pub mod board;
pub mod cli;
pub mod counting;
pub mod laws;

pub use board::CellInfo;
pub use board::Dinomite;
pub use board::Position;
pub use board::PositionResult;
pub use cli::Cli;
