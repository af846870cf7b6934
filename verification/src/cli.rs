//! Plain command-line configuration data.
//!
//! The interactive front end parses arguments itself; it hands the
//! engine this plain record of the chosen board size and dino count.

use vstd::prelude::*;

verus! {

/// The configuration a game is started with.
#[derive(Debug, Clone, Copy, PartialEq, Eq, Structural)]
pub struct Cli {
    /// Number of dinos hidden.
    pub num_dinos: usize,
    /// Height of the board.
    pub height: usize,
    /// Width of the board.
    pub width: usize,
}

impl Default for Cli {
    /// The stock board: 9 columns, 9 rows, 10 dinos.
    fn default() -> (r: Self)
        ensures
            r.num_dinos == 10,
            r.height == 9,
            r.width == 9,
    {
        Cli { num_dinos: 10, height: 9, width: 9 }
    }
}

} // verus!
