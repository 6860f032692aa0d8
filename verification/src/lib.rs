//! Rules engine for a two-layer variant of four-in-a-row: seven "alpha"
//! boards feed a governing "omega" board, and winning the omega board wins
//! the game.
pub mod bots;
pub mod game;
pub mod uc4;
