//! Rule engine of a grid-based mine-detection puzzle: board generation,
//! adjacency counting, tile state transitions, flood reveal and the win test.

pub mod board;
pub mod flood;
pub mod random;
pub mod signal;
pub mod tile;

pub use board::{ConfigError, Game, Outcome};
pub use signal::{signal_for_key, signals_for_pointer, Key, Pointer, Reaction, Signal, SignalType};
pub use tile::{Face, Tile, TileType, TileVisibility};
