//! Simulation library for the aphid and ladybug life-cycle model.
//!
//! The library owns the board state, the creature rules, the board a config
//! describes, the command line, the state of an interactive run (edits, undo,
//! history), and the text the front ends print. Front ends own reading files,
//! the odds of every chance, and what they show.

pub mod badges;
pub mod board;
pub mod chart;
pub mod config;
pub mod creature;
pub mod laws;
pub mod model;
pub mod options;
pub mod random;
pub mod session;
pub mod text;
pub mod types;

pub use board::Board;
pub use config::{build_board, LayoutError, LoadedLayout, OutsideBoard};
pub use options::{OptionsError, SimOptions};
pub use random::{Chance, Draw, Odds, Random};
pub use text::{board_picture, count_symbol, format_board_config, turn_stats_line, write_coordinate_array};
pub use types::{
    BoardSummary, CellSnapshot, Coordinates, CreatureKind, CreatureSnapshot, CreatureSnapshotKind,
    Direction, TurnStats,
};
