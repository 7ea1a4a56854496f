//! Match engine of a three-player, turn-based grid battle.
//!
//! The crate holds the data model (coordinates, ships, grids), the lobby and
//! the turn engine. It performs no input or output of its own: every
//! operation hands back the notices that a caller has to deliver.

pub mod game;
pub mod grid;
pub mod notice;
pub mod numeral;
pub mod player;
pub mod ship;
