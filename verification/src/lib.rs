//! A terminal-style grid-reveal puzzle engine.
//!
//! The library owns the grid state, hazard layout, cursor position and every
//! game-state-mutating operation: hazard placement, adjacency counting,
//! flood-reveal of zero-adjacency regions, flag toggling and victory
//! detection. It performs no I/O itself; a caller feeds it commands and
//! renders the snapshot it exposes.

pub mod cascade;
pub mod cell;
pub mod counting;
pub mod field;
pub mod hazard;
pub mod laws;
mod rng;
