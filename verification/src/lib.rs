//! A falling-block puzzle engine: a bounded occupancy grid, a catalog of
//! seven tetromino pieces, collision-checked movement and rotation, row
//! compaction, level derivation, and the session state machine that ties
//! them together.

pub mod block;
pub mod engine;
pub mod game;
pub mod tetromino;
