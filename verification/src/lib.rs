//! Rules engine for a territory-building tile-laying board game for up to
//! four players: a shared draft of two-terrain dominoes is picked round by
//! round, and each player assembles their picks into a personal grid under
//! adjacency and size constraints. The crate covers the draft/turn-order
//! state machine and the per-player placement-legality engine; rendering and
//! input polling are left to the surrounding program.

pub mod controller;
pub mod deck;
pub mod domino;
pub mod draft;
pub mod error;
pub mod grid;
pub mod player;
pub mod tile;
pub mod turn;
