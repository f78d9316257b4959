//! A verified rules engine for a hex-tile exploration race board game.
//!
//! The library holds the hex topology, the distance engine, the card and
//! token economy of each player, and the action engine that validates and
//! resolves every move of a game.

pub mod cards;
pub mod hex;
pub mod map;
pub mod graph;
pub mod random;
pub mod player;
pub mod game;
pub mod movement;
pub mod market;
pub mod turn;
pub mod setup;
pub mod laws;
