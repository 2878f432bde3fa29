//! A session broker for multiplayer games: a distributor that hands out
//! lobbies from a pool of endpoints, and the game actors that run in them.

pub mod actor;
pub mod engine;
pub mod game;
pub mod protocols;
pub mod server;
