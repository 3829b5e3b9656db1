//! A game server's decisions between the network and its simulation: the
//! players it knows, its reaction to broker broadcasts, and what it tells
//! the orchestrator.

pub mod registry;
pub mod events;
pub mod config;
pub mod simulation;
pub mod messages;
