//! Verified core of a sharded multiplayer game backend: the authority
//! hand-off protocol between game-server shards, the message broker wire
//! format and routing, the ability service rules, the orchestrator's fleet
//! planning, and the per-service decision logic that sits between the
//! network and the simulation.

pub mod geometry;
pub mod authority;
pub mod broker;
pub mod ability;
pub mod wire;
pub mod text;
pub mod ids;
pub mod parse;
pub mod orchestrator;
pub mod game_server;
pub mod ai;
pub mod client;
