//! Authority hand-off between shards: who simulates an entity, the wire
//! format of the hand-off messages, and the per-tick processing of the
//! queued messages.

pub mod state;
pub mod messages;
pub mod world;
pub mod systems;
pub mod config;
pub mod laws;
