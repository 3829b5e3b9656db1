//! The orchestrator: its configuration, the status it records for each
//! game server from heartbeats, and its fleet planning (keeping a pool of
//! empty servers, and following the quadtree's shard layout).

pub mod config;
pub mod heartbeat;
pub mod scaler;
pub mod shards;
pub mod containers;
