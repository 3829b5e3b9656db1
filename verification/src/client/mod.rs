//! The game client's decisions: what it shows of each player, how it
//! learns their names, its login form, and its session with the broker.

pub mod stats;
pub mod names;
pub mod login;
pub mod session;
pub mod input;
