//! The authority subsystem's configuration.

use crate::orchestrator::config::setting_view;
use crate::parse::{parse_u32, setting_or};
use vstd::prelude::*;

verus! {

/// Which shard this server is, and how far past its boundary an entity
/// goes before it is handed off (an `f32` bit pattern).
#[derive(Debug, Clone, Copy, PartialEq, Eq, Structural)]
pub struct AuthorityConfig {
    pub local_shard_id: u32,
    pub handoff_margin: u32,
}

impl AuthorityConfig {
    /// Builds the configuration: the shard id setting when it parses, zero
    /// otherwise; the margin as given.
    pub fn from_settings(shard_id: Option<String>, handoff_margin: u32) -> (c: AuthorityConfig)
        ensures
            c.local_shard_id as nat == setting_or(setting_view(shard_id), u32::MAX as nat, 0),
            c.handoff_margin == handoff_margin,
    {
        let local_shard_id = match &shard_id {
            Some(text) => match parse_u32(text.as_str()) {
                Some(v) => v,
                None => 0,
            },
            None => 0,
        };
        AuthorityConfig { local_shard_id, handoff_margin }
    }
}

} // verus!
