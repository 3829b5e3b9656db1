//! A game server's configuration, and the heartbeat it sends the
//! orchestrator.

use crate::game_server::registry::PlayerRegistry;
use crate::orchestrator::config::{setting_view, text_or};
use crate::orchestrator::heartbeat::Heartbeat;
use crate::parse::{parse_u16, parse_usize, parsed_unsigned};
use vstd::prelude::*;
use vstd::string::StringExecFns;

verus! {

/// The integer and text part of a game server's configuration.
pub struct ServerConfig {
    pub id: String,
    /// Bind address (always 0.0.0.0 inside the container).
    pub ip: String,
    /// Routable address advertised to clients via heartbeat.
    pub public_ip: String,
    pub port: u16,
    pub broker_host: String,
    pub broker_port: u16,
    pub zone: String,
    pub max_players: usize,
}

/// The raw settings a game server is configured from (each `None` when
/// unset), and a freshly drawn id for a server that was given none.
pub struct ServerSettings {
    pub ds_id: Option<String>,
    pub fresh_id: String,
    pub ds_public_ip: Option<String>,
    pub ds_port: Option<String>,
    pub broker_host: Option<String>,
    pub broker_port: Option<String>,
    pub ds_zone: Option<String>,
    pub max_players: Option<String>,
}

/// A setting that is present but does not parse.
#[derive(Debug, Clone, Copy, PartialEq, Eq, Structural)]
pub enum ServerConfigError {
    InvalidDsPort,
    InvalidBrokerPort,
    InvalidMaxPlayers,
}

/// The value of an unsigned setting whose default text is `default`.
pub open spec fn parsed_setting(s: Option<String>, default: Seq<char>, max: nat) -> Option<nat> {
    parsed_unsigned(text_or(s, default), max)
}

/// The error a set of settings gives, the first in the order they are
/// read: the server port, the broker port, the player limit.
pub open spec fn config_error(s: ServerSettings) -> Option<ServerConfigError> {
    if parsed_setting(s.ds_port, "7777"@, u16::MAX as nat) is None {
        Some(ServerConfigError::InvalidDsPort)
    } else if parsed_setting(s.broker_port, "7776"@, u16::MAX as nat) is None {
        Some(ServerConfigError::InvalidBrokerPort)
    } else if parsed_setting(s.max_players, "2"@, usize::MAX as nat) is None {
        Some(ServerConfigError::InvalidMaxPlayers)
    } else {
        None
    }
}

fn text_setting(s: Option<String>, default: &str) -> (t: String)
    ensures
        t@ == text_or(s, default@),
{
    match s {
        Some(text) => text,
        None => String::from_str(default),
    }
}

impl ServerConfig {
    /// Builds the configuration from the settings, with their defaults:
    /// port 7777, broker port 7776, public address and broker host
    /// `localhost`, zone `zone_A`, two players. A numeric setting that does
    /// not parse is an error.
    pub fn from_settings(settings: ServerSettings) -> (r: Result<ServerConfig, ServerConfigError>)
        ensures
            r is Err <==> config_error(settings) is Some,
            r matches Err(e) ==> config_error(settings) == Some(e),
            r matches Ok(c) ==> {
                &&& c.id@ == text_or(settings.ds_id, settings.fresh_id@)
                &&& c.ip@ == "0.0.0.0"@
                &&& c.public_ip@ == text_or(settings.ds_public_ip, "localhost"@)
                &&& parsed_setting(settings.ds_port, "7777"@, u16::MAX as nat) == Some(c.port as nat)
                &&& c.broker_host@ == text_or(settings.broker_host, "localhost"@)
                &&& parsed_setting(settings.broker_port, "7776"@, u16::MAX as nat) == Some(
                    c.broker_port as nat,
                )
                &&& c.zone@ == text_or(settings.ds_zone, "zone_A"@)
                &&& parsed_setting(settings.max_players, "2"@, usize::MAX as nat) == Some(
                    c.max_players as nat,
                )
            },
    {
        let ghost s = settings;
        let port_text = text_setting(settings.ds_port, "7777");
        let port = match parse_u16(port_text.as_str()) {
            Some(p) => p,
            None => return Err(ServerConfigError::InvalidDsPort),
        };
        let broker_port_text = text_setting(settings.broker_port, "7776");
        let broker_port = match parse_u16(broker_port_text.as_str()) {
            Some(p) => p,
            None => return Err(ServerConfigError::InvalidBrokerPort),
        };
        let max_text = text_setting(settings.max_players, "2");
        let max_players = match parse_usize(max_text.as_str()) {
            Some(n) => n,
            None => return Err(ServerConfigError::InvalidMaxPlayers),
        };
        let id = match settings.ds_id {
            Some(id) => id,
            None => settings.fresh_id,
        };
        Ok(ServerConfig {
            id,
            ip: String::from_str("0.0.0.0"),
            public_ip: text_setting(settings.ds_public_ip, "localhost"),
            port,
            broker_host: text_setting(settings.broker_host, "localhost"),
            broker_port,
            zone: text_setting(settings.ds_zone, "zone_A"),
            max_players,
        })
    }

    /// The heartbeat the server sends: its id, public address, port and
    /// zone, with its player count and limit.
    pub fn heartbeat(&self, players: &PlayerRegistry) -> (hb: Heartbeat)
        ensures
            hb.id@ == self.id@,
            hb.ip@ == self.public_ip@,
            hb.port == self.port,
            hb.zone@ == self.zone@,
            hb.player_count == players@.len(),
            hb.max_players == self.max_players,
    {
        Heartbeat {
            id: self.id.clone(),
            ip: self.public_ip.clone(),
            port: self.port,
            zone: self.zone.clone(),
            player_count: players.len(),
            max_players: self.max_players,
        }
    }
}

} // verus!
