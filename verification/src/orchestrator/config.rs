use crate::parse::{parse_u16, parse_usize, setting_or};
use vstd::prelude::*;
use vstd::string::StringExecFns;

verus! {

pub const DEFAULT_PORT: u16 = 8081;
pub const DEFAULT_ORCH_PORT: u16 = 7000;
pub const DEFAULT_QUIC_PORT: u16 = 5000;
pub const DEFAULT_DS_BASE_PORT: u16 = 7777;
pub const DEFAULT_HEARTBEAT_TTL_SECONDS: usize = 30;

/// The orchestrator's configuration.
pub struct Config {
    pub port: u16,
    pub orch_port: u16,
    pub quic_port: u16,
    pub redis_url: String,
    pub environment: String,
    pub ds_base_port: u16,
    pub heartbeat_ttl_seconds: usize,
}

/// The raw settings the configuration is read from (each `None` when the
/// variable is unset).
pub struct ConfigSettings {
    pub port: Option<String>,
    pub orch_port: Option<String>,
    pub quic_port: Option<String>,
    pub redis_url: Option<String>,
    pub environment: Option<String>,
    pub ds_base_port: Option<String>,
    pub heartbeat_ttl_seconds: Option<String>,
}

/// The view of an optional setting.
pub open spec fn setting_view(s: Option<String>) -> Option<Seq<char>> {
    match s {
        Some(x) => Some(x@),
        None => None,
    }
}

/// A string setting, or its default when unset.
pub open spec fn text_or(s: Option<String>, default: Seq<char>) -> Seq<char> {
    match s {
        Some(x) => x@,
        None => default,
    }
}

fn port_setting(s: &Option<String>, default: u16) -> (p: u16)
    ensures
        p as nat == setting_or(setting_view(*s), u16::MAX as nat, default as nat),
{
    match s {
        Some(text) => match parse_u16(text.as_str()) {
            Some(v) => v,
            None => default,
        },
        None => default,
    }
}

fn text_setting(s: Option<String>, default: &str) -> (t: String)
    ensures
        t@ == text_or(s, default@),
{
    match s {
        Some(text) => text,
        None => String::from_str(default),
    }
}

impl Config {
    /// Builds the configuration: each numeric setting is used when present
    /// and valid, its default otherwise; text settings default when unset.
    pub fn from_settings(settings: ConfigSettings) -> (c: Config)
        ensures
            c.port as nat == setting_or(setting_view(settings.port), u16::MAX as nat, DEFAULT_PORT as nat),
            c.orch_port as nat == setting_or(setting_view(settings.orch_port), u16::MAX as nat, DEFAULT_ORCH_PORT as nat),
            c.quic_port as nat == setting_or(setting_view(settings.quic_port), u16::MAX as nat, DEFAULT_QUIC_PORT as nat),
            c.redis_url@ == text_or(settings.redis_url, "redis://127.0.0.1:6379"@),
            c.environment@ == text_or(settings.environment, "development"@),
            c.ds_base_port as nat == setting_or(setting_view(settings.ds_base_port), u16::MAX as nat, DEFAULT_DS_BASE_PORT as nat),
            c.heartbeat_ttl_seconds as nat == setting_or(setting_view(settings.heartbeat_ttl_seconds), usize::MAX as nat, DEFAULT_HEARTBEAT_TTL_SECONDS as nat),
    {
        let port = port_setting(&settings.port, DEFAULT_PORT);
        let orch_port = port_setting(&settings.orch_port, DEFAULT_ORCH_PORT);
        let quic_port = port_setting(&settings.quic_port, DEFAULT_QUIC_PORT);
        let ds_base_port = port_setting(&settings.ds_base_port, DEFAULT_DS_BASE_PORT);
        let heartbeat_ttl_seconds = match &settings.heartbeat_ttl_seconds {
            Some(text) => match parse_usize(text.as_str()) {
                Some(v) => v,
                None => DEFAULT_HEARTBEAT_TTL_SECONDS,
            },
            None => DEFAULT_HEARTBEAT_TTL_SECONDS,
        };
        let redis_url = text_setting(settings.redis_url, "redis://127.0.0.1:6379");
        let environment = text_setting(settings.environment, "development");
        Config {
            port,
            orch_port,
            quic_port,
            redis_url,
            environment,
            ds_base_port,
            heartbeat_ttl_seconds,
        }
    }
}

} // verus!
