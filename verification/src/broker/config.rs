use crate::parse::{parse_u16, parsed_unsigned};
use vstd::prelude::*;
use vstd::string::StringExecFns;

verus! {

/// Where the broker listens.
pub struct BrokerConfig {
    pub ip: String,
    pub port: u16,
}

/// The broker's port when `BROKER_PORT` is unset.
pub const DEFAULT_BROKER_PORT: u16 = 7776;

impl BrokerConfig {
    /// Builds the configuration from the `BROKER_PORT` setting: the broker
    /// listens on every interface, on the given port or on 7776 when it is
    /// unset. A setting that is not a valid port yields `None`.
    pub fn from_settings(port_setting: Option<&str>) -> (r: Option<BrokerConfig>)
        ensures
            port_setting is None ==> r is Some,
            port_setting matches Some(s) ==> (r is Some <==> parsed_unsigned(s@, u16::MAX as nat) is Some),
            r matches Some(c) ==> c.ip@ == "0.0.0.0"@ && c.port as nat == match port_setting {
                Some(s) => parsed_unsigned(s@, u16::MAX as nat)->0,
                None => DEFAULT_BROKER_PORT as nat,
            },
    {
        let port = match port_setting {
            Some(s) => match parse_u16(s) {
                Some(p) => p,
                None => {
                    return None;
                },
            },
            None => DEFAULT_BROKER_PORT,
        };
        Some(BrokerConfig { ip: String::from_str("0.0.0.0"), port })
    }
}

} // verus!
