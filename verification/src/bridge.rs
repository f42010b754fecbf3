//! The bridge between MQTT and the server's HTTP API.

use vstd::prelude::*;

verus! {

/// The bridge's settings.
#[derive(Clone, Debug)]
pub struct BridgeConfig {
    pub id: u128,
    pub server_url: String,
    pub mqtt_broker: String,
    pub mqtt_port: u16,
    pub sync_interval_secs: u64,
}

} // verus!
