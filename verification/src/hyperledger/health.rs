//! Hyperledger connectivity and operational health.
//!
//! Health reflects a real probe of the configured gateway, never a static
//! value; when nothing is configured it says so.

use vstd::prelude::*;
use crate::clock::now_millis;
use crate::hyperledger::config::HyperledgerConfig;
use crate::text::owned;

verus! {

/// Operational health of the Hyperledger integration.
pub struct HyperledgerHealth {
    /// Whether a gateway is configured.
    pub configured: bool,
    /// Whether the gateway answered.
    pub reachable: bool,
    /// Whether the gateway reported itself healthy.
    pub healthy: bool,
    /// HTTP status of the probe, if any.
    pub status_code: Option<u16>,
    /// Fabric channel name.
    pub channel: String,
    /// Chaincode name.
    pub chaincode: String,
    /// Signing identity name.
    pub identity: String,
    /// Human-readable status.
    pub message: String,
    /// When the health was checked, in milliseconds since the Unix epoch.
    pub checked_at_ms: i64,
}

impl HyperledgerHealth {
    /// The health of an integration with no gateway configured: not
    /// configured, not reachable, not healthy, checked now.
    pub fn unconfigured(config: &HyperledgerConfig) -> (h: Self)
        ensures
            !h.configured,
            !h.reachable,
            !h.healthy,
            h.status_code is None,
            h.channel@ == config.channel@,
            h.chaincode@ == config.chaincode@,
            h.identity@ == config.identity@,
            h.message@ == "hyperledger not configured"@,
    {
        HyperledgerHealth {
            configured: false,
            reachable: false,
            healthy: false,
            status_code: None,
            channel: config.channel.clone(),
            chaincode: config.chaincode.clone(),
            identity: config.identity.clone(),
            message: owned("hyperledger not configured"),
            checked_at_ms: now_millis(),
        }
    }
}

} // verus!
