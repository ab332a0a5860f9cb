//! Hyperledger configuration.
//!
//! All fields are optional at the configuration level, so that the service
//! can report honest "unreachable" health when nothing is configured.

use vstd::prelude::*;
use vstd::string::StrSliceExecFns;
use crate::text::{is_whitespace, owned, unicode_whitespace};

verus! {

/// Configuration for the Hyperledger integrity client.
pub struct HyperledgerConfig {
    /// Whether the Hyperledger service is enabled.
    pub enabled: bool,
    /// Gateway base URL.
    pub gateway_url: String,
    /// Fabric channel name.
    pub channel: String,
    /// Chaincode name.
    pub chaincode: String,
    /// Signing identity name.
    pub identity: String,
    /// Timeout (ms) for a single submission to confirm.
    pub confirmation_timeout_ms: u64,
    /// Client certificate (PEM) for mutual TLS.
    pub client_cert_pem: String,
    /// Client private key (PEM) for mutual TLS.
    pub client_key_pem: String,
    /// CA certificate (PEM) for TLS verification.
    pub ca_cert_pem: String,
}

/// The default channel name.
pub fn default_channel() -> (s: String)
    ensures
        s@ == "primus-integrity"@,
{
    owned("primus-integrity")
}

/// The default chaincode name.
pub fn default_chaincode() -> (s: String)
    ensures
        s@ == "primus-integrity"@,
{
    owned("primus-integrity")
}

/// The default signing identity name.
pub fn default_identity() -> (s: String)
    ensures
        s@ == "primus-node"@,
{
    owned("primus-node")
}

/// The default confirmation timeout, in milliseconds.
pub fn default_timeout() -> (t: u64)
    ensures
        t == 15000,
{
    15000
}

impl Default for HyperledgerConfig {
    /// Disabled, with no gateway and no TLS material, and the default
    /// channel, chaincode, identity and timeout.
    fn default() -> (c: Self)
        ensures
            !c.enabled,
            c.gateway_url@ == Seq::<char>::empty(),
            c.channel@ == "primus-integrity"@,
            c.chaincode@ == "primus-integrity"@,
            c.identity@ == "primus-node"@,
            c.confirmation_timeout_ms == 15000,
            c.client_cert_pem@ == Seq::<char>::empty(),
            c.client_key_pem@ == Seq::<char>::empty(),
            c.ca_cert_pem@ == Seq::<char>::empty(),
    {
        HyperledgerConfig {
            enabled: false,
            gateway_url: String::new(),
            channel: default_channel(),
            chaincode: default_chaincode(),
            identity: default_identity(),
            confirmation_timeout_ms: default_timeout(),
            client_cert_pem: String::new(),
            client_key_pem: String::new(),
            ca_cert_pem: String::new(),
        }
    }
}

/// Whether some character of `s` is not white space, i.e. `s` is not
/// empty once trimmed.
pub open spec fn has_content(s: Seq<char>) -> bool {
    exists|i: int| 0 <= i < s.len() && !unicode_whitespace(#[trigger] s[i])
}

impl HyperledgerConfig {
    /// True when the service is enabled and the gateway URL is not blank.
    pub fn is_configured(&self) -> (b: bool)
        ensures
            b == (self.enabled && has_content(self.gateway_url@)),
    {
        if !self.enabled {
            return false;
        }
        let url = self.gateway_url.as_str();
        let n = url.unicode_len();
        let mut i: usize = 0;
        while i < n
            invariant
                n == url@.len(),
                url@ == self.gateway_url@,
                self.enabled,
                i <= n,
                forall|j: int| 0 <= j < i ==> unicode_whitespace(#[trigger] url@[j]),
            decreases n - i,
        {
            let c = url.get_char(i);
            if !is_whitespace(c) {
                assert(!unicode_whitespace(self.gateway_url@[i as int]));
                return true;
            }
            i = i + 1;
        }
        false
    }
}

} // verus!
