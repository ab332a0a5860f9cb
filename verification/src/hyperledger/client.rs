//! The Fabric Gateway REST endpoints and the reading of a health probe.
//!
//! Transactions are submitted with `POST {gateway}/gateway/{channel}/
//! {chaincode}/transactions`, evaluated with `POST .../evaluate`, and the
//! gateway is probed with `GET {gateway}/healthz`. Chaincode functions are
//! namespaced by the chaincode's name. Sending the requests is the
//! caller's; it hands the probe's answer back here.

use vstd::prelude::*;
use vstd::string::{StrSliceExecFns, StringExecFns};
use crate::hyperledger::config::{has_content, HyperledgerConfig};
use crate::hyperledger::health::HyperledgerHealth;
use crate::text::owned;

verus! {

/// A string without the slashes that end it.
pub open spec fn trim_slashes(s: Seq<char>) -> Seq<char>
    decreases s.len(),
{
    if s.len() > 0 && s.last() == '/' {
        trim_slashes(s.drop_last())
    } else {
        s
    }
}

/// `s` without the slashes that end it.
pub fn trim_trailing_slashes(s: &str) -> (r: String)
    ensures
        r@ == trim_slashes(s@),
{
    let mut n = s.unicode_len();
    assert(s@.take(n as int) =~= s@);
    while n > 0 && s.get_char(n - 1) == '/'
        invariant
            n <= s@.len(),
            trim_slashes(s@.take(n as int)) == trim_slashes(s@),
        decreases n,
    {
        assert(s@.take(n as int).drop_last() =~= s@.take(n - 1));
        n = n - 1;
    }
    assert(trim_slashes(s@.take(n as int)) == s@.take(n as int));
    s.substring_char(0, n).to_owned()
}

/// Whether `needle` occurs in `s`.
pub open spec fn contains_text(s: Seq<char>, needle: Seq<char>) -> bool {
    exists|i: int| 0 <= i && i + needle.len() <= s.len() && #[trigger] s.subrange(i, i + needle.len()) == needle
}

/// Whether `needle` occurs in `s`.
pub fn find_text(s: &str, needle: &str) -> (b: bool)
    ensures
        b == contains_text(s@, needle@),
{
    let n = s.unicode_len();
    let m = needle.unicode_len();
    if m > n {
        return false;
    }
    let last = n - m;
    let mut i: usize = 0;
    loop
        invariant
            n == s@.len(),
            m == needle@.len(),
            last == n - m,
            i <= last,
            forall|j: int| 0 <= j < i ==> #[trigger] s@.subrange(j, j + m) != needle@,
        decreases last - i,
    {
        let part = s.substring_char(i, i + m);
        if crate::text::str_eq(part, needle) {
            assert(s@.subrange(i as int, i + m) == needle@);
            return true;
        }
        if i == last {
            return false;
        }
        i = i + 1;
    }
}

/// A client of a Fabric gateway, by its configuration.
pub struct HyperledgerClient {
    /// The gateway's configuration.
    pub config: HyperledgerConfig,
}

/// How a health probe ended.
pub enum ProbeOutcome {
    /// The gateway answered with this status code, the status as text
    /// (code and reason) and this body.
    Reply { code: u16, status: String, body: String },
    /// The gateway could not be reached; the text says why.
    Unreachable(String),
}

/// The message of a probe answered with a status that is not healthy.
pub open spec fn unhealthy_message(status: Seq<char>) -> Seq<char> {
    "gateway reachable but health endpoint reported "@ + status
}

/// The message of a probe that could not reach the gateway.
pub open spec fn unreachable_message(why: Seq<char>) -> Seq<char> {
    "gateway unreachable: "@ + why
}

impl HyperledgerClient {
    /// A client for the configuration. The TLS identity and root
    /// certificate are loaded where the HTTP client is built, which reports
    /// malformed PEM; that is not decided here.
    pub fn new(config: HyperledgerConfig) -> (r: Result<Self, String>)
        ensures
            r matches Ok(c) && c.config == config,
    {
        Ok(HyperledgerClient { config })
    }

    /// `{gateway}/gateway/{channel}/{chaincode}/transactions`, the gateway
    /// without its trailing slashes.
    pub fn submit_url(&self) -> (u: String)
        ensures
            u@ == trim_slashes(self.config.gateway_url@) + "/gateway/"@ + self.config.channel@ + "/"@
                + self.config.chaincode@ + "/transactions"@,
    {
        let mut u = trim_trailing_slashes(self.config.gateway_url.as_str());
        u.append("/gateway/");
        u.append(self.config.channel.as_str());
        u.append("/");
        u.append(self.config.chaincode.as_str());
        u.append("/transactions");
        u
    }

    /// `{gateway}/gateway/{channel}/{chaincode}/evaluate`, the gateway
    /// without its trailing slashes.
    pub fn evaluate_url(&self) -> (u: String)
        ensures
            u@ == trim_slashes(self.config.gateway_url@) + "/gateway/"@ + self.config.channel@ + "/"@
                + self.config.chaincode@ + "/evaluate"@,
    {
        let mut u = trim_trailing_slashes(self.config.gateway_url.as_str());
        u.append("/gateway/");
        u.append(self.config.channel.as_str());
        u.append("/");
        u.append(self.config.chaincode.as_str());
        u.append("/evaluate");
        u
    }

    /// `{gateway}/healthz`, the gateway without its trailing slashes.
    pub fn health_url(&self) -> (u: String)
        ensures
            u@ == trim_slashes(self.config.gateway_url@) + "/healthz"@,
    {
        let mut u = trim_trailing_slashes(self.config.gateway_url.as_str());
        u.append("/healthz");
        u
    }

    /// A chaincode function's name, namespaced by the chaincode:
    /// `{chaincode}_{base}`.
    pub fn chaincode_function(&self, base: &str) -> (f: String)
        ensures
            f@ == self.config.chaincode@ + "_"@ + base@,
    {
        let mut f = self.config.chaincode.clone();
        f.append("_");
        f.append(base);
        f
    }

    /// The health a probe shows at `now_ms`: an unconfigured gateway is
    /// reported so without a probe; a reply is healthy when its status is
    /// a success (2xx) and its body says `ok`; an unreachable gateway is
    /// neither reachable nor healthy.
    pub fn health_from_probe(&self, probe: ProbeOutcome, now_ms: i64) -> (h: HyperledgerHealth)
        ensures
            !(self.config.enabled && has_content(self.config.gateway_url@)) ==> !h.configured && !h.reachable
                && !h.healthy && h.status_code is None && h.message@ == "hyperledger not configured"@,
            self.config.enabled && has_content(self.config.gateway_url@) ==> {
                &&& h.configured
                &&& h.channel@ == self.config.channel@
                &&& h.chaincode@ == self.config.chaincode@
                &&& h.identity@ == self.config.identity@
                &&& h.checked_at_ms == now_ms
                &&& match probe {
                    ProbeOutcome::Reply { code, status, body } => {
                        let healthy = 200 <= code < 300 && contains_text(body@, "ok"@);
                        &&& h.reachable
                        &&& h.healthy == healthy
                        &&& h.status_code == Some(code)
                        &&& healthy ==> h.message@ == "gateway reachable and healthy"@
                        &&& !healthy ==> h.message@ == unhealthy_message(status@)
                    },
                    ProbeOutcome::Unreachable(why) => {
                        &&& !h.reachable
                        &&& !h.healthy
                        &&& h.status_code is None
                        &&& h.message@ == unreachable_message(why@)
                    },
                }
            },
    {
        if !self.config.is_configured() {
            return HyperledgerHealth::unconfigured(&self.config);
        }
        match probe {
            ProbeOutcome::Reply { code, status, body } => {
                let healthy = 200 <= code && code < 300 && find_text(body.as_str(), "ok");
                let message = if healthy {
                    owned("gateway reachable and healthy")
                } else {
                    let mut m = owned("gateway reachable but health endpoint reported ");
                    m.append(status.as_str());
                    m
                };
                HyperledgerHealth {
                    configured: true,
                    reachable: true,
                    healthy,
                    status_code: Some(code),
                    channel: self.config.channel.clone(),
                    chaincode: self.config.chaincode.clone(),
                    identity: self.config.identity.clone(),
                    message,
                    checked_at_ms: now_ms,
                }
            },
            ProbeOutcome::Unreachable(why) => {
                let mut message = owned("gateway unreachable: ");
                message.append(why.as_str());
                HyperledgerHealth {
                    configured: true,
                    reachable: false,
                    healthy: false,
                    status_code: None,
                    channel: self.config.channel.clone(),
                    chaincode: self.config.chaincode.clone(),
                    identity: self.config.identity.clone(),
                    message,
                    checked_at_ms: now_ms,
                }
            },
        }
    }
}

} // verus!
