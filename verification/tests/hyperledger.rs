use primusdb::hyperledger::config::{
    default_chaincode, default_channel, default_identity, default_timeout, HyperledgerConfig,
};
use primusdb::hyperledger::client::{find_text, trim_trailing_slashes, HyperledgerClient, ProbeOutcome};
use primusdb::hyperledger::health::HyperledgerHealth;
use primusdb::hyperledger::identity::{cert_fingerprint, pem_body, SigningIdentityRef};

#[test]
fn test_default_not_configured() {
    let cfg = HyperledgerConfig::default();
    assert!(!cfg.is_configured());
}

#[test]
fn test_configured_when_endpoint_set() {
    let cfg = HyperledgerConfig {
        enabled: true,
        gateway_url: "http://localhost:8443".to_string(),
        ..Default::default()
    };
    assert!(cfg.is_configured());
}

#[test]
fn test_unconfigured_is_honest() {
    let cfg = HyperledgerConfig::default();
    let h = HyperledgerHealth::unconfigured(&cfg);
    assert!(!h.configured);
    assert!(!h.reachable);
    assert!(!h.healthy);
}

#[test]
fn blank_gateway_is_not_configured() {
    let cfg = HyperledgerConfig {
        enabled: true,
        gateway_url: " \t\n ".to_string(),
        ..Default::default()
    };
    assert!(!cfg.is_configured());
    let disabled = HyperledgerConfig {
        enabled: false,
        gateway_url: "http://localhost:8443".to_string(),
        ..Default::default()
    };
    assert!(!disabled.is_configured());
}

#[test]
fn defaults_are_the_documented_ones() {
    assert_eq!(default_channel(), "primus-integrity");
    assert_eq!(default_chaincode(), "primus-integrity");
    assert_eq!(default_identity(), "primus-node");
    assert_eq!(default_timeout(), 15000);
    let cfg = HyperledgerConfig::default();
    assert_eq!(cfg.channel, "primus-integrity");
    assert_eq!(cfg.identity, "primus-node");
    assert_eq!(cfg.confirmation_timeout_ms, 15000);
}

#[test]
fn identity_reference_has_no_fingerprint() {
    let r = SigningIdentityRef::new("primus-node", "Org1MSP");
    assert_eq!(r.identity, "primus-node");
    assert_eq!(r.msp_id, "Org1MSP");
    assert!(r.cert_fingerprint.is_none());
}

#[test]
fn pem_body_drops_armor_lines() {
    let pem = "-----BEGIN CERTIFICATE-----\r\nAAAA\nBBBB\n-----END CERTIFICATE-----\n";
    assert_eq!(pem_body(pem), "AAAABBBB");
    assert_eq!(pem_body(""), "");
    assert_eq!(pem_body("abc"), "abc");
}

#[test]
fn fingerprint_is_sha256_hex_of_body() {
    // SHA-256 of the empty string.
    assert_eq!(
        cert_fingerprint("-----BEGIN X-----\n-----END X-----\n"),
        "e3b0c44298fc1c149afbf4c8996fb92427ae41e4649b934ca495991b7852b855"
    );
    // SHA-256 of "abc".
    assert_eq!(
        cert_fingerprint("-----BEGIN X-----\nab\nc\n-----END X-----"),
        "ba7816bf8f01cfea414140de5dae2223b00361a396177a9cb410ff61f20015ad"
    );
}

#[test]
fn test_urls_built_from_config() {
    let cfg = HyperledgerConfig {
        enabled: true,
        gateway_url: "http://localhost:8443".to_string(),
        channel: "ch".to_string(),
        chaincode: "cc".to_string(),
        ..Default::default()
    };
    let client = HyperledgerClient::new(cfg).unwrap();
    assert!(client.submit_url().ends_with("/gateway/ch/cc/transactions"));
    assert!(client.evaluate_url().ends_with("/gateway/ch/cc/evaluate"));
    assert_eq!(client.health_url(), "http://localhost:8443/healthz");
}

#[test]
fn trailing_slashes_and_function_names() {
    assert_eq!(trim_trailing_slashes("http://h//"), "http://h");
    assert_eq!(trim_trailing_slashes("///"), "");
    let cfg = HyperledgerConfig {
        enabled: true,
        gateway_url: "https://gw/".to_string(),
        channel: "main".to_string(),
        chaincode: "integrity".to_string(),
        ..Default::default()
    };
    let client = HyperledgerClient::new(cfg).unwrap();
    assert_eq!(client.submit_url(), "https://gw/gateway/main/integrity/transactions");
    assert_eq!(client.chaincode_function("submitCheckpoint"), "integrity_submitCheckpoint");
    assert!(find_text("status: ok", "ok"));
    assert!(!find_text("o", "ok"));
    assert!(find_text("anything", ""));
}

#[test]
fn probes_are_read_honestly() {
    let cfg = HyperledgerConfig {
        enabled: true,
        gateway_url: "https://gw".to_string(),
        ..Default::default()
    };
    let client = HyperledgerClient::new(cfg).unwrap();
    let ok = client.health_from_probe(
        ProbeOutcome::Reply { code: 200, status: "200 OK".to_string(), body: "{\"status\":\"ok\"}".to_string() },
        7,
    );
    assert!(ok.configured && ok.reachable && ok.healthy);
    assert_eq!(ok.status_code, Some(200));
    assert_eq!(ok.message, "gateway reachable and healthy");
    assert_eq!(ok.checked_at_ms, 7);
    let bad = client.health_from_probe(
        ProbeOutcome::Reply { code: 503, status: "503 Service Unavailable".to_string(), body: "ok".to_string() },
        7,
    );
    assert!(bad.reachable && !bad.healthy);
    assert_eq!(bad.message, "gateway reachable but health endpoint reported 503 Service Unavailable");
    let down = client.health_from_probe(ProbeOutcome::Unreachable("connection refused".to_string()), 7);
    assert!(!down.reachable && !down.healthy);
    assert_eq!(down.message, "gateway unreachable: connection refused");
    let off = HyperledgerClient::new(HyperledgerConfig::default()).unwrap();
    let h = off.health_from_probe(ProbeOutcome::Unreachable("x".to_string()), 7);
    assert!(!h.configured);
    assert_eq!(h.message, "hyperledger not configured");
}
