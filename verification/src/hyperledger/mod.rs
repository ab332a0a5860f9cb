//! Hyperledger integration: configuration, health and signing identities.

pub mod client;
pub mod config;
pub mod health;
pub mod identity;
