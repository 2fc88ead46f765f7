//! Verified core of an on-chain arbitrage searcher.
//!
//! The crate models the decision logic of an event-driven MEV searcher: a
//! broadcast engine that fans events out to strategies and actions out to
//! executors, a pool-reference strategy that turns order-flow disclosures
//! into ladders of backrun bundles, the relay wire protocol for bundle
//! submission, and the registries used to race one bundle across many
//! relays. Network transports, signing and node access live outside the
//! library and hand it plain values.

pub mod bindings;
pub mod client;
pub mod collector;
pub mod errors;
pub mod executors;
pub mod engine;
pub mod hexnum;
pub mod wire;
pub mod primitives;
pub mod strategy;
pub mod types;

pub use primitives::Address;
pub use primitives::TxHash;
