//! Resource profiling and cost analysis of smart-contract invocations.
//!
//! The library parses textual arguments into typed values (`parser`), encodes
//! invocation envelopes and decodes footprints in the network's binary form
//! (`xdr`, `ledger`), keeps a pool of RPC endpoints behind circuit breakers
//! (`rpc_provider`), turns simulation replies into metrics and drives failover
//! (`simulation`), caches results by request fingerprint (`cache`), derives
//! findings and an efficiency score (`insights`) and prices metrics under fee
//! schedules (`network_config`).

pub mod api;
pub mod cache;
pub mod codec;
pub mod errors;
pub mod insights;
pub mod json;
pub mod ledger;
pub mod network_config;
pub mod parser;
pub mod profile;
pub mod resources;
pub mod rpc_provider;
pub mod simulation;
pub mod strkey;
pub mod text;
pub mod value;
pub mod xdr;
