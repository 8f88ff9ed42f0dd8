//! A two-stage indexer core for non-fungible-token transfer events on an
//! EVM-compatible chain: a log-ingestion pipeline that records transfer
//! events and a token-materialisation pipeline that classifies contracts
//! and maintains one ownership row per (chain, contract, token id).
//!
//! The relational tables (`Logs`, `Tokens`, `States`) are modelled by a
//! verified `Store`; the two pipeline loops are exposed as step functions
//! that a host drives, handing in the events (fetched logs, contract
//! classifications) that only the outside world can produce.

pub mod address;
pub mod data;
pub mod hex;
pub mod indexer;
pub mod laws;
pub mod store;
pub mod util;
