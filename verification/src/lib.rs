//! Resolver core of a decentralized name registry: usernames map to
//! per-network blockchain addresses, gated by name-token ownership and a
//! fixed admin set. Records are write-once and stored in a canonical order.

pub mod address;
pub mod canon;
pub mod checks;
pub mod contract;
pub mod error;
pub mod order;
pub mod state;
