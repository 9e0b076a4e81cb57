//! A persistent, deterministic state module kept on behalf of external
//! callers: a minimal non-fungible token registry (unique ids, immutable
//! creators and metadata, per-owner index, transfer with approval list,
//! storage-cost accounting) joined with a directed request/response mailbox
//! and a per-account registry of encryption public keys.
//!
//! The host (caller identity, attached payment, storage byte price,
//! value transfer, durable storage) stays outside: every operation takes the
//! host facts it needs as plain values and returns what the host must do.

pub mod contract;
pub mod errors;
pub mod hashing;
pub mod laws;
pub mod pair_map;
pub mod state;
pub mod str_map;
pub mod token;
