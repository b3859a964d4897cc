//! Balance-threshold registry and top-up dispatcher.
//!
//! The library maintains, for a set of external accounts, a list of
//! monitored assets with per-asset lower/upper bounds, answers queries
//! about which (account, asset) pairs have fallen at or below their
//! configured minimum, and emits transfer instructions that refill each
//! under-funded pair back to its upper bound, subject to per-call
//! deduplication and a per-pair block-height cooldown.
//!
//! The host chain runtime (storage, block clock, address validation,
//! message transport) and the asset-balance oracle are external
//! collaborators: the library works on plain values and a snapshot of
//! oracle balances handed in by the caller.

pub mod asset;
pub mod error;
pub mod helpers;
pub mod msg;
pub mod order;
pub mod state;
pub mod contract;
pub mod topup;
