//! Verified core of the StellarSwipe contracts: trading-signal contests,
//! signal versioning, the signal registry's queries, and multi-signature
//! bridge governance.  Ledger storage, authorization, events and the
//! ledger clock stay with the host program, which hands this library plain
//! values and takes plain values back.

pub mod errors;
pub mod keyed;
pub mod types;
pub mod ranking;
pub mod contests;
pub mod versioning;
pub mod registry;
pub mod governance;
