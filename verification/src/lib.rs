//! A minimal on-chain name registry.
//!
//! The registry binds an account identifier to a human-readable name and
//! holds a refundable deposit against the account while the record exists,
//! so that arbitrary accounts cannot squat on names for free.  It also
//! defines a versioned schema migration that rewrites every stored record
//! from a flat name to a structured first/last representation while
//! establishing a derived aggregate count.
//!
//! The host ledger (persistence, dispatch, authentication, the event bus)
//! is out of scope: storage is modelled as explicit state objects passed
//! by reference into every operation, the authenticated caller is an
//! argument, the reservation collaborator is the [`ledger::Ledger`]
//! balance book, and emitted events are returned to the caller.

pub mod ledger;
pub mod laws;
pub mod migrations;
pub mod pallet;
pub mod storage_map;
pub mod types;
