//! Contract state machines over shared blob transactions.
//!
//! A transaction carries an ordered list of opaque blobs, each addressed to
//! one contract by name.  Every contract executes a deterministic transition
//! over its own state and the whole blob list, and commits a canonical output
//! record.  Contracts compose by inspecting each other's blobs within the
//! same transaction, never by calling each other.

pub mod action;
pub mod amm;
pub mod balances;
pub mod codec;
pub mod compose;
pub mod errors;
pub mod hashing;
pub mod identity;
pub mod keyed;
pub mod machine;
pub mod model;
pub mod numeric;
pub mod text;
pub mod ticket;
pub mod token;
pub mod webauthn;
