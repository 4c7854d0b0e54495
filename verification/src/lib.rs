//! License-key validation with per-key activation limits, expiry and a
//! checksum binding.
//!
//! The crate decides whether a requesting address may activate a license key
//! and keeps the ledger of activations, so that the number of distinct
//! addresses admitted for a key never exceeds the key's limit.

pub mod date;
pub mod engine;
pub mod error;
pub mod input;
pub mod interleaving;
pub mod laws;
pub mod ledger;
pub mod license;
pub mod request;
pub mod store;
