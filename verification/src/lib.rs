//! Re-encoding of the summary pallet's `VotesRepository` entries after the
//! `confirmations` field was dropped from the stored voting-session record.
//!
//! The crate decides, entry by entry, whether a raw stored value is already in
//! the current layout, can be decoded in the previous layout and re-encoded, or
//! must be removed; it drives the storage walk as a state machine whose storage
//! accesses are carried out by the caller.

pub mod avn;
pub mod fields;
pub mod keys;
pub mod migration;
pub mod record;
pub mod scale;
pub mod walk;
pub mod weight;
