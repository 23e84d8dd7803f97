//! Reputation-management core of a validator-trust subsystem.
//!
//! The library tracks one trust record per validator node, adjusts the
//! record's score from a boolean "vote matched consensus" signal, flags
//! validators whose score falls below the removal threshold, prunes flagged
//! validators, and answers ranking queries.
//!
//! Trust scores are bounded reals in `[0, 1]`; the library represents them
//! in fixed point, as integer parts-per-million, so one canonical numeric
//! type carries the score end to end.  Persistence, caller authentication,
//! block-height provisioning and event transport are external collaborators:
//! the caller identity and the logical timestamp come in as plain values,
//! and emitted notifications are recorded in an ordered log that the host
//! may drain.

pub mod ledger;
pub mod ranking;
pub mod score;
pub mod system;
