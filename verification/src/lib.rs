//! A version ledger and diff engine for reprocessed documents.
//!
//! Uploaded content is deduplicated by a content fingerprint, each
//! reprocessing attempt is recorded as an immutable numbered version, and
//! pure diff engines report what changed between any two versions' derived
//! artifacts: discrete action items compared as content sets, and ordered
//! text chunks compared position by position with an embedding-distance
//! score attached where both sides carry an embedding.

pub mod document;
pub mod diff_service;
pub mod fingerprint;
pub mod ledger;
