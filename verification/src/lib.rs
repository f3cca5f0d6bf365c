//! A small election ledger: each election carries a fixed, deduplicated
//! candidate list and one supporter set per candidate.  Voting replaces a
//! voter's whole selection, revocation withdraws support from named
//! candidates only, and every piece of per-election state is addressed by a
//! hash-derived namespace key so that distinct elections and candidates
//! never collide in the shared flat key-value store.

pub mod election;
pub mod keys;
pub mod registry;
