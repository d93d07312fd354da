//! Immediate-mode entity bookkeeping for Bevy: stable identities for
//! call sites, per-frame activation tracking and deferred deactivation.
pub mod ident;
pub mod collections;
pub mod deactivations;
pub mod diffs;
pub mod draw;
pub mod flurp;
pub mod pending;
pub mod protocol;
pub mod targeted;
