//! Sync-identifier codec and state-diff engine for comparing the replicated
//! state of two peer nodes in a gossip-style content network.
//!
//! A sync identifier is a fixed-layout byte sequence: a fixed-width
//! ASCII-decimal timestamp delta, one record-type byte, a big-endian subject
//! id, and an opaque suffix. This crate decodes those identifiers, resolves
//! user-supplied time windows, computes symmetric set differences between two
//! identifier collections, and aggregates one-sided differences into
//! histograms.

pub mod cmd;
pub mod differ;
pub mod histogram;
pub mod sync_id;
pub mod time_window;
