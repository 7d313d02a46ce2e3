//! Follower-side AppendEntries handling for a Raft node.
//!
//! The crate models the state a follower owns — its log, hard state,
//! commit and apply watermarks, and effective membership — and verifies
//! the routine that reconciles that state with a leader's replication
//! RPC: the term gate, the log-consistency check, conflict truncation,
//! appending, membership activation, commit advancement, and the
//! hand-off to the apply pipeline.

pub mod append_entries;
pub mod laws;
pub mod log_id;
pub mod model;
pub mod store;
pub mod testing;
pub mod types;
