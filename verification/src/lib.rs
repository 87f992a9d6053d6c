//! A small replicated key/value store: a primary/backup replication protocol
//! over length-prefixed frames, with backup-to-primary promotion on failure.
//!
//! This crate holds the verified core: the wire codec, the durable-map facade,
//! the send policies (bounded fire-and-forget queue, reliable retry with
//! backoff) and the node state machine. Network and disk I/O live outside.

use vstd::prelude::*;

pub mod bytestr;
pub mod codec;
pub mod message;
pub mod node;
pub mod sender;
pub mod store;

verus! {

/// Capacity of every bounded channel and per-destination queue.
pub const CHANNEL_CAPACITY: usize = 1000;

/// Largest frame payload accepted by the codec, in bytes (16 MiB).
pub const MAX_FRAME_LEN: usize = 16777216;

/// Interval between primary heartbeats, in milliseconds.
pub const HEARTBEAT_INTERVAL_MS: u64 = 1000;

/// A backup promotes itself once the primary has been silent this long (ms).
pub const PRIMARY_TIMEOUT_MS: u64 = 5000;

/// First retry delay of the reliable sender, in milliseconds.
pub const BACKOFF_INITIAL_MS: u64 = 50;

/// Upper bound on the reliable sender's retry delay, in milliseconds.
pub const BACKOFF_CAP_MS: u64 = 2000;

} // verus!
