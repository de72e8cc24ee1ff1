//! An in-memory key-value cache with per-entry time-to-live expiry.
//!
//! The store keeps byte-string keys and values in a concurrent map and
//! expires entries both lazily (a read that finds a stale entry removes it)
//! and actively (a periodic sweep removes everything already stale).
//! A small line protocol drives the store: `GET`, `SET`, `HAS`, `STATS`
//! and `QUIT`, one command per newline-terminated line.
//!
//! All times are plain `u64` milliseconds on a monotonic clock supplied by
//! the caller; the library itself never reads a clock and never touches a
//! socket, so everything in it is verified.

pub mod store;
pub mod commands;
pub mod protocol;
pub mod laws;
