//! Core of a personal chat-message statistics logger: the event-driven
//! persistence layer of a bot that records one account's messages,
//! edits and deletions, plus the read-only aggregate queries behind
//! its statistics API.
//!
//! The store keeps its three tables in memory, with the constraints
//! the storage schema demands carried as invariants: the (message,
//! channel) key is unique, the edit log keeps one row per message
//! holding two index-aligned JSON-encoded sequences, and the deletion
//! log is append-only. The storage boundary's wire forms — the JSON
//! row encoding and the decimal identifier rendering — live in
//! `codec` and `text`, with round-trip laws. The identity filter and
//! event router are in `event_handler`, the history-backfill
//! pagination state machine in `scan`, and the tracked-channel
//! configuration format in `config`.

pub mod codec;
pub mod config;
pub mod error;
pub mod event_handler;
pub mod resolve;
pub mod scan;
pub mod stats;
pub mod store;
pub mod text;
pub mod time;
