//! Core logic of a local coordination daemon for interactive coding-agent
//! CLIs.  The daemon receives hook payloads from short-lived hook processes,
//! maintains a live view of every agent session, appends to an event log,
//! answers permission requests, and reconciles tracked sessions with an OS
//! process snapshot.
//!
//! This crate holds the verified core: the wire protocol, the event-log line
//! format, the session tracker, the permission store, the dedup cache, the
//! reconciliation merge, and the decision logic of the HTTP endpoints.  All
//! I/O (HTTP, files, OS process tables, UI) lives outside, in thin unverified
//! shells that hand plain values in and out.

pub mod chars;
pub mod config;
pub mod dedup;
pub mod events;
pub mod focuswalk;
pub mod format;
pub mod hookwire;
pub mod jsontext;
pub mod merge;
pub mod numtext;
pub mod permission;
pub mod protocol;
pub mod scanner;
pub mod server_core;
pub mod session;
pub mod store;
