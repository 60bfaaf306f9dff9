//! Verified synchronization engine keeping a forum-style chat platform and an
//! issue tracker consistent: a new discussion thread becomes a tracked issue,
//! and later status changes and discussion on the issue are mirrored back as
//! chat messages.
//!
//! The library holds the engine's logic — the dedup/mapping store, the
//! forward (chat -> tracker) and reverse (tracker -> chat) sync decisions, the
//! resumable historical backfill and the polling decisions — all of it
//! verified. Network transports, the database connection and process
//! bootstrap live outside the library and hand it plain values.

pub mod backfill;
pub mod config;
pub mod error;
pub mod forward;
pub mod linear;
pub mod poller;
pub mod reverse;
pub mod store;
pub mod text;
