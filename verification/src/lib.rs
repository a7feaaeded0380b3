//! A verified core for a chunked, resumable HTTP download engine.
//!
//! Large remote files are transferred as inclusive byte ranges fetched
//! concurrently, written to disk strictly in ascending offset order, and
//! throttled by a rolling one-second rate limiter.  A manager tracks many
//! transfers keyed by owner and file id, with a per-owner concurrency cap
//! and a waiting / downloading / paused / completed / error life cycle.
//!
//! Everything here is pure state and decision logic with contracts; the
//! surrounding process performs the actual network and file operations and
//! feeds their outcomes back in as plain values.

pub mod chunk;
pub mod api;
pub mod limiter;
pub mod manager;
pub mod path;
pub mod web;
pub mod session;
pub mod worker;
pub mod text;
