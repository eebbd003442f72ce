//! Driving interactive command-line sessions on network devices.
//!
//! The crate models the device-facing logic of an SSH session manager:
//! a pattern-driven finite-state machine for prompt recognition and mode
//! transitions, transactional command blocks with rollback planning,
//! per-vendor templates, a session recorder with a JSONL codec and an
//! offline replayer, and the pure parts of the session I/O pump.

pub mod device;
pub mod errors;
pub mod exec_tx;
pub mod graph;
pub mod json;
pub mod params;
pub mod re;
pub mod recording;
pub mod security;
pub mod session;
pub mod strutil;
pub mod templates;
pub mod transaction;
