//! Session management for an embedded terminal host: a registry of live
//! pseudo-terminal sessions keyed by caller-chosen ids, and the per-session
//! read loop that turns PTY output into front-end events.
pub mod error;
pub mod reader;
pub mod registry;
pub mod size;
