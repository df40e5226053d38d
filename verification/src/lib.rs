//! Device registry and streaming-session controller for relaying live audio
//! to one network receiver at a time.
//!
//! The crate holds the decisions only: which devices are known, which
//! receiver is the target, and what the relay has to do next. Processes,
//! sockets and locks belong to the program that embeds it.

pub mod address;
pub mod control;
pub mod discovery;
pub mod events;
pub mod feed;
pub mod streaming;
