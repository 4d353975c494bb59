//! Core of a WebSocket latency probe: the message vocabulary, the table of
//! connected users, and the per-connection session that sends a ping, waits
//! for the pong and reports the round-trip time.
//!
//! Nothing here performs I/O. A driver owns the socket and the clock, feeds
//! the session one [`session::Event`] at a time and carries out the
//! [`session::Effect`]s it gets back.

pub mod message;
pub mod users;
pub mod session;
pub mod trace;
