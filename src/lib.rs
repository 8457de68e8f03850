//! Coordination broker for multi-party computation sessions.
//!
//! The library holds the broker's registry of connections, groups and
//! sessions, the command handlers that mutate it, and the notification
//! plans that decide who hears of each change. Sockets, JSON framing and
//! the HTTP listener live outside it.

pub mod dispatch;
pub mod error;
pub mod group;
pub mod ids;
pub mod laws;
pub mod notify;
pub mod params;
pub mod server;
pub mod session;
pub mod state;
