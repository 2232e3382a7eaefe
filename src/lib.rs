//! A message hub for persistent peer connections: a registry of connected
//! peers, a case-insensitive table of message handlers, and responses that
//! fan out to a chosen set of peers.

pub mod peer;
pub mod sink;
pub mod peers;
pub mod response;
pub mod dispatch;
pub mod request;
pub mod connection;
