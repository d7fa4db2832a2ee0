//! The server's side of an ingest session: the handshake, the messages after
//! it, and the bytes of a transport that carry them.

pub mod admission;
pub mod config;
pub mod conversation;
pub mod error;
pub mod handshake;
pub mod meaning;
pub mod processor;
pub mod session;
pub mod socket;
pub mod taking;
pub mod tls;
