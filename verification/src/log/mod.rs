//! The event log: an append-only sequence of events, numbered by offset.

pub mod access;
pub mod agreement;
pub mod batches;
pub mod bytes;
pub mod config;
pub mod disk;
pub mod entry;
pub mod error;
pub mod following;
pub mod keeping;
pub mod layout;
pub mod mem;
pub mod names;
pub mod octets;
pub mod progress;
pub mod reopening;
pub mod segment;
pub mod state;
pub mod subscription;
