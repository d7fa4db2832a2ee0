//! Open Timekeeping (OTK): the event model, its CBOR encoding, the wire
//! protocol, and the segment log, with machine-checked contracts.

pub mod cbor;
pub mod codec;
pub mod contracts;
pub mod devcerts;
pub mod fixtures;
pub mod frame;
pub mod ingest;
pub mod log;
pub mod model;
pub mod numbering;
pub mod protocol;
pub mod schema;
pub mod sentences;
pub mod text;
pub mod wire;
