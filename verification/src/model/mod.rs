//! The canonical OTK event model.

pub mod crossing;
pub mod detection;
pub mod event;
pub mod health;
pub mod ids;
pub mod metadata;
pub mod stream;
pub mod timestamp;
