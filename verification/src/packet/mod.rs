//! The packet model: payload, metadata and classification tags.

pub mod tags;
pub mod payload;
pub mod metadata;
pub mod packet;
pub mod pool;
