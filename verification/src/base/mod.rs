//! Core types shared across the platform: identifiers, versions and
//! platforms.

pub mod id;
pub mod platform;
pub mod version;
pub mod clock;
