//! The contract between the Runtime and its modules: API versions,
//! capabilities, I/O policies, metadata and metrics.

pub mod versioning;
pub mod capability;
pub mod fallback;
pub mod io_policy;
pub mod metrics;
pub mod platform;
pub mod resource_limits;
pub mod health;
pub mod event;
pub mod node;
pub mod metadata;
pub mod sandbox_permission;
pub mod config;
pub mod rate_limiter;
pub mod context;
