//! Permissions a module's sandbox grants beyond its capabilities.

use vstd::prelude::*;

verus! {

/// How a filesystem path may be accessed.
#[derive(Debug, Clone, Copy, PartialEq, Eq, Hash, Structural)]
pub enum AccessMode {
    Read,
    Write,
    ReadWrite,
}

/// One sandbox permission.
#[derive(Debug, Clone, PartialEq, Eq)]
pub enum SandboxPermission {
    /// Access to a filesystem path.
    FilesystemPath { path: String, mode: AccessMode },
    /// Access to a network host, optionally on one port.
    NetworkAddress { host: String, port: Option<u16> },
}

} // verus!
