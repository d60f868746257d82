//! Resource limits a module declares for itself.

use vstd::prelude::*;

verus! {

/// Resource limits for one module; `None` means unbounded.
#[derive(Debug, Clone, Copy, PartialEq, Eq, Default, Structural)]
pub struct ResourceLimits {
    /// Memory the module may use, in bytes.
    pub max_memory_bytes: Option<u64>,
    /// Share of one CPU the module may use, in percent.
    pub max_cpu_percent: Option<u8>,
    /// Time one `process` call may take, in nanoseconds.
    pub max_processing_time: Option<u128>,
    /// Size of a payload the module may be handed, in bytes.
    pub max_payload_bytes: Option<u64>,
}

impl ResourceLimits {
    /// The limits that bound nothing.
    pub open spec fn unbounded_spec() -> Self {
        Self {
            max_memory_bytes: None,
            max_cpu_percent: None,
            max_processing_time: None,
            max_payload_bytes: None,
        }
    }

    /// Limits that bound nothing.
    pub fn unbounded() -> (l: Self)
        ensures
            l == Self::unbounded_spec(),
    {
        Self {
            max_memory_bytes: None,
            max_cpu_percent: None,
            max_processing_time: None,
            max_payload_bytes: None,
        }
    }
}

} // verus!
