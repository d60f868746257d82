//! Module health reporting.

use vstd::prelude::*;

verus! {

/// The health a module reports.
#[derive(Debug, Clone, PartialEq, Eq)]
pub enum Health {
    Healthy,
    Degraded { reason: String },
    Unhealthy { reason: String },
}

impl Default for Health {
    fn default() -> (h: Self)
        ensures
            h is Healthy,
    {
        Health::Healthy
    }
}

} // verus!
