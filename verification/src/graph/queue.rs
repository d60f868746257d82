//! The lanes of a node's input queue: which lane a packet waits in,
//! decided by its tags. Control packets go first, then interactive ones,
//! then everything else.

use vstd::prelude::*;
use crate::packet::packet::Packet;
use crate::packet::tags::Tags;

verus! {

/// A lane of a node's input queue.
#[derive(Debug, Clone, Copy, PartialEq, Eq, Structural)]
pub enum Lane {
    /// Control traffic, served first.
    Control,
    /// Interactive traffic, served after control traffic.
    Interactive,
    /// Bulk and untagged traffic, served last.
    Bulk,
}

/// The lane for a packet with tag bits `bits`: control where the control
/// tag is set, else interactive where that tag is set, else bulk.
pub open spec fn spec_lane_for(bits: u32) -> Lane {
    if bits & 4u32 == 4u32 {
        Lane::Control
    } else if bits & 1u32 == 1u32 {
        Lane::Interactive
    } else {
        Lane::Bulk
    }
}

/// The lane a packet waits in.
pub fn lane_for(packet: &Packet) -> (l: Lane)
    ensures
        l == spec_lane_for(packet.tags_view().bits),
{
    let tags = packet.tags();
    if tags.contains(Tags::CONTROL) {
        Lane::Control
    } else if tags.contains(Tags::INTERACTIVE) {
        Lane::Interactive
    } else {
        Lane::Bulk
    }
}

} // verus!
