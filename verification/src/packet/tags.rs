//! Packet classification tags: a set of flags telling nodes what kind of
//! traffic a packet carries.

use vstd::prelude::*;

verus! {

/// A single classification tag.
#[derive(Debug, Clone, Copy, PartialEq, Eq, Hash, Structural)]
pub enum Tag {
    Interactive,
    Bulk,
    Control,
    Diagnostic,
    Handshake,
    Heartbeat,
    Rekey,
    Shutdown,
    Roaming,
    Fallback,
    Retransmit,
    Fragment,
    LastFragment,
    HighPriority,
    LowPriority,
    FlowStart,
    FlowEnd,
    LocalOnly,
}

/// The bit position of each tag.
pub open spec fn tag_index(t: Tag) -> u32 {
    match t {
        Tag::Interactive => 0,
        Tag::Bulk => 1,
        Tag::Control => 2,
        Tag::Diagnostic => 3,
        Tag::Handshake => 4,
        Tag::Heartbeat => 5,
        Tag::Rekey => 6,
        Tag::Shutdown => 7,
        Tag::Roaming => 8,
        Tag::Fallback => 9,
        Tag::Retransmit => 10,
        Tag::Fragment => 11,
        Tag::LastFragment => 12,
        Tag::HighPriority => 13,
        Tag::LowPriority => 14,
        Tag::FlowStart => 15,
        Tag::FlowEnd => 16,
        Tag::LocalOnly => 17,
    }
}

/// The single-bit mask of a tag.
pub open spec fn tag_bit(t: Tag) -> u32 {
    1u32 << tag_index(t)
}

/// A set of tags, one bit each.
#[derive(Debug, Clone, Copy, PartialEq, Eq, Hash, Structural)]
pub struct Tags {
    pub bits: u32,
}

/// Something that names a set of tag bits: a single `Tag`, a `Tags`, or a
/// raw mask built from the `Tags` bit constants.
pub trait TagQuery {
    spec fn query_bits(&self) -> u32;

    fn bits_of(&self) -> (b: u32)
        ensures
            b == self.query_bits(),
    ;
}

impl TagQuery for Tag {
    open spec fn query_bits(&self) -> u32 {
        tag_bit(*self)
    }

    fn bits_of(&self) -> (b: u32) {
        match *self {
            Tag::Interactive => 1u32 << 0u32,
            Tag::Bulk => 1u32 << 1u32,
            Tag::Control => 1u32 << 2u32,
            Tag::Diagnostic => 1u32 << 3u32,
            Tag::Handshake => 1u32 << 4u32,
            Tag::Heartbeat => 1u32 << 5u32,
            Tag::Rekey => 1u32 << 6u32,
            Tag::Shutdown => 1u32 << 7u32,
            Tag::Roaming => 1u32 << 8u32,
            Tag::Fallback => 1u32 << 9u32,
            Tag::Retransmit => 1u32 << 10u32,
            Tag::Fragment => 1u32 << 11u32,
            Tag::LastFragment => 1u32 << 12u32,
            Tag::HighPriority => 1u32 << 13u32,
            Tag::LowPriority => 1u32 << 14u32,
            Tag::FlowStart => 1u32 << 15u32,
            Tag::FlowEnd => 1u32 << 16u32,
            Tag::LocalOnly => 1u32 << 17u32,
        }
    }
}

impl TagQuery for Tags {
    open spec fn query_bits(&self) -> u32 {
        self.bits
    }

    fn bits_of(&self) -> (b: u32) {
        self.bits
    }
}

proof fn lemma_single_bits(i: u32, j: u32)
    by (bit_vector)
    requires
        i < 32,
        j < 32,
    ensures
        ((1u32 << i) & (1u32 << j) == (1u32 << j)) <==> i == j,
{
}

proof fn lemma_or_single(a: u32, i: u32, j: u32)
    by (bit_vector)
    requires
        i < 32,
        j < 32,
    ensures
        (((a | (1u32 << i)) & (1u32 << j)) == (1u32 << j)) <==> (i == j || (a & (1u32 << j))
            == (1u32 << j)),
{
}

proof fn lemma_zero_bits(j: u32)
    by (bit_vector)
    requires
        j < 32,
    ensures
        (0u32 & (1u32 << j)) != (1u32 << j),
{
}

/// Distinct tags occupy distinct bits.
pub proof fn lemma_tag_bits_distinct(s: Tag, t: Tag)
    ensures
        (tag_bit(s) & tag_bit(t) == tag_bit(t)) <==> s == t,
{
    lemma_single_bits(tag_index(s), tag_index(t));
}

impl Tags {
    pub const INTERACTIVE: u32 = 1;
    pub const BULK: u32 = 2;
    pub const CONTROL: u32 = 4;
    pub const DIAGNOSTIC: u32 = 8;
    pub const HANDSHAKE: u32 = 16;
    pub const HEARTBEAT: u32 = 32;
    pub const REKEY: u32 = 64;
    pub const SHUTDOWN: u32 = 128;
    pub const ROAMING: u32 = 256;
    pub const FALLBACK: u32 = 512;
    pub const RETRANSMIT: u32 = 1024;
    pub const FRAGMENT: u32 = 2048;
    pub const LAST_FRAGMENT: u32 = 4096;
    pub const HIGH_PRIORITY: u32 = 8192;
    pub const LOW_PRIORITY: u32 = 16384;
    pub const FLOW_START: u32 = 32768;
    pub const FLOW_END: u32 = 65536;
    pub const LOCAL_ONLY: u32 = 131072;

    /// Whether the set holds tag `t`.
    pub open spec fn has_spec(self, t: Tag) -> bool {
        self.bits & tag_bit(t) == tag_bit(t)
    }

    /// The empty set.
    pub fn new() -> (t: Self)
        ensures
            t.bits == 0,
            forall|g: Tag| !t.has_spec(g),
    {
        proof {
            assert forall|g: Tag| !(0u32 & tag_bit(g) == tag_bit(g)) by {
                lemma_zero_bits(tag_index(g));
            }
        }
        Self { bits: 0 }
    }

    /// The empty set.
    pub fn empty() -> (t: Self)
        ensures
            t.bits == 0,
    {
        Self { bits: 0 }
    }

    /// Add every tag of `q` to the set.
    pub fn insert<Q: TagQuery>(&mut self, q: Q)
        ensures
            final(self).bits == old(self).bits | q.query_bits(),
    {
        self.bits = self.bits | q.bits_of();
    }

    /// Add one tag to the set.
    pub fn insert_tag(&mut self, tag: Tag)
        ensures
            forall|g: Tag| final(self).has_spec(g) <==> (g == tag || old(self).has_spec(g)),
    {
        let ghost before = self.bits;
        self.insert(tag);
        proof {
            assert forall|g: Tag| final(self).has_spec(g) <==> (g == tag || old(self).has_spec(g)) by {
                lemma_or_single(before, tag_index(tag), tag_index(g));
            }
        }
    }

    /// Whether every tag of `q` is in the set.
    pub fn contains<Q: TagQuery>(&self, q: Q) -> (r: bool)
        ensures
            r == (self.bits & q.query_bits() == q.query_bits()),
    {
        let b = q.bits_of();
        self.bits & b == b
    }

    /// Whether the set holds tag `t`.
    pub fn has_tag(&self, tag: Tag) -> (r: bool)
        ensures
            r == self.has_spec(tag),
    {
        self.contains(tag)
    }

    /// Whether the two sets share any tag.
    pub fn intersects(&self, other: Tags) -> (r: bool)
        ensures
            r == (self.bits & other.bits != 0),
    {
        self.bits & other.bits != 0
    }

    /// Whether the packet is interactive traffic.
    pub fn is_interactive(&self) -> (r: bool)
        ensures
            r == self.has_spec(Tag::Interactive),
    {
        self.contains(Tag::Interactive)
    }

    /// Whether the packet is control traffic.
    pub fn is_control(&self) -> (r: bool)
        ensures
            r == self.has_spec(Tag::Control),
    {
        self.contains(Tag::Control)
    }

    /// Whether the packet is part of a handshake.
    pub fn is_handshake(&self) -> (r: bool)
        ensures
            r == self.has_spec(Tag::Handshake),
    {
        self.contains(Tag::Handshake)
    }

    /// The union of two sets.
    pub fn union(self, other: Tags) -> (t: Tags)
        ensures
            t.bits == self.bits | other.bits,
    {
        Tags { bits: self.bits | other.bits }
    }
}

impl Default for Tags {
    fn default() -> (t: Self)
        ensures
            t.bits == 0,
    {
        Tags { bits: 0 }
    }
}

impl TagQuery for u32 {
    open spec fn query_bits(&self) -> u32 {
        *self
    }

    fn bits_of(&self) -> (b: u32) {
        *self
    }
}

/// Law: after inserting a tag, the set contains it, and it still contains
/// every tag it held before.
pub proof fn lemma_insert_then_contains(before: Tags, tag: Tag, other: Tag)
    ensures
        (Tags { bits: before.bits | tag_bit(tag) }).has_spec(tag),
        before.has_spec(other) ==> (Tags { bits: before.bits | tag_bit(tag) }).has_spec(other),
{
    lemma_or_single(before.bits, tag_index(tag), tag_index(tag));
    lemma_or_single(before.bits, tag_index(tag), tag_index(other));
}

} // verus!
