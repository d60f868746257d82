//! The packet: the unit of data flowing through the flow graph.

use vstd::prelude::*;
use crate::base::id::{NodeId, PacketId};
use crate::packet::metadata::{Metadata, DEFAULT_TTL};
use crate::packet::payload::{bytes_contents, Payload};
use crate::packet::tags::{Tag, Tags};

verus! {

/// A packet: an identifier, a payload, its metadata, and its tags.
#[derive(Debug)]
pub struct Packet {
    id: PacketId,
    payload: Payload,
    metadata: Metadata,
    tags: Tags,
}

impl Packet {
    /// The packet's identifier.
    pub closed spec fn id_view(&self) -> PacketId {
        self.id
    }

    /// The payload's bytes.
    pub closed spec fn payload_view(&self) -> Seq<u8> {
        self.payload@
    }

    /// The metadata.
    pub closed spec fn metadata_view(&self) -> Metadata {
        self.metadata
    }

    /// The tags.
    pub closed spec fn tags_view(&self) -> Tags {
        self.tags
    }

    /// A new packet with the given payload, fresh metadata and no tags.
    pub fn new(payload: Payload) -> (p: Self)
        ensures
            p.payload_view() == payload@,
            p.id_view()@ != 0,
            p.tags_view().bits == 0,
            p.metadata_view().ttl == DEFAULT_TTL,
            p.metadata_view().priority == 128,
            !p.metadata_view().traced,
    {
        Packet { id: PacketId::new(), payload, metadata: Metadata::new(), tags: Tags::new() }
    }

    /// A new packet with the given payload and metadata, and no tags.
    pub fn with_metadata(payload: Payload, metadata: Metadata) -> (p: Self)
        ensures
            p.payload_view() == payload@,
            p.metadata_view() == metadata,
            p.id_view()@ != 0,
            p.tags_view().bits == 0,
    {
        Packet { id: PacketId::new(), payload, metadata, tags: Tags::new() }
    }

    /// The packet's identifier.
    pub fn id(&self) -> (id: PacketId)
        ensures
            id == self.id_view(),
    {
        self.id
    }

    /// Gives the packet a new identifier: a fresh UUID, or, should that
    /// equal the one it had, the next value after it.
    pub fn reset_id(&mut self)
        ensures
            final(self).id_view()@ != 0,
            final(self).id_view()@ != old(self).id_view()@,
            final(self).payload_view() == old(self).payload_view(),
            final(self).metadata_view() == old(self).metadata_view(),
            final(self).tags_view() == old(self).tags_view(),
    {
        let before = self.id.as_u128();
        let mut fresh = PacketId::new();
        if fresh.as_u128() == before {
            fresh = PacketId::from_u128(if before == u128::MAX { 1 } else { before + 1 });
        }
        self.id = fresh;
    }

    /// The payload.
    pub fn payload(&self) -> (p: &Payload)
        ensures
            p@ == self.payload_view(),
    {
        &self.payload
    }

    /// The payload's bytes.
    pub fn data(&self) -> (d: &[u8])
        ensures
            d@ == self.payload_view(),
    {
        self.payload.as_bytes()
    }

    /// The payload's length.
    pub fn len(&self) -> (n: usize)
        ensures
            n == self.payload_view().len(),
    {
        self.payload.len()
    }

    /// Whether the payload is empty.
    pub fn is_empty(&self) -> (r: bool)
        ensures
            r == (self.payload_view().len() == 0),
    {
        self.payload.is_empty()
    }

    /// The metadata.
    pub fn metadata(&self) -> (m: &Metadata)
        ensures
            *m == self.metadata_view(),
    {
        &self.metadata
    }

    /// The metadata, to change in place.
    pub fn metadata_mut(&mut self) -> (m: &mut Metadata)
        ensures
            *m == old(self).metadata_view(),
            final(self).metadata_view() == *final(m),
            final(self).id_view() == old(self).id_view(),
            final(self).payload_view() == old(self).payload_view(),
            final(self).tags_view() == old(self).tags_view(),
    {
        &mut self.metadata
    }

    /// The tags.
    pub fn tags(&self) -> (t: &Tags)
        ensures
            *t == self.tags_view(),
    {
        &self.tags
    }

    /// The tags, to change in place.
    pub fn tags_mut(&mut self) -> (t: &mut Tags)
        ensures
            *t == old(self).tags_view(),
            final(self).tags_view() == *final(t),
            final(self).id_view() == old(self).id_view(),
            final(self).payload_view() == old(self).payload_view(),
            final(self).metadata_view() == old(self).metadata_view(),
    {
        &mut self.tags
    }

    /// Replaces the payload.
    pub fn set_payload(&mut self, payload: Payload)
        ensures
            final(self).payload_view() == payload@,
            final(self).id_view() == old(self).id_view(),
            final(self).metadata_view() == old(self).metadata_view(),
            final(self).tags_view() == old(self).tags_view(),
    {
        self.payload = payload;
    }

    /// Takes the payload out, leaving an empty one.
    pub fn take_payload(&mut self) -> (p: Payload)
        ensures
            p@ == old(self).payload_view(),
            final(self).payload_view() == Seq::<u8>::empty(),
            final(self).id_view() == old(self).id_view(),
            final(self).metadata_view() == old(self).metadata_view(),
            final(self).tags_view() == old(self).tags_view(),
    {
        let mut taken = Payload::empty();
        std::mem::swap(&mut taken, &mut self.payload);
        taken
    }

    /// Takes the payload's buffer out, leaving an empty payload.
    pub fn take_bytes(&mut self) -> (b: bytes::Bytes)
        ensures
            bytes_contents(b) == old(self).payload_view(),
            final(self).payload_view() == Seq::<u8>::empty(),
            final(self).id_view() == old(self).id_view(),
            final(self).metadata_view() == old(self).metadata_view(),
            final(self).tags_view() == old(self).tags_view(),
    {
        self.take_payload().into_bytes()
    }

    /// Adds a tag.
    pub fn tag(&mut self, tag: Tag)
        ensures
            forall|g: Tag| final(self).tags_view().has_spec(g) <==> (g == tag || old(self).tags_view().has_spec(g)),
            final(self).id_view() == old(self).id_view(),
            final(self).payload_view() == old(self).payload_view(),
            final(self).metadata_view() == old(self).metadata_view(),
    {
        self.tags.insert_tag(tag);
    }

    /// Whether the packet has the tag.
    pub fn has_tag(&self, tag: Tag) -> (r: bool)
        ensures
            r == self.tags_view().has_spec(tag),
    {
        self.tags.has_tag(tag)
    }

    /// The hops left before the packet is dropped.
    pub fn ttl(&self) -> (t: u8)
        ensures
            t == self.metadata_view().ttl,
    {
        self.metadata.ttl
    }

    /// Takes one hop off the TTL; whether the packet is still alive
    /// (false, and the TTL left at zero, where it already was zero).
    pub fn decrement_ttl(&mut self) -> (alive: bool)
        ensures
            old(self).metadata_view().ttl == 0 ==> !alive && final(self).metadata_view()
                == old(self).metadata_view(),
            old(self).metadata_view().ttl > 0 ==> final(self).metadata_view() == (Metadata {
                ttl: (old(self).metadata_view().ttl - 1) as u8,
                ..old(self).metadata_view()
            }) && alive == (old(self).metadata_view().ttl > 1),
            final(self).id_view() == old(self).id_view(),
            final(self).payload_view() == old(self).payload_view(),
            final(self).tags_view() == old(self).tags_view(),
    {
        if self.metadata.ttl == 0 {
            return false;
        }
        self.metadata.ttl = self.metadata.ttl - 1;
        self.metadata.ttl > 0
    }

    /// Records a hop in the metadata's trace (see `Metadata::record_hop`).
    pub fn record_hop(&mut self, node: NodeId)
        ensures
            final(self).id_view() == old(self).id_view(),
            final(self).payload_view() == old(self).payload_view(),
            final(self).tags_view() == old(self).tags_view(),
            !old(self).metadata_view().traced ==> final(self).metadata_view() == old(self).metadata_view(),
            old(self).metadata_view().traced ==> final(self).metadata_view().trace@ == old(
                self,
            ).metadata_view().trace@.push(node),
    {
        self.metadata.record_hop(node);
    }
}

impl Clone for Packet {
    fn clone(&self) -> (p: Self)
        ensures
            p.id_view() == self.id_view(),
            p.payload_view() == self.payload_view(),
            crate::packet::metadata::same_metadata(p.metadata_view(), self.metadata_view()),
            p.tags_view() == self.tags_view(),
    {
        Packet {
            id: self.id,
            payload: self.payload.clone(),
            metadata: self.metadata.clone(),
            tags: self.tags,
        }
    }
}

} // verus!
