//! A pool of packets kept for reuse, bounded in size.

use vstd::prelude::*;
use crate::packet::packet::Packet;
use crate::packet::payload::Payload;

verus! {

/// Packets kept for reuse; never more than `max_size` of them.
#[derive(Debug)]
pub struct PacketPool {
    packets: Vec<Packet>,
    max_size: usize,
}

impl PacketPool {
    /// The packets the pool holds, in the order they were released.
    pub closed spec fn pooled(&self) -> Seq<Packet> {
        self.packets@
    }

    /// How many packets the pool holds.
    pub open spec fn held(&self) -> nat {
        self.pooled().len()
    }

    /// The most packets the pool keeps.
    pub closed spec fn capacity(&self) -> nat {
        self.max_size as nat
    }

    /// An empty pool keeping at most `max_size` packets.
    pub fn new(max_size: usize) -> (p: Self)
        ensures
            p.pooled().len() == 0,
            p.capacity() == max_size,
    {
        PacketPool { packets: Vec::new(), max_size }
    }

    /// The packet released last, taken out of the pool; a new empty
    /// packet where the pool is empty.
    pub fn acquire(&mut self) -> (p: Packet)
        ensures
            final(self).capacity() == old(self).capacity(),
            old(self).held() <= old(self).capacity() ==> final(self).held() <= final(self).capacity(),
            old(self).held() == 0 ==> final(self).pooled() == old(self).pooled() && p.payload_view().len() == 0,
            old(self).held() > 0 ==> p == old(self).pooled().last() && final(self).pooled()
                == old(self).pooled().drop_last(),
    {
        match self.packets.pop() {
            Some(p) => p,
            None => Packet::new(Payload::empty()),
        }
    }

    /// Returns a packet to the pool with its payload cleared and a new
    /// identifier, its metadata and tags kept; where the pool is full,
    /// the packet is dropped.
    pub fn release(&mut self, packet: Packet)
        ensures
            final(self).capacity() == old(self).capacity(),
            old(self).held() <= old(self).capacity() ==> final(self).held() <= final(self).capacity(),
            old(self).held() >= old(self).capacity() ==> final(self).pooled() == old(self).pooled(),
            old(self).held() < old(self).capacity() ==> ({
                let q = final(self).pooled().last();
                &&& final(self).pooled() == old(self).pooled().push(q)
                &&& q.payload_view().len() == 0
                &&& q.id_view()@ != 0
                &&& q.id_view()@ != packet.id_view()@
                &&& q.metadata_view() == packet.metadata_view()
                &&& q.tags_view() == packet.tags_view()
            }),
    {
        let mut packet = packet;
        packet.set_payload(Payload::empty());
        packet.reset_id();
        if self.packets.len() < self.max_size {
            self.packets.push(packet);
        }
    }

    /// How many packets are available.
    pub fn available(&self) -> (n: usize)
        ensures
            n == self.held(),
    {
        self.packets.len()
    }

    /// Drops every pooled packet.
    pub fn clear(&mut self)
        ensures
            final(self).pooled().len() == 0,
            final(self).capacity() == old(self).capacity(),
    {
        self.packets.clear();
    }
}

impl Default for PacketPool {
    /// A pool keeping at most 4096 packets.
    fn default() -> (p: Self)
        ensures
            p.pooled().len() == 0,
            p.capacity() == 4096,
    {
        PacketPool::new(4096)
    }
}

} // verus!
