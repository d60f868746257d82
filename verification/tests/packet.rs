use nyarix::base::id::{FlowId, NodeId, SessionId};
use nyarix::packet::metadata::{Metadata, DEFAULT_TTL};
use nyarix::packet::packet::Packet;
use nyarix::packet::payload::Payload;
use nyarix::packet::pool::PacketPool;
use nyarix::packet::tags::Tag;

#[test]
fn ids_are_unique() {
    let a = SessionId::new();
    let b = SessionId::new();
    assert_ne!(a, b);
}

#[test]
fn nil_is_consistent() {
    assert!(SessionId::nil().is_nil());
    assert!(!SessionId::new().is_nil());
}

#[test]
fn id_text_is_the_hyphenated_uuid() {
    let id = NodeId::from_u128(0x0123_4567_89ab_cdef_0123_4567_89ab_cdef);
    assert_eq!(id.to_string(), "01234567-89ab-cdef-0123-456789abcdef");
    assert_eq!(NodeId::nil().to_string(), "00000000-0000-0000-0000-000000000000");
}

#[test]
fn default_metadata() {
    let meta = Metadata::new();
    assert!(!meta.session_id.is_nil());
    assert!(!meta.flow_id.is_nil());
    assert_eq!(meta.ttl, DEFAULT_TTL);
    assert_eq!(meta.priority, 128);
}

#[test]
fn metadata_builder_pattern() {
    let session = SessionId::new();
    let flow = FlowId::new();
    let node = NodeId::new();
    let meta = Metadata::new().with_session(session).with_flow(flow).with_source(node);
    assert_eq!(meta.session_id, session);
    assert_eq!(meta.flow_id, flow);
    assert_eq!(meta.source_node, Some(node));
}

#[test]
fn ttl_expiry() {
    let mut meta = Metadata::new();
    assert!(!meta.is_expired());
    meta.ttl = 0;
    assert!(meta.is_expired());
}

#[test]
fn tracing_records_hops_only_when_enabled() {
    let a = NodeId::new();
    let b = NodeId::new();
    let mut untraced = Metadata::new();
    untraced.record_hop(a);
    assert!(untraced.trace.is_empty());

    let mut traced = Metadata::new().with_tracing(false);
    traced.record_hop(a);
    traced.record_hop(b);
    let summary = traced.trace_summary();
    assert_eq!(summary.len(), 2);
    assert_eq!(summary[0].node, a);
    assert_eq!(summary[1].node, b);
    assert_eq!(summary[0].elapsed_ms, None);

    let mut detailed = Metadata::new().with_tracing(true);
    detailed.record_hop(a);
    assert_eq!(detailed.trace_timestamps_ms.len(), 1);
    assert!(detailed.trace_summary()[0].elapsed_ms.is_some());
}

#[test]
fn packet_creation() {
    let pkt = Packet::new(Payload::from_slice(b"hello"));
    assert_eq!(pkt.data(), b"hello");
    assert_eq!(pkt.len(), 5);
    assert!(!pkt.is_empty());
}

#[test]
fn packet_clone_is_cheap() {
    let mut pkt = Packet::new(Payload::from_slice(b"shared data"));
    let clone = pkt.clone();
    assert_eq!(pkt.data(), clone.data());
    pkt.tag(Tag::Interactive);
    assert!(pkt.has_tag(Tag::Interactive));
    assert!(!clone.has_tag(Tag::Interactive));
}

#[test]
fn packet_ttl() {
    let mut pkt = Packet::new(Payload::from_slice(b"data"));
    let initial = pkt.ttl();
    assert!(initial > 0);
    for _ in 0..initial {
        let alive = pkt.decrement_ttl();
        if pkt.ttl() == 0 {
            assert!(!alive);
        }
    }
}

#[test]
fn decrementing_an_exhausted_ttl_reports_dead() {
    let mut pkt = Packet::new(Payload::from_slice(b"data"));
    pkt.metadata_mut().ttl = 1;
    assert!(!pkt.decrement_ttl());
    assert_eq!(pkt.ttl(), 0);
    assert!(!pkt.decrement_ttl());
    assert_eq!(pkt.ttl(), 0);
}

#[test]
fn empty_packet() {
    let pkt = Packet::new(Payload::empty());
    assert!(pkt.is_empty());
    assert_eq!(pkt.len(), 0);
}

#[test]
fn taking_the_payload_leaves_an_empty_one() {
    let mut pkt = Packet::new(Payload::from_slice(b"abc"));
    let taken = pkt.take_payload();
    assert_eq!(taken.as_bytes(), b"abc");
    assert!(pkt.is_empty());
}

#[test]
fn empty_payload() {
    let p = Payload::empty();
    assert!(p.is_empty());
    assert_eq!(p.len(), 0);
}

#[test]
fn payload_clone_is_shallow() {
    let data = vec![0u8; 1024];
    let p1 = Payload::from_vec(data);
    let p2 = p1.clone();
    assert_eq!(p1.len(), p2.len());
    assert_eq!(p1.as_bytes().as_ptr(), p2.as_bytes().as_ptr());
}

#[test]
fn payload_slice_is_zero_copy() {
    let p = Payload::from_vec(b"hello world".to_vec());
    let slice = p.slice(0, 5);
    assert_eq!(slice.as_bytes(), b"hello");
}

#[test]
fn builder_constructs_payload() {
    let mut builder = Payload::builder();
    builder.extend(b"hello ");
    builder.extend(b"world");
    let payload = builder.build();
    assert_eq!(payload.as_bytes(), b"hello world");
}

#[test]
fn split_off() {
    let p = Payload::from_vec(b"abcdef".to_vec());
    let (left, right) = p.split_off(3);
    assert_eq!(left.as_bytes(), b"abc");
    assert_eq!(right.as_bytes(), b"def");
}

#[test]
fn acquire_and_release() {
    let mut pool = PacketPool::new(10);

    let pkt = pool.acquire();
    assert!(pkt.is_empty());

    let id = pkt.id();
    pool.release(pkt);

    assert_eq!(pool.available(), 1);

    let reused = pool.acquire();
    // Released packets get a new identifier before they are handed out
    // again.
    assert_ne!(reused.id(), id);
}

#[test]
fn pool_capacity() {
    let mut pool = PacketPool::new(2);
    let a = pool.acquire();
    let b = pool.acquire();
    pool.release(a);
    pool.release(b);
    assert_eq!(pool.available(), 2);
    let c = pool.acquire();
    pool.release(c);
    assert_eq!(pool.available(), 2);
}

#[test]
fn released_packets_come_back_emptied() {
    let mut pool = PacketPool::new(10);
    let pkt = Packet::new(Payload::from_slice(b"payload"));
    pool.release(pkt);
    assert_eq!(pool.available(), 1);
    let reused = pool.acquire();
    assert!(reused.is_empty());
    assert_eq!(pool.available(), 0);
    pool.clear();
    assert_eq!(pool.available(), 0);
}

#[test]
fn a_deadline_expires_once_its_time_has_come() {
    let mut meta = Metadata::new();
    assert!(!meta.is_expired_at(1_000));
    meta.deadline_ms = Some(5_000);
    assert!(!meta.is_expired_at(4_999));
    assert!(meta.is_expired_at(5_000));
    meta.deadline_ms = None;
    meta.ttl = 0;
    assert!(meta.is_expired_at(0));
}

#[test]
fn a_detailed_trace_records_the_time_since_creation() {
    let mut meta = Metadata::new().with_tracing(true);
    let created = meta.created_at_ms;
    let node = NodeId::new();
    meta.record_hop_at(node, created + 25);
    meta.record_hop_at(node, created.saturating_sub(1));
    let hops = meta.trace_summary();
    assert_eq!(hops.len(), 2);
    assert_eq!(hops[0].elapsed_ms, Some(25));
    assert_eq!(hops[1].elapsed_ms, Some(0));
}

#[test]
fn identifiers_render_as_hyphenated_lowercase_hex() {
    let id = NodeId::from_u128(0x67e5504410b1426f9247bb680e5fe0c8);
    assert_eq!(id.to_string(), "67e55044-10b1-426f-9247-bb680e5fe0c8");
    assert_eq!(NodeId::nil().to_string(), "00000000-0000-0000-0000-000000000000");
    let max = FlowId::from_u128(u128::MAX);
    assert_eq!(max.to_string(), "ffffffff-ffff-ffff-ffff-ffffffffffff");
}
