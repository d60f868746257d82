use nyarix::packet::tags::{Tag, Tags};

#[test]
fn empty_tags() {
    let tags = Tags::new();
    assert!(!tags.contains(Tag::Interactive));
    assert!(!tags.is_control());
}

#[test]
fn insert_and_check() {
    let mut tags = Tags::new();
    tags.insert(Tag::Interactive);
    tags.insert(Tag::Control);

    assert!(tags.is_interactive());
    assert!(tags.is_control());
    assert!(!tags.contains(Tag::Handshake));
}

#[test]
fn bitflags_ops() {
    let mut tags = Tags::new();
    tags.insert(Tag::Handshake);
    tags.insert(Tag::Heartbeat);

    assert!(tags.contains(Tags::HANDSHAKE | Tags::HEARTBEAT));
    assert!(!tags.contains(Tags::HANDSHAKE | Tags::FRAGMENT));
}
