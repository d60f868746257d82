//! Routing conditions for conditional edges, over a packet's tags and
//! priority.

use vstd::prelude::*;
use crate::packet::packet::Packet;
use crate::packet::tags::{tag_bit, Tag, Tags};

verus! {

/// A predicate on a packet that decides whether a conditional edge is
/// taken.
#[derive(Debug, PartialEq, Eq)]
pub enum Condition {
    /// The packet has this tag.
    HasTag(Tag),
    /// The packet's tags share at least one with this set.
    TagsIntersect(Tags),
    /// The packet's priority is at least this.
    PriorityAtLeast(u8),
    /// The inner condition does not hold.
    Not(Box<Condition>),
    /// Every inner condition holds.
    All(Vec<Condition>),
    /// At least one inner condition holds.
    Any(Vec<Condition>),
}

/// Whether `c` holds of a packet with tag bits `tags` and priority
/// `priority`.
pub open spec fn holds(c: Condition, tags: u32, priority: u8) -> bool
    decreases c,
{
    match c {
        Condition::HasTag(t) => tags & tag_bit(t) == tag_bit(t),
        Condition::TagsIntersect(mask) => tags & mask.bits != 0,
        Condition::PriorityAtLeast(min) => priority >= min,
        Condition::Not(inner) => !holds(*inner, tags, priority),
        Condition::All(cs) => all_hold(cs@, tags, priority),
        Condition::Any(cs) => any_holds(cs@, tags, priority),
    }
}

/// Whether every condition of `cs` holds.
pub open spec fn all_hold(cs: Seq<Condition>, tags: u32, priority: u8) -> bool
    decreases cs,
{
    if cs.len() == 0 {
        true
    } else {
        holds(cs[0], tags, priority) && all_hold(cs.drop_first(), tags, priority)
    }
}

/// Whether some condition of `cs` holds.
pub open spec fn any_holds(cs: Seq<Condition>, tags: u32, priority: u8) -> bool
    decreases cs,
{
    if cs.len() == 0 {
        false
    } else {
        holds(cs[0], tags, priority) || any_holds(cs.drop_first(), tags, priority)
    }
}

impl Condition {
    /// Whether the condition holds of `packet`.
    pub fn evaluate(&self, packet: &Packet) -> (r: bool)
        ensures
            r == holds(*self, packet.tags_view().bits, packet.metadata_view().priority),
        decreases *self,
    {
        let ghost tags = packet.tags_view().bits;
        let ghost priority = packet.metadata_view().priority;
        match self {
            Condition::HasTag(t) => packet.has_tag(*t),
            Condition::TagsIntersect(mask) => packet.tags().intersects(*mask),
            Condition::PriorityAtLeast(min) => packet.metadata().priority >= *min,
            Condition::Not(inner) => !inner.evaluate(packet),
            Condition::All(cs) => {
                let mut i: usize = 0;
                assert(cs@.skip(0) =~= cs@);
                while i < cs.len()
                    invariant
                        *self == Condition::All(*cs),
                        tags == packet.tags_view().bits,
                        priority == packet.metadata_view().priority,
                        i <= cs@.len(),
                        all_hold(cs@, tags, priority) == all_hold(cs@.skip(i as int), tags, priority),
                    decreases cs@.len() - i,
                {
                    proof {
                        assert(decreases_to!(*self => (*self)->All_0));
                        assert(decreases_to!(*cs => cs@));
                        assert(decreases_to!(cs@ => cs@[i as int]));
                        assert(cs@.skip(i as int)[0] == cs@[i as int]);
                        assert(cs@.skip(i as int).drop_first() =~= cs@.skip(i + 1));
                    }
                    if !cs[i].evaluate(packet) {
                        return false;
                    }
                    i += 1;
                }
                true
            },
            Condition::Any(cs) => {
                let mut i: usize = 0;
                assert(cs@.skip(0) =~= cs@);
                while i < cs.len()
                    invariant
                        *self == Condition::Any(*cs),
                        tags == packet.tags_view().bits,
                        priority == packet.metadata_view().priority,
                        i <= cs@.len(),
                        any_holds(cs@, tags, priority) == any_holds(cs@.skip(i as int), tags, priority),
                    decreases cs@.len() - i,
                {
                    proof {
                        assert(decreases_to!(*self => (*self)->Any_0));
                        assert(decreases_to!(*cs => cs@));
                        assert(decreases_to!(cs@ => cs@[i as int]));
                        assert(cs@.skip(i as int)[0] == cs@[i as int]);
                        assert(cs@.skip(i as int).drop_first() =~= cs@.skip(i + 1));
                    }
                    if cs[i].evaluate(packet) {
                        return true;
                    }
                    i += 1;
                }
                false
            },
        }
    }
}

proof fn lemma_shared_bit(tags: u32, mask: u32, i: u32)
    by (bit_vector)
    requires
        i < 32,
        (tags >> i) & 1 == 1,
        (mask >> i) & 1 == 1,
    ensures
        tags & mask != 0,
{
}

proof fn lemma_bit_of_and(tags: u32, mask: u32, i: u32)
    by (bit_vector)
    requires
        i < 32,
        ((tags & mask) >> i) & 1 == 1,
    ensures
        (tags >> i) & 1 == 1,
        (mask >> i) & 1 == 1,
{
}

proof fn lemma_low_bit_or_higher(x: u32, i: u32)
    by (bit_vector)
    requires
        i < 31,
        x >> i != 0,
        (x >> i) & 1 != 1,
    ensures
        x >> ((i + 1) as u32) != 0,
{
}

proof fn lemma_top_bit(x: u32)
    by (bit_vector)
    requires
        x >> 31u32 != 0,
    ensures
        (x >> 31u32) & 1 == 1,
{
}

proof fn lemma_shift_zero(x: u32)
    by (bit_vector)
    ensures
        x >> 0u32 == x,
{
}

/// Some bit at position `i` or above is set in `x`, where any is.
proof fn lemma_some_set_bit(x: u32, i: u32) -> (k: u32)
    requires
        i < 32,
        x >> i != 0,
    ensures
        i <= k < 32,
        (x >> k) & 1 == 1,
    decreases 32 - i,
{
    if (x >> i) & 1 == 1 {
        i
    } else if i == 31 {
        lemma_top_bit(x);
        31
    } else {
        lemma_low_bit_or_higher(x, i);
        lemma_some_set_bit(x, (i + 1) as u32)
    }
}

/// Law: a packet meets `TagsIntersect(mask)` exactly when some bit is set
/// both in its tags and in the mask; in particular whenever it carries any
/// one tag of the mask, whatever other tags the mask names.
pub proof fn lemma_tags_intersect_is_a_shared_bit(tags: u32, mask: Tags, priority: u8)
    ensures
        holds(Condition::TagsIntersect(mask), tags, priority) <==> exists|i: u32|
            i < 32 && (tags >> i) & 1 == 1 && (#[trigger] (mask.bits >> i)) & 1 == 1,
        forall|t: Tag|
            #[trigger] (mask.bits & tag_bit(t)) == tag_bit(t) && tags & tag_bit(t) == tag_bit(t) ==> holds(
                Condition::TagsIntersect(mask),
                tags,
                priority,
            ),
{
    if holds(Condition::TagsIntersect(mask), tags, priority) {
        lemma_shift_zero(tags & mask.bits);
        let k = lemma_some_set_bit(tags & mask.bits, 0);
        lemma_bit_of_and(tags, mask.bits, k);
    }
    if exists|i: u32| i < 32 && (tags >> i) & 1 == 1 && (#[trigger] (mask.bits >> i)) & 1 == 1 {
        let i = choose|i: u32| i < 32 && (tags >> i) & 1 == 1 && (#[trigger] (mask.bits >> i)) & 1 == 1;
        lemma_shared_bit(tags, mask.bits, i);
    }
    assert forall|t: Tag|
        #[trigger] (mask.bits & tag_bit(t)) == tag_bit(t) && tags & tag_bit(t) == tag_bit(t) implies holds(
            Condition::TagsIntersect(mask),
            tags,
            priority,
        ) by {
        lemma_tag_bit_nonzero(t);
        lemma_common_nonzero(tags, mask.bits, tag_bit(t));
    }
}

proof fn lemma_one_shifted_nonzero(i: u32)
    by (bit_vector)
    requires
        i < 32,
    ensures
        1u32 << i != 0,
{
}

proof fn lemma_tag_bit_nonzero(t: Tag)
    ensures
        tag_bit(t) != 0,
{
    lemma_one_shifted_nonzero(crate::packet::tags::tag_index(t));
}

proof fn lemma_common_nonzero(tags: u32, mask: u32, b: u32)
    by (bit_vector)
    requires
        b != 0,
        mask & b == b,
        tags & b == b,
    ensures
        tags & mask != 0,
{
}

} // verus!
