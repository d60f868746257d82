//! Capabilities: what a module asks the Runtime to be allowed to do, and
//! the bit mask in which a grant of them is kept.

use vstd::prelude::*;

verus! {

/// A single capability a module can require or provide.
#[derive(Debug, Clone, Copy, PartialEq, Eq, Hash, Structural)]
pub enum Capability {
    Filesystem,
    Network,
    Tun,
    Random,
    Crypto,
    Clock,
    Scheduler,
    Storage,
    Metrics,
    Dns,
    UiHooks,
    Background,
    PrivilegedSockets,
}

/// The bit position of each capability in a `CapabilityMask`.
pub open spec fn cap_index(c: Capability) -> u16 {
    match c {
        Capability::Filesystem => 0,
        Capability::Network => 1,
        Capability::Tun => 2,
        Capability::Random => 3,
        Capability::Crypto => 4,
        Capability::Clock => 5,
        Capability::Scheduler => 6,
        Capability::Storage => 7,
        Capability::Metrics => 8,
        Capability::Dns => 9,
        Capability::UiHooks => 10,
        Capability::Background => 11,
        Capability::PrivilegedSockets => 12,
    }
}

/// The single-bit mask of a capability.
pub open spec fn cap_bit(c: Capability) -> u16 {
    1u16 << cap_index(c)
}

/// A set of capabilities, one bit each.
#[derive(Debug, Clone, Copy, PartialEq, Eq, Hash, Structural)]
pub struct CapabilityMask {
    pub bits: u16,
}

proof fn lemma_single_bits(i: u16, j: u16)
    by (bit_vector)
    requires
        i < 16,
        j < 16,
    ensures
        ((1u16 << i) & (1u16 << j) != 0) <==> i == j,
{
}

proof fn lemma_or_bit(a: u16, m: u16, b: u16)
    by (bit_vector)
    ensures
        ((a | m) & b != 0) <==> (a & b != 0 || m & b != 0),
{
}

proof fn lemma_and_bit(a: u16, m: u16, i: u16)
    by (bit_vector)
    requires
        i < 16,
    ensures
        ((a & m) & (1u16 << i) != 0) <==> (a & (1u16 << i) != 0 && m & (1u16 << i) != 0),
{
}

proof fn lemma_empty_bit(b: u16)
    by (bit_vector)
    ensures
        0u16 & b == 0,
{
}

/// Distinct capabilities occupy distinct bits.
pub proof fn lemma_cap_bits_distinct(c: Capability, d: Capability)
    ensures
        (cap_bit(c) & cap_bit(d) != 0) <==> c == d,
{
    lemma_single_bits(cap_index(c), cap_index(d));
}

/// The bits outside those of the thirteen capabilities.
pub open spec fn non_capability_bits() -> u16 {
    0xe000u16
}

/// The union of the bits of the listed capabilities.
pub open spec fn caps_bits(s: Seq<Capability>) -> u16
    decreases s.len(),
{
    if s.len() == 0 {
        0
    } else {
        caps_bits(s.drop_last()) | cap_bit(s.last())
    }
}

proof fn lemma_cap_bit_values()
    by (bit_vector)
    ensures
        1u16 << 0u16 == 1u16,
        1u16 << 1u16 == 2u16,
        1u16 << 2u16 == 4u16,
        1u16 << 3u16 == 8u16,
        1u16 << 4u16 == 16u16,
        1u16 << 5u16 == 32u16,
        1u16 << 6u16 == 64u16,
        1u16 << 7u16 == 128u16,
        1u16 << 8u16 == 256u16,
        1u16 << 9u16 == 512u16,
        1u16 << 10u16 == 1024u16,
        1u16 << 11u16 == 2048u16,
        1u16 << 12u16 == 4096u16,
{
}

proof fn lemma_add_cap_bit(a: u16, i: u16)
    by (bit_vector)
    requires
        i < 13,
        a & 0xe000u16 == 0,
    ensures
        (a | (1u16 << i)) & 0xe000u16 == 0,
{
}

proof fn lemma_and_keeps_low(a: u16, b: u16)
    by (bit_vector)
    requires
        a & 0xe000u16 == 0,
    ensures
        (a & b) & 0xe000u16 == 0,
{
}

proof fn lemma_low_bits_equal(a: u16, b: u16)
    by (bit_vector)
    requires
        a & 0xe000u16 == 0,
        b & 0xe000u16 == 0,
        (a & 1u16 != 0) == (b & 1u16 != 0),
        (a & 2u16 != 0) == (b & 2u16 != 0),
        (a & 4u16 != 0) == (b & 4u16 != 0),
        (a & 8u16 != 0) == (b & 8u16 != 0),
        (a & 16u16 != 0) == (b & 16u16 != 0),
        (a & 32u16 != 0) == (b & 32u16 != 0),
        (a & 64u16 != 0) == (b & 64u16 != 0),
        (a & 128u16 != 0) == (b & 128u16 != 0),
        (a & 256u16 != 0) == (b & 256u16 != 0),
        (a & 512u16 != 0) == (b & 512u16 != 0),
        (a & 1024u16 != 0) == (b & 1024u16 != 0),
        (a & 2048u16 != 0) == (b & 2048u16 != 0),
        (a & 4096u16 != 0) == (b & 4096u16 != 0),
    ensures
        a == b,
{
}

proof fn lemma_low_bits_within(g: u16, r: u16)
    by (bit_vector)
    requires
        r & 0xe000u16 == 0,
        r & 1u16 != 0 ==> g & 1u16 != 0,
        r & 2u16 != 0 ==> g & 2u16 != 0,
        r & 4u16 != 0 ==> g & 4u16 != 0,
        r & 8u16 != 0 ==> g & 8u16 != 0,
        r & 16u16 != 0 ==> g & 16u16 != 0,
        r & 32u16 != 0 ==> g & 32u16 != 0,
        r & 64u16 != 0 ==> g & 64u16 != 0,
        r & 128u16 != 0 ==> g & 128u16 != 0,
        r & 256u16 != 0 ==> g & 256u16 != 0,
        r & 512u16 != 0 ==> g & 512u16 != 0,
        r & 1024u16 != 0 ==> g & 1024u16 != 0,
        r & 2048u16 != 0 ==> g & 2048u16 != 0,
        r & 4096u16 != 0 ==> g & 4096u16 != 0,
    ensures
        g & r == r,
{
}

impl Capability {
    /// Every capability, in bit order.
    pub fn all() -> (v: Vec<Capability>)
        ensures
            v@.len() == 13,
            forall|c: Capability| v@.contains(c),
            forall|i: int| 0 <= i < 13 ==> cap_index(#[trigger] v@[i]) == i,
    {
        let v = vec![
            Capability::Filesystem,
            Capability::Network,
            Capability::Tun,
            Capability::Random,
            Capability::Crypto,
            Capability::Clock,
            Capability::Scheduler,
            Capability::Storage,
            Capability::Metrics,
            Capability::Dns,
            Capability::UiHooks,
            Capability::Background,
            Capability::PrivilegedSockets,
        ];
        assert forall|c: Capability| v@.contains(c) by {
            assert(v@[cap_index(c) as int] == c);
        }
        v
    }

    /// The mask holding just this capability.
    pub fn mask(self) -> (m: CapabilityMask)
        ensures
            m.bits == cap_bit(self),
            forall|d: Capability| m.has_spec(d) <==> d == self,
    {
        proof {
            assert forall|d: Capability| (cap_bit(self) & cap_bit(d) != 0) <==> d == self by {
                lemma_cap_bits_distinct(self, d);
            }
        }
        let bits: u16 = match self {
            Capability::Filesystem => 1 << 0u16,
            Capability::Network => 1 << 1u16,
            Capability::Tun => 1 << 2u16,
            Capability::Random => 1 << 3u16,
            Capability::Crypto => 1 << 4u16,
            Capability::Clock => 1 << 5u16,
            Capability::Scheduler => 1 << 6u16,
            Capability::Storage => 1 << 7u16,
            Capability::Metrics => 1 << 8u16,
            Capability::Dns => 1 << 9u16,
            Capability::UiHooks => 1 << 10u16,
            Capability::Background => 1 << 11u16,
            Capability::PrivilegedSockets => 1 << 12u16,
        };
        CapabilityMask { bits }
    }
}

impl CapabilityMask {
    /// Whether the mask holds capability `c`.
    pub open spec fn has_spec(self, c: Capability) -> bool {
        self.bits & cap_bit(c) != 0
    }

    /// The mask with no capability.
    pub fn empty() -> (m: Self)
        ensures
            m.bits == 0,
            forall|c: Capability| !m.has_spec(c),
    {
        proof {
            assert forall|c: Capability| !(0u16 & cap_bit(c) != 0) by {
                lemma_empty_bit(cap_bit(c));
            }
        }
        Self { bits: 0 }
    }

    /// The raw bits.
    pub fn bits(&self) -> (b: u16)
        ensures
            b == self.bits,
    {
        self.bits
    }

    /// The union of two masks.
    pub fn union(self, other: Self) -> (m: Self)
        ensures
            m.bits == self.bits | other.bits,
            forall|c: Capability| m.has_spec(c) <==> (self.has_spec(c) || other.has_spec(c)),
    {
        proof {
            assert forall|c: Capability| #[trigger] (self.bits | other.bits) & cap_bit(c) != 0
                <==> (self.has_spec(c) || other.has_spec(c)) by {
                lemma_or_bit(self.bits, other.bits, cap_bit(c));
            }
        }
        Self { bits: self.bits | other.bits }
    }

    /// The intersection of two masks.
    pub fn intersection(self, other: Self) -> (m: Self)
        ensures
            m.bits == self.bits & other.bits,
            forall|c: Capability| m.has_spec(c) <==> (self.has_spec(c) && other.has_spec(c)),
    {
        proof {
            assert forall|c: Capability| #[trigger] (self.bits & other.bits) & cap_bit(c) != 0
                <==> (self.has_spec(c) && other.has_spec(c)) by {
                lemma_and_bit(self.bits, other.bits, cap_index(c));
            }
        }
        Self { bits: self.bits & other.bits }
    }

    /// The mask holding exactly the listed capabilities: the union of
    /// their bits, and no other bit.
    pub fn from_capabilities(capabilities: &[Capability]) -> (m: Self)
        ensures
            forall|c: Capability| m.has_spec(c) <==> capabilities@.contains(c),
            m.bits == caps_bits(capabilities@),
            m.bits & non_capability_bits() == 0,
    {
        let mut m = Self::empty();
        let mut i: usize = 0;
        assert(capabilities@.take(0) =~= Seq::<Capability>::empty());
        proof {
            lemma_empty_bit(0xe000u16);
        }
        while i < capabilities.len()
            invariant
                i <= capabilities@.len(),
                forall|c: Capability| m.has_spec(c) <==> capabilities@.take(i as int).contains(c),
                m.bits == caps_bits(capabilities@.take(i as int)),
                m.bits & 0xe000u16 == 0,
            decreases capabilities@.len() - i,
        {
            let ghost before = capabilities@.take(i as int);
            let ghost old_bits = m.bits;
            m = m.union(capabilities[i].mask());
            i += 1;
            proof {
                let after = capabilities@.take(i as int);
                assert(after =~= before.push(capabilities@[i - 1]));
                assert(after.drop_last() =~= before);
                lemma_add_cap_bit(old_bits, cap_index(capabilities@[i - 1]));
                assert forall|c: Capability| m.has_spec(c) <==> after.contains(c) by {
                    if after.contains(c) && c != capabilities@[i - 1] {
                        let k = choose|k: int| 0 <= k < after.len() && after[k] == c;
                        assert(before[k] == c);
                    }
                    if before.contains(c) {
                        let k = choose|k: int| 0 <= k < before.len() && before[k] == c;
                        assert(after[k] == c);
                    }
                    if c == capabilities@[i - 1] {
                        assert(after[i - 1] == c);
                    }
                }
            }
        }
        assert(capabilities@.take(capabilities@.len() as int) =~= capabilities@);
        m
    }

    /// Whether the mask holds capability `c`.
    pub fn has(self, capability: Capability) -> (r: bool)
        ensures
            r == self.has_spec(capability),
    {
        self.bits & capability.mask().bits != 0
    }

    /// Whether every bit of `required` is also in this mask.
    pub fn satisfies(self, required: Self) -> (r: bool)
        ensures
            r == (self.bits & required.bits == required.bits),
            r ==> forall|c: Capability| required.has_spec(c) ==> self.has_spec(c),
    {
        let r = self.bits & required.bits == required.bits;
        proof {
            if r {
                assert forall|c: Capability| required.has_spec(c) implies self.has_spec(c) by {
                    lemma_and_bit(self.bits, required.bits, cap_index(c));
                }
            }
        }
        r
    }
}

/// What was granted of a set of requested capabilities, and what was not.
#[derive(Debug, Clone, PartialEq, Eq)]
pub struct CapabilityGrant {
    /// The requested capabilities that were granted.
    pub granted: CapabilityMask,
    /// The requested capabilities that were not granted, in request order.
    pub denied: Vec<Capability>,
}

impl CapabilityGrant {
    /// Grant what `granted` allows of `required`: the granted mask is the
    /// mask of `required` cut down to `granted`.
    pub fn request(required: &[Capability], granted: CapabilityMask) -> (g: Self)
        ensures
            forall|c: Capability| #![trigger g.granted.has_spec(c)] g.granted.has_spec(c) <==> (required@.contains(c)
                && granted.has_spec(c)),
            g.granted.bits == caps_bits(required@) & granted.bits,
            g.granted.bits & non_capability_bits() == 0,
            g.denied@ == required@.filter(|c: Capability| !granted.has_spec(c)),
    {
        let mut denied: Vec<Capability> = Vec::new();
        let mut i: usize = 0;
        while i < required.len()
            invariant
                i <= required@.len(),
                denied@ == required@.take(i as int).filter(|c: Capability| !granted.has_spec(c)),
            decreases required@.len() - i,
        {
            let c = required[i];
            proof {
                assert(required@.take(i + 1).drop_last() =~= required@.take(i as int));
                reveal(Seq::filter);
            }
            if !granted.has(c) {
                denied.push(c);
            }
            i += 1;
        }
        assert(required@.take(required@.len() as int) =~= required@);
        let req_mask = CapabilityMask::from_capabilities(required);
        let mask = req_mask.intersection(granted);
        proof {
            lemma_and_keeps_low(req_mask.bits, granted.bits);
        }
        Self { granted: mask, denied }
    }

    /// Whether nothing requested was denied.
    pub fn is_fully_granted(&self) -> (r: bool)
        ensures
            r == (self.denied@.len() == 0),
    {
        self.denied.len() == 0
    }

    /// Whether `capability` was granted.
    pub fn has(&self, capability: Capability) -> (r: bool)
        ensures
            r == self.granted.has_spec(capability),
    {
        self.granted.has(capability)
    }
}

/// Law: a request is fully granted exactly when the granted mask holds
/// every requested capability.
pub proof fn lemma_fully_granted_iff_all_held(required: Seq<Capability>, granted: CapabilityMask)
    ensures
        (required.filter(|c: Capability| !granted.has_spec(c)).len() == 0) <==> (forall|c: Capability|
            required.contains(c) ==> granted.has_spec(c)),
    decreases required.len(),
{
    let f = |c: Capability| !granted.has_spec(c);
    if required.len() > 0 {
        let init = required.drop_last();
        lemma_fully_granted_iff_all_held(init, granted);
        reveal(Seq::filter);
        assert(required =~= init.push(required.last()));
        assert forall|c: Capability| required.contains(c) <==> (init.contains(c) || c
            == required.last()) by {
            if required.contains(c) {
                let k = choose|k: int| 0 <= k < required.len() && required[k] == c;
                if k < required.len() - 1 {
                    assert(init[k] == c);
                }
            }
            if init.contains(c) {
                let k = choose|k: int| 0 <= k < init.len() && init[k] == c;
                assert(required[k] == c);
            }
            if c == required.last() {
                assert(required[required.len() - 1] == c);
            }
        }
    }
}


/// The listed capabilities' bits hold exactly those capabilities, and no
/// bit outside them.
pub proof fn lemma_caps_bits(s: Seq<Capability>)
    ensures
        caps_bits(s) & non_capability_bits() == 0,
        forall|c: Capability| #![trigger s.contains(c)] (caps_bits(s) & cap_bit(c) != 0) <==> s.contains(c),
    decreases s.len(),
{
    if s.len() == 0 {
        lemma_empty_bit(0xe000u16);
        assert forall|c: Capability| #![trigger s.contains(c)] !(caps_bits(s) & cap_bit(c) != 0) by {
            lemma_empty_bit(cap_bit(c));
        }
    } else {
        let init = s.drop_last();
        let last = s.last();
        lemma_caps_bits(init);
        lemma_add_cap_bit(caps_bits(init), cap_index(last));
        assert forall|c: Capability| #![trigger s.contains(c)] (caps_bits(s) & cap_bit(c) != 0) <==> s.contains(c) by {
            lemma_or_bit(caps_bits(init), cap_bit(last), cap_bit(c));
            lemma_cap_bits_distinct(last, c);
            assert(init.contains(c) ==> caps_bits(init) & cap_bit(c) != 0);
            if s.contains(c) {
                let k = choose|k: int| 0 <= k < s.len() && s[k] == c;
                if k < s.len() - 1 {
                    assert(init[k] == c);
                }
            }
            if init.contains(c) {
                let k = choose|k: int| 0 <= k < init.len() && init[k] == c;
                assert(s[k] == c);
            }
            if c == last {
                assert(s[s.len() - 1] == c);
            }
        }
    }
}

/// Two masks with no bit outside the capabilities' that hold the same
/// capabilities are the same mask.
pub proof fn lemma_same_capabilities_same_mask(a: CapabilityMask, b: CapabilityMask)
    requires
        a.bits & non_capability_bits() == 0,
        b.bits & non_capability_bits() == 0,
        forall|c: Capability| a.has_spec(c) <==> b.has_spec(c),
    ensures
        a == b,
{
    lemma_cap_bit_values();
    assert(a.has_spec(Capability::Filesystem) == b.has_spec(Capability::Filesystem));
    assert(a.has_spec(Capability::Network) == b.has_spec(Capability::Network));
    assert(a.has_spec(Capability::Tun) == b.has_spec(Capability::Tun));
    assert(a.has_spec(Capability::Random) == b.has_spec(Capability::Random));
    assert(a.has_spec(Capability::Crypto) == b.has_spec(Capability::Crypto));
    assert(a.has_spec(Capability::Clock) == b.has_spec(Capability::Clock));
    assert(a.has_spec(Capability::Scheduler) == b.has_spec(Capability::Scheduler));
    assert(a.has_spec(Capability::Storage) == b.has_spec(Capability::Storage));
    assert(a.has_spec(Capability::Metrics) == b.has_spec(Capability::Metrics));
    assert(a.has_spec(Capability::Dns) == b.has_spec(Capability::Dns));
    assert(a.has_spec(Capability::UiHooks) == b.has_spec(Capability::UiHooks));
    assert(a.has_spec(Capability::Background) == b.has_spec(Capability::Background));
    assert(a.has_spec(Capability::PrivilegedSockets) == b.has_spec(Capability::PrivilegedSockets));
    lemma_low_bits_equal(a.bits, b.bits);
}

/// Law: where `required` has no bit outside the capabilities', a mask
/// satisfies it exactly when it holds every capability `required` holds.
pub proof fn lemma_satisfies_iff_holds_all(granted: CapabilityMask, required: CapabilityMask)
    requires
        required.bits & non_capability_bits() == 0,
    ensures
        (granted.bits & required.bits == required.bits) <==> (forall|c: Capability|
            required.has_spec(c) ==> granted.has_spec(c)),
{
    if forall|c: Capability| required.has_spec(c) ==> granted.has_spec(c) {
        lemma_cap_bit_values();
        assert(required.has_spec(Capability::Filesystem) ==> granted.has_spec(Capability::Filesystem));
        assert(required.has_spec(Capability::Network) ==> granted.has_spec(Capability::Network));
        assert(required.has_spec(Capability::Tun) ==> granted.has_spec(Capability::Tun));
        assert(required.has_spec(Capability::Random) ==> granted.has_spec(Capability::Random));
        assert(required.has_spec(Capability::Crypto) ==> granted.has_spec(Capability::Crypto));
        assert(required.has_spec(Capability::Clock) ==> granted.has_spec(Capability::Clock));
        assert(required.has_spec(Capability::Scheduler) ==> granted.has_spec(Capability::Scheduler));
        assert(required.has_spec(Capability::Storage) ==> granted.has_spec(Capability::Storage));
        assert(required.has_spec(Capability::Metrics) ==> granted.has_spec(Capability::Metrics));
        assert(required.has_spec(Capability::Dns) ==> granted.has_spec(Capability::Dns));
        assert(required.has_spec(Capability::UiHooks) ==> granted.has_spec(Capability::UiHooks));
        assert(required.has_spec(Capability::Background) ==> granted.has_spec(Capability::Background));
        assert(required.has_spec(Capability::PrivilegedSockets) ==> granted.has_spec(
            Capability::PrivilegedSockets,
        ));
        lemma_low_bits_within(granted.bits, required.bits);
    }
    if granted.bits & required.bits == required.bits {
        assert forall|c: Capability| required.has_spec(c) implies granted.has_spec(c) by {
            lemma_and_bit(granted.bits, required.bits, cap_index(c));
        }
    }
}

/// Law: a request is fully granted exactly when the granted mask
/// satisfies the mask of the requested capabilities.
pub proof fn lemma_fully_granted_iff_satisfies(required: Seq<Capability>, granted: CapabilityMask)
    ensures
        (required.filter(|c: Capability| !granted.has_spec(c)).len() == 0) <==> (granted.bits
            & caps_bits(required) == caps_bits(required)),
{
    lemma_fully_granted_iff_all_held(required, granted);
    lemma_caps_bits(required);
    let req = CapabilityMask { bits: caps_bits(required) };
    lemma_satisfies_iff_holds_all(granted, req);
    assert forall|c: Capability| req.has_spec(c) <==> required.contains(c) by {
        assert(required.contains(c) <==> (caps_bits(required) & cap_bit(c) != 0));
    }
}

proof fn lemma_all_bits_set()
    by (bit_vector)
    ensures
        0x1fffu16 & 0xe000u16 == 0,
        0x1fffu16 & 1u16 != 0,
        0x1fffu16 & 2u16 != 0,
        0x1fffu16 & 4u16 != 0,
        0x1fffu16 & 8u16 != 0,
        0x1fffu16 & 16u16 != 0,
        0x1fffu16 & 32u16 != 0,
        0x1fffu16 & 64u16 != 0,
        0x1fffu16 & 128u16 != 0,
        0x1fffu16 & 256u16 != 0,
        0x1fffu16 & 512u16 != 0,
        0x1fffu16 & 1024u16 != 0,
        0x1fffu16 & 2048u16 != 0,
        0x1fffu16 & 4096u16 != 0,
{
}

/// The number of bits set in `x`.
pub open spec fn bit_count(x: nat) -> nat
    decreases x,
{
    if x == 0 {
        0
    } else {
        x % 2 + bit_count(x / 2)
    }
}

/// Law: the mask of a list that names every capability is `0x1fff`, the
/// thirteen capability bits and no other, so it has one bit set for each
/// of the thirteen capabilities.
pub proof fn lemma_every_capability_mask(s: Seq<Capability>)
    requires
        forall|c: Capability| s.contains(c),
    ensures
        caps_bits(s) == 0x1fffu16,
        bit_count(caps_bits(s) as nat) == 13,
{
    reveal_with_fuel(bit_count, 14);
    lemma_caps_bits(s);
    lemma_all_bits_set();
    lemma_cap_bit_values();
    let all = CapabilityMask { bits: 0x1fffu16 };
    let m = CapabilityMask { bits: caps_bits(s) };
    assert forall|c: Capability| m.has_spec(c) <==> all.has_spec(c) by {
        assert(s.contains(c));
        match c {
            Capability::Filesystem => {},
            Capability::Network => {},
            Capability::Tun => {},
            Capability::Random => {},
            Capability::Crypto => {},
            Capability::Clock => {},
            Capability::Scheduler => {},
            Capability::Storage => {},
            Capability::Metrics => {},
            Capability::Dns => {},
            Capability::UiHooks => {},
            Capability::Background => {},
            Capability::PrivilegedSockets => {},
        }
    }
    lemma_same_capabilities_same_mask(m, all);
}

} // verus!
