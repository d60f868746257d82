//! Identifiers: strongly typed 128-bit UUIDs, one type per domain so
//! that identifiers of different domains cannot be mixed up.

use vstd::prelude::*;

verus! {

/// The lowercase hexadecimal digit of `d` (0 to 15).
pub open spec fn hex_digit(d: int) -> char {
    if d < 10 {
        (48 + d) as char
    } else {
        (87 + d) as char
    }
}

/// The `i`-th of the 32 hexadecimal digits of `value` (0 to 31), most
/// significant first.
pub open spec fn uuid_nibble(value: u128, i: int) -> u128 {
    (value >> ((124 - 4 * i) as u32)) & 15u128
}

/// How many hyphens come before position `k` of the text.
pub open spec fn hyphens_before(k: int) -> int {
    (if k > 8 { 1int } else { 0int }) + (if k > 13 { 1int } else { 0int }) + (if k > 18 { 1int } else { 0int })
        + (if k > 23 { 1int } else { 0int })
}

/// The character at position `k` (0 to 35) of the text of `value`.
pub open spec fn uuid_char(value: u128, k: int) -> char {
    if k == 8 || k == 13 || k == 18 || k == 23 {
        '-'
    } else {
        hex_digit(uuid_nibble(value, k - hyphens_before(k)) as int)
    }
}

/// The text `uuid` renders for a 128-bit value: its 32 lowercase
/// hexadecimal digits, most significant first, in groups of 8, 4, 4, 4
/// and 12 joined by hyphens.
pub open spec fn spec_uuid_text(value: u128) -> Seq<char> {
    Seq::new(36, |k: int| uuid_char(value, k))
}

/// `Uuid::now_v7().as_u128()`: a fresh version-7 UUID. Its version
/// nibble is 7, so it is never the nil UUID; nothing else is promised.
#[verifier::external_body]
fn uuid_now_v7() -> (value: u128)
    ensures
        value != 0,
{
    uuid::Uuid::now_v7().as_u128()
}

/// The lowercase hexadecimal digit of `d`.
fn hex_char(d: u8) -> (c: char)
    requires
        d < 16,
    ensures
        c == hex_digit(d as int),
{
    if d < 10 {
        (48 + d) as char
    } else {
        (87 + d) as char
    }
}

/// The hyphenated lowercase text of a UUID value, as `uuid` writes it.
fn uuid_text(value: u128) -> (s: String)
    ensures
        s@ == spec_uuid_text(value),
{
    let mut chars: Vec<char> = Vec::new();
    let mut k: usize = 0;
    let mut i: u32 = 0;
    while k < 36
        invariant
            k <= 36,
            chars@.len() == k,
            i as int == k - hyphens_before(k as int),
            forall|j: int| 0 <= j < k ==> chars@[j] == uuid_char(value, j),
        decreases 36 - k,
    {
        if k == 8 || k == 13 || k == 18 || k == 23 {
            chars.push('-');
        } else {
            assert(i < 32);
            let shift: u32 = 124 - 4 * i;
            let nibble = (value >> shift) & 15u128;
            assert(nibble < 16) by (bit_vector)
                requires
                    nibble == (value >> shift) & 15u128;
            assert(nibble == uuid_nibble(value, k - hyphens_before(k as int)));
            chars.push(hex_char(nibble as u8));
            i += 1;
        }
        k += 1;
    }
    let s = crate::text::string_of(&chars);
    assert(s@ =~= spec_uuid_text(value));
    s
}

/// A unique identifier for a session.
#[derive(Debug, Clone, Copy, PartialEq, Eq, Hash, Structural)]
pub struct SessionId {
    value: u128,
}

impl View for SessionId {
    type V = u128;

    closed spec fn view(&self) -> u128 {
        self.value
    }
}

impl SessionId {
    /// A new unique identifier (a version-7 UUID, never nil).
    pub fn new() -> (id: Self)
        ensures
            id@ != 0,
    {
        Self { value: uuid_now_v7() }
    }

    /// The identifier with the given UUID value.
    pub fn from_u128(value: u128) -> (id: Self)
        ensures
            id@ == value,
    {
        Self { value }
    }

    /// The UUID value.
    pub fn as_u128(&self) -> (v: u128)
        ensures
            v == self@,
    {
        self.value
    }

    /// The nil (all-zero) identifier.
    pub fn nil() -> (id: Self)
        ensures
            id@ == 0,
    {
        Self { value: 0 }
    }

    /// Whether this is the nil identifier.
    pub fn is_nil(&self) -> (r: bool)
        ensures
            r == (self@ == 0),
    {
        self.value == 0
    }

    /// Whether two identifiers are the same.
    pub fn same_as(&self, other: &Self) -> (r: bool)
        ensures
            r == (self@ == other@),
    {
        self.value == other.value
    }

    /// The UUID's hyphenated text.
    pub fn to_string(&self) -> (s: String)
        ensures
            s@ == spec_uuid_text(self@),
    {
        uuid_text(self.value)
    }
}

impl Default for SessionId {
    /// A new unique identifier.
    fn default() -> (id: Self)
        ensures
            id@ != 0,
    {
        Self::new()
    }
}

/// A unique identifier for a flow within a session.
#[derive(Debug, Clone, Copy, PartialEq, Eq, Hash, Structural)]
pub struct FlowId {
    value: u128,
}

impl View for FlowId {
    type V = u128;

    closed spec fn view(&self) -> u128 {
        self.value
    }
}

impl FlowId {
    /// A new unique identifier (a version-7 UUID, never nil).
    pub fn new() -> (id: Self)
        ensures
            id@ != 0,
    {
        Self { value: uuid_now_v7() }
    }

    /// The identifier with the given UUID value.
    pub fn from_u128(value: u128) -> (id: Self)
        ensures
            id@ == value,
    {
        Self { value }
    }

    /// The UUID value.
    pub fn as_u128(&self) -> (v: u128)
        ensures
            v == self@,
    {
        self.value
    }

    /// The nil (all-zero) identifier.
    pub fn nil() -> (id: Self)
        ensures
            id@ == 0,
    {
        Self { value: 0 }
    }

    /// Whether this is the nil identifier.
    pub fn is_nil(&self) -> (r: bool)
        ensures
            r == (self@ == 0),
    {
        self.value == 0
    }

    /// Whether two identifiers are the same.
    pub fn same_as(&self, other: &Self) -> (r: bool)
        ensures
            r == (self@ == other@),
    {
        self.value == other.value
    }

    /// The UUID's hyphenated text.
    pub fn to_string(&self) -> (s: String)
        ensures
            s@ == spec_uuid_text(self@),
    {
        uuid_text(self.value)
    }
}

impl Default for FlowId {
    /// A new unique identifier.
    fn default() -> (id: Self)
        ensures
            id@ != 0,
    {
        Self::new()
    }
}

/// A unique identifier for a stream within a flow.
#[derive(Debug, Clone, Copy, PartialEq, Eq, Hash, Structural)]
pub struct StreamId {
    value: u128,
}

impl View for StreamId {
    type V = u128;

    closed spec fn view(&self) -> u128 {
        self.value
    }
}

impl StreamId {
    /// A new unique identifier (a version-7 UUID, never nil).
    pub fn new() -> (id: Self)
        ensures
            id@ != 0,
    {
        Self { value: uuid_now_v7() }
    }

    /// The identifier with the given UUID value.
    pub fn from_u128(value: u128) -> (id: Self)
        ensures
            id@ == value,
    {
        Self { value }
    }

    /// The UUID value.
    pub fn as_u128(&self) -> (v: u128)
        ensures
            v == self@,
    {
        self.value
    }

    /// The nil (all-zero) identifier.
    pub fn nil() -> (id: Self)
        ensures
            id@ == 0,
    {
        Self { value: 0 }
    }

    /// Whether this is the nil identifier.
    pub fn is_nil(&self) -> (r: bool)
        ensures
            r == (self@ == 0),
    {
        self.value == 0
    }

    /// Whether two identifiers are the same.
    pub fn same_as(&self, other: &Self) -> (r: bool)
        ensures
            r == (self@ == other@),
    {
        self.value == other.value
    }

    /// The UUID's hyphenated text.
    pub fn to_string(&self) -> (s: String)
        ensures
            s@ == spec_uuid_text(self@),
    {
        uuid_text(self.value)
    }
}

impl Default for StreamId {
    /// A new unique identifier.
    fn default() -> (id: Self)
        ensures
            id@ != 0,
    {
        Self::new()
    }
}

/// A unique identifier for an individual packet.
#[derive(Debug, Clone, Copy, PartialEq, Eq, Hash, Structural)]
pub struct PacketId {
    value: u128,
}

impl View for PacketId {
    type V = u128;

    closed spec fn view(&self) -> u128 {
        self.value
    }
}

impl PacketId {
    /// A new unique identifier (a version-7 UUID, never nil).
    pub fn new() -> (id: Self)
        ensures
            id@ != 0,
    {
        Self { value: uuid_now_v7() }
    }

    /// The identifier with the given UUID value.
    pub fn from_u128(value: u128) -> (id: Self)
        ensures
            id@ == value,
    {
        Self { value }
    }

    /// The UUID value.
    pub fn as_u128(&self) -> (v: u128)
        ensures
            v == self@,
    {
        self.value
    }

    /// The nil (all-zero) identifier.
    pub fn nil() -> (id: Self)
        ensures
            id@ == 0,
    {
        Self { value: 0 }
    }

    /// Whether this is the nil identifier.
    pub fn is_nil(&self) -> (r: bool)
        ensures
            r == (self@ == 0),
    {
        self.value == 0
    }

    /// Whether two identifiers are the same.
    pub fn same_as(&self, other: &Self) -> (r: bool)
        ensures
            r == (self@ == other@),
    {
        self.value == other.value
    }

    /// The UUID's hyphenated text.
    pub fn to_string(&self) -> (s: String)
        ensures
            s@ == spec_uuid_text(self@),
    {
        uuid_text(self.value)
    }
}

impl Default for PacketId {
    /// A new unique identifier.
    fn default() -> (id: Self)
        ensures
            id@ != 0,
    {
        Self::new()
    }
}

/// A unique identifier for a module instance.
#[derive(Debug, Clone, Copy, PartialEq, Eq, Hash, Structural)]
pub struct ModuleId {
    value: u128,
}

impl View for ModuleId {
    type V = u128;

    closed spec fn view(&self) -> u128 {
        self.value
    }
}

impl ModuleId {
    /// A new unique identifier (a version-7 UUID, never nil).
    pub fn new() -> (id: Self)
        ensures
            id@ != 0,
    {
        Self { value: uuid_now_v7() }
    }

    /// The identifier with the given UUID value.
    pub fn from_u128(value: u128) -> (id: Self)
        ensures
            id@ == value,
    {
        Self { value }
    }

    /// The UUID value.
    pub fn as_u128(&self) -> (v: u128)
        ensures
            v == self@,
    {
        self.value
    }

    /// The nil (all-zero) identifier.
    pub fn nil() -> (id: Self)
        ensures
            id@ == 0,
    {
        Self { value: 0 }
    }

    /// Whether this is the nil identifier.
    pub fn is_nil(&self) -> (r: bool)
        ensures
            r == (self@ == 0),
    {
        self.value == 0
    }

    /// Whether two identifiers are the same.
    pub fn same_as(&self, other: &Self) -> (r: bool)
        ensures
            r == (self@ == other@),
    {
        self.value == other.value
    }

    /// The UUID's hyphenated text.
    pub fn to_string(&self) -> (s: String)
        ensures
            s@ == spec_uuid_text(self@),
    {
        uuid_text(self.value)
    }
}

impl Default for ModuleId {
    /// A new unique identifier.
    fn default() -> (id: Self)
        ensures
            id@ != 0,
    {
        Self::new()
    }
}

/// A unique identifier for a node in the graph.
#[derive(Debug, Clone, Copy, PartialEq, Eq, Hash, Structural)]
pub struct NodeId {
    value: u128,
}

impl View for NodeId {
    type V = u128;

    closed spec fn view(&self) -> u128 {
        self.value
    }
}

impl NodeId {
    /// A new unique identifier (a version-7 UUID, never nil).
    pub fn new() -> (id: Self)
        ensures
            id@ != 0,
    {
        Self { value: uuid_now_v7() }
    }

    /// The identifier with the given UUID value.
    pub fn from_u128(value: u128) -> (id: Self)
        ensures
            id@ == value,
    {
        Self { value }
    }

    /// The UUID value.
    pub fn as_u128(&self) -> (v: u128)
        ensures
            v == self@,
    {
        self.value
    }

    /// The nil (all-zero) identifier.
    pub fn nil() -> (id: Self)
        ensures
            id@ == 0,
    {
        Self { value: 0 }
    }

    /// Whether this is the nil identifier.
    pub fn is_nil(&self) -> (r: bool)
        ensures
            r == (self@ == 0),
    {
        self.value == 0
    }

    /// Whether two identifiers are the same.
    pub fn same_as(&self, other: &Self) -> (r: bool)
        ensures
            r == (self@ == other@),
    {
        self.value == other.value
    }

    /// The UUID's hyphenated text.
    pub fn to_string(&self) -> (s: String)
        ensures
            s@ == spec_uuid_text(self@),
    {
        uuid_text(self.value)
    }
}

impl Default for NodeId {
    /// A new unique identifier.
    fn default() -> (id: Self)
        ensures
            id@ != 0,
    {
        Self::new()
    }
}

/// A unique identifier for a route.
#[derive(Debug, Clone, Copy, PartialEq, Eq, Hash, Structural)]
pub struct RouteId {
    value: u128,
}

impl View for RouteId {
    type V = u128;

    closed spec fn view(&self) -> u128 {
        self.value
    }
}

impl RouteId {
    /// A new unique identifier (a version-7 UUID, never nil).
    pub fn new() -> (id: Self)
        ensures
            id@ != 0,
    {
        Self { value: uuid_now_v7() }
    }

    /// The identifier with the given UUID value.
    pub fn from_u128(value: u128) -> (id: Self)
        ensures
            id@ == value,
    {
        Self { value }
    }

    /// The UUID value.
    pub fn as_u128(&self) -> (v: u128)
        ensures
            v == self@,
    {
        self.value
    }

    /// The nil (all-zero) identifier.
    pub fn nil() -> (id: Self)
        ensures
            id@ == 0,
    {
        Self { value: 0 }
    }

    /// Whether this is the nil identifier.
    pub fn is_nil(&self) -> (r: bool)
        ensures
            r == (self@ == 0),
    {
        self.value == 0
    }

    /// Whether two identifiers are the same.
    pub fn same_as(&self, other: &Self) -> (r: bool)
        ensures
            r == (self@ == other@),
    {
        self.value == other.value
    }

    /// The UUID's hyphenated text.
    pub fn to_string(&self) -> (s: String)
        ensures
            s@ == spec_uuid_text(self@),
    {
        uuid_text(self.value)
    }
}

impl Default for RouteId {
    /// A new unique identifier.
    fn default() -> (id: Self)
        ensures
            id@ != 0,
    {
        Self::new()
    }
}

} // verus!
