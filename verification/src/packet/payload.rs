//! A packet's payload: a cheaply clonable byte buffer (`bytes::Bytes`),
//! and a builder that accumulates bytes into one.

use vstd::prelude::*;

verus! {

#[verifier::external_type_specification]
#[verifier::external_body]
pub struct ExBytes(bytes::Bytes);

#[verifier::external_type_specification]
#[verifier::external_body]
pub struct ExBytesMut(bytes::BytesMut);

/// The bytes a `Bytes` buffer holds.
pub uninterp spec fn bytes_contents(b: bytes::Bytes) -> Seq<u8>;

/// The bytes a `BytesMut` buffer holds.
pub uninterp spec fn bytes_mut_contents(b: bytes::BytesMut) -> Seq<u8>;

/// `Bytes::new()`: an empty buffer.
#[verifier::external_body]
fn bytes_empty() -> (b: bytes::Bytes)
    ensures
        bytes_contents(b) == Seq::<u8>::empty(),
{
    bytes::Bytes::new()
}

/// `Bytes::from(vec)`: the buffer holding exactly the vector's bytes.
#[verifier::external_body]
fn bytes_from_vec(v: Vec<u8>) -> (b: bytes::Bytes)
    ensures
        bytes_contents(b) == v@,
{
    bytes::Bytes::from(v)
}

/// `Bytes::from_static(slice)`.
#[verifier::external_body]
fn bytes_from_static(s: &'static [u8]) -> (b: bytes::Bytes)
    ensures
        bytes_contents(b) == s@,
{
    bytes::Bytes::from_static(s)
}

/// The buffer's bytes as a slice (`Bytes` dereferences to `[u8]`).
#[verifier::external_body]
fn bytes_as_slice(b: &bytes::Bytes) -> (s: &[u8])
    ensures
        s@ == bytes_contents(*b),
{
    b.as_ref()
}

/// `Bytes::slice(start..end)`: shares the bytes from `start` up to `end`.
#[verifier::external_body]
fn bytes_slice(b: &bytes::Bytes, start: usize, end: usize) -> (r: bytes::Bytes)
    requires
        start <= end <= bytes_contents(*b).len(),
    ensures
        bytes_contents(r) == bytes_contents(*b).subrange(start as int, end as int),
{
    b.slice(start..end)
}

/// `Bytes::clone`: another handle to the same bytes.
#[verifier::external_body]
fn bytes_clone(b: &bytes::Bytes) -> (r: bytes::Bytes)
    ensures
        bytes_contents(r) == bytes_contents(*b),
{
    b.clone()
}

/// `BytesMut::with_capacity(capacity)`: an empty buffer.
#[verifier::external_body]
fn bytes_mut_with_capacity(capacity: usize) -> (b: bytes::BytesMut)
    ensures
        bytes_mut_contents(b) == Seq::<u8>::empty(),
{
    bytes::BytesMut::with_capacity(capacity)
}

/// `BytesMut::extend_from_slice`: appends the bytes.
#[verifier::external_body]
fn bytes_mut_extend(b: &mut bytes::BytesMut, data: &[u8])
    ensures
        bytes_mut_contents(*final(b)) == bytes_mut_contents(*old(b)) + data@,
{
    b.extend_from_slice(data)
}

/// `BytesMut::freeze`: the accumulated bytes as an immutable buffer.
#[verifier::external_body]
fn bytes_mut_freeze(b: bytes::BytesMut) -> (r: bytes::Bytes)
    ensures
        bytes_contents(r) == bytes_mut_contents(b),
{
    b.freeze()
}

/// `BytesMut::len`.
#[verifier::external_body]
fn bytes_mut_len(b: &bytes::BytesMut) -> (n: usize)
    ensures
        n == bytes_mut_contents(*b).len(),
{
    b.len()
}

/// A packet's payload.
#[derive(Debug)]
pub struct Payload {
    bytes: bytes::Bytes,
}

impl View for Payload {
    type V = Seq<u8>;

    closed spec fn view(&self) -> Seq<u8> {
        bytes_contents(self.bytes)
    }
}

impl Clone for Payload {
    fn clone(&self) -> (p: Self)
        ensures
            p@ == self@,
    {
        Payload { bytes: bytes_clone(&self.bytes) }
    }
}

impl Payload {
    /// An empty payload.
    pub fn empty() -> (p: Self)
        ensures
            p@ == Seq::<u8>::empty(),
    {
        Payload { bytes: bytes_empty() }
    }

    /// A payload over an existing buffer.
    pub fn from_bytes(bytes: bytes::Bytes) -> (p: Self)
        ensures
            p@ == bytes_contents(bytes),
    {
        Payload { bytes }
    }

    /// A payload holding the vector's bytes.
    pub fn from_vec(vec: Vec<u8>) -> (p: Self)
        ensures
            p@ == vec@,
    {
        Payload { bytes: bytes_from_vec(vec) }
    }

    /// A payload over static bytes, without copying.
    pub fn from_static(slice: &'static [u8]) -> (p: Self)
        ensures
            p@ == slice@,
    {
        Payload { bytes: bytes_from_static(slice) }
    }

    /// A payload holding a copy of the slice's bytes.
    pub fn from_slice(slice: &[u8]) -> (p: Self)
        ensures
            p@ == slice@,
    {
        let mut v: Vec<u8> = Vec::new();
        crate::text::append_bytes(&mut v, slice);
        assert(v@ =~= slice@);
        Payload::from_vec(v)
    }

    /// A payload holding the string's UTF-8 bytes.
    pub fn from_str(s: &str) -> (p: Self)
        ensures
            p@ == vstd::utf8::encode_utf8(s@),
    {
        Payload::from_slice(s.as_bytes())
    }

    /// The payload's bytes.
    pub fn as_bytes(&self) -> (s: &[u8])
        ensures
            s@ == self@,
    {
        bytes_as_slice(&self.bytes)
    }

    /// The number of bytes.
    pub fn len(&self) -> (n: usize)
        ensures
            n == self@.len(),
    {
        bytes_as_slice(&self.bytes).len()
    }

    /// Whether there are no bytes.
    pub fn is_empty(&self) -> (r: bool)
        ensures
            r == (self@.len() == 0),
    {
        self.len() == 0
    }

    /// The bytes from `start` up to `end`, sharing the buffer.
    pub fn slice(&self, start: usize, end: usize) -> (p: Self)
        requires
            start <= end <= self@.len(),
        ensures
            p@ == self@.subrange(start as int, end as int),
    {
        Payload { bytes: bytes_slice(&self.bytes, start, end) }
    }

    /// Splits at `at`: the bytes before it, and the bytes from it on.
    pub fn split_off(self, at: usize) -> (r: (Self, Self))
        requires
            at <= self@.len(),
        ensures
            r.0@ == self@.take(at as int),
            r.1@ == self@.skip(at as int),
    {
        let n = self.len();
        let right = bytes_slice(&self.bytes, at, n);
        let left = bytes_slice(&self.bytes, 0, at);
        assert(self@.subrange(0, at as int) =~= self@.take(at as int));
        assert(self@.subrange(at as int, n as int) =~= self@.skip(at as int));
        (Payload { bytes: left }, Payload { bytes: right })
    }

    /// The underlying buffer.
    pub fn into_bytes(self) -> (b: bytes::Bytes)
        ensures
            bytes_contents(b) == self@,
    {
        self.bytes
    }

    /// A builder for a new payload.
    pub fn builder() -> (b: PayloadBuilder)
        ensures
            b@ == Seq::<u8>::empty(),
    {
        PayloadBuilder::new()
    }
}

/// Accumulates bytes into a payload.
pub struct PayloadBuilder {
    buf: bytes::BytesMut,
}

impl View for PayloadBuilder {
    type V = Seq<u8>;

    closed spec fn view(&self) -> Seq<u8> {
        bytes_mut_contents(self.buf)
    }
}

impl PayloadBuilder {
    /// An empty builder, with room for a typical MTU (1500 bytes).
    pub fn new() -> (b: Self)
        ensures
            b@ == Seq::<u8>::empty(),
    {
        PayloadBuilder { buf: bytes_mut_with_capacity(1500) }
    }

    /// An empty builder with room for `capacity` bytes.
    pub fn with_capacity(capacity: usize) -> (b: Self)
        ensures
            b@ == Seq::<u8>::empty(),
    {
        PayloadBuilder { buf: bytes_mut_with_capacity(capacity) }
    }

    /// Appends bytes.
    pub fn extend(&mut self, data: &[u8])
        ensures
            final(self)@ == old(self)@ + data@,
    {
        bytes_mut_extend(&mut self.buf, data);
    }

    /// The number of bytes so far.
    pub fn len(&self) -> (n: usize)
        ensures
            n == self@.len(),
    {
        bytes_mut_len(&self.buf)
    }

    /// Whether nothing was added yet.
    pub fn is_empty(&self) -> (r: bool)
        ensures
            r == (self@.len() == 0),
    {
        self.len() == 0
    }

    /// The accumulated bytes as a payload.
    pub fn build(self) -> (p: Payload)
        ensures
            p@ == self@,
    {
        Payload { bytes: bytes_mut_freeze(self.buf) }
    }
}

impl Default for PayloadBuilder {
    fn default() -> (b: Self)
        ensures
            b@ == Seq::<u8>::empty(),
    {
        PayloadBuilder::new()
    }
}

} // verus!
