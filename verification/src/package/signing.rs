//! Ed25519 signing of `.nyp` packages: the deterministic bytes a
//! signature covers, and signing and verifying them.
//!
//! The cryptography is `ed25519-dalek`'s; keys and signatures are held
//! here as their plain byte encodings.

use vstd::prelude::*;
use vstd::bytes::{spec_u64_to_le_bytes, u64_to_le_bytes};
use vstd::string::StringSliceAdditionalSpecFns;
use vstd::utf8::encode_utf8;
use ed25519_dalek::{Signer, Verifier};
use crate::package::EntryPath;
use crate::text::seq_lt;

verus! {

/// Where a package's Ed25519 signature is stored within the archive.
pub const SIGNATURE_MEMBER_PATH: &'static str = "signatures/ed25519.sig";

/// Where the public key that checks the signature is stored.
pub const PUBLIC_KEY_MEMBER_PATH: &'static str = "signatures/ed25519.pub";

/// The directory whose entries a signature never covers.
pub const SIGNATURES_DIR: &'static str = "signatures/";

// ---------------------------------------------------------------------
// What ed25519-dalek computes.
// ---------------------------------------------------------------------

/// The public key (compressed point) that belongs to a 32-byte secret.
pub uninterp spec fn spec_public_key(secret: Seq<u8>) -> Seq<u8>;

/// Whether 32 bytes decompress to a curve point, i.e. are accepted by
/// `VerifyingKey::from_bytes`.
pub uninterp spec fn spec_key_valid(public: Seq<u8>) -> bool;

/// The Ed25519 signature of `message` under `secret`.
pub uninterp spec fn spec_signature(secret: Seq<u8>, message: Seq<u8>) -> Seq<u8>;

/// Whether `signature` verifies for `message` under the (valid) key
/// `public`.
pub uninterp spec fn spec_verifies(public: Seq<u8>, message: Seq<u8>, signature: Seq<u8>) -> bool;

/// `SigningKey::from_bytes(secret).verifying_key().to_bytes()`. A key
/// derived from a secret always decompresses again.
#[verifier::external_body]
fn ed25519_public_key(secret: &[u8; 32]) -> (public: [u8; 32])
    ensures
        public@ == spec_public_key(secret@),
        spec_key_valid(public@),
{
    ed25519_dalek::SigningKey::from_bytes(secret).verifying_key().to_bytes()
}

/// `VerifyingKey::from_bytes(bytes).is_ok()`.
#[verifier::external_body]
fn ed25519_key_valid(bytes: &[u8; 32]) -> (ok: bool)
    ensures
        ok == spec_key_valid(bytes@),
{
    ed25519_dalek::VerifyingKey::from_bytes(bytes).is_ok()
}

/// `SigningKey::from_bytes(secret).sign(message).to_bytes()`. Ed25519
/// signing is deterministic, and a signature made with a secret verifies
/// under that secret's public key.
#[verifier::external_body]
fn ed25519_sign(secret: &[u8; 32], message: &[u8]) -> (signature: [u8; 64])
    ensures
        signature@ == spec_signature(secret@, message@),
        spec_verifies(spec_public_key(secret@), message@, signature@),
{
    ed25519_dalek::SigningKey::from_bytes(secret).sign(message).to_bytes()
}

/// `Verifier::verify` of `VerifyingKey::from_bytes(public)` on
/// `Signature::from_bytes(signature)`, as a `bool`.
#[verifier::external_body]
fn ed25519_verify(public: &[u8; 32], message: &[u8], signature: &[u8; 64]) -> (ok: bool)
    requires
        spec_key_valid(public@),
    ensures
        ok == spec_verifies(public@, message@, signature@),
{
    match ed25519_dalek::VerifyingKey::from_bytes(public) {
        Ok(key) => key.verify(message, &ed25519_dalek::Signature::from_bytes(signature)).is_ok(),
        Err(_) => false,
    }
}

/// `SigningKey::generate` from the operating system's random source,
/// as its 32 secret bytes. Nothing is promised of the bytes.
#[verifier::external_body]
fn ed25519_generate() -> (secret: [u8; 32]) {
    ed25519_dalek::SigningKey::generate(&mut rand::rngs::OsRng).to_bytes()
}

// ---------------------------------------------------------------------
// Keys and signatures.
// ---------------------------------------------------------------------

/// An Ed25519 secret key.
pub struct SigningKey {
    secret: [u8; 32],
}

impl View for SigningKey {
    type V = Seq<u8>;

    closed spec fn view(&self) -> Seq<u8> {
        self.secret@
    }
}

/// An Ed25519 public key; its bytes always decompress to a curve point.
#[derive(Clone, Copy)]
pub struct VerifyingKey {
    bytes: [u8; 32],
}

impl View for VerifyingKey {
    type V = Seq<u8>;

    closed spec fn view(&self) -> Seq<u8> {
        self.bytes@
    }
}

impl VerifyingKey {
    #[verifier::type_invariant]
    spec fn decompresses(self) -> bool {
        spec_key_valid(self.bytes@)
    }
}

/// An Ed25519 signature.
#[derive(Clone, Copy)]
pub struct Signature {
    bytes: [u8; 64],
}

impl View for Signature {
    type V = Seq<u8>;

    closed spec fn view(&self) -> Seq<u8> {
        self.bytes@
    }
}

/// Generates a new keypair from the operating system's secure random
/// source.
pub fn generate_keypair() -> SigningKey {
    SigningKey { secret: ed25519_generate() }
}

impl SigningKey {
    /// The key with the given secret bytes.
    pub fn from_bytes(secret: &[u8; 32]) -> (k: SigningKey)
        ensures
            k@ == secret@,
    {
        SigningKey { secret: *secret }
    }

    /// The secret bytes.
    pub fn to_bytes(&self) -> (b: [u8; 32])
        ensures
            b@ == self@,
    {
        self.secret
    }

    /// The public key that belongs to this secret.
    pub fn verifying_key(&self) -> (k: VerifyingKey)
        ensures
            k@ == spec_public_key(self@),
            spec_key_valid(k@),
    {
        VerifyingKey { bytes: ed25519_public_key(&self.secret) }
    }

    /// Signs raw bytes.
    pub fn sign_bytes(&self, message: &[u8]) -> (s: Signature)
        ensures
            s@ == spec_signature(self@, message@),
    {
        Signature { bytes: ed25519_sign(&self.secret, message) }
    }
}

impl VerifyingKey {
    /// The key encoded by `bytes`, or `None` where they are not a curve
    /// point.
    pub fn from_bytes(bytes: &[u8; 32]) -> (k: Option<VerifyingKey>)
        ensures
            k is Some <==> spec_key_valid(bytes@),
            k is Some ==> k->0@ == bytes@,
    {
        if ed25519_key_valid(bytes) {
            Some(VerifyingKey { bytes: *bytes })
        } else {
            None
        }
    }

    /// The key's 32-byte encoding.
    pub fn to_bytes(&self) -> (b: [u8; 32])
        ensures
            b@ == self@,
    {
        self.bytes
    }

    /// Whether `signature` is a valid signature of `message` by this key.
    pub fn verify_bytes(&self, message: &[u8], signature: &Signature) -> (ok: bool)
        ensures
            ok == spec_verifies(self@, message@, signature@),
    {
        proof {
            use_type_invariant(self);
        }
        ed25519_verify(&self.bytes, message, &signature.bytes)
    }
}

impl Signature {
    /// The signature with the given 64 bytes.
    pub fn from_bytes(bytes: &[u8; 64]) -> (s: Signature)
        ensures
            s@ == bytes@,
    {
        Signature { bytes: *bytes }
    }

    /// The signature's 64 bytes.
    pub fn to_bytes(&self) -> (b: [u8; 64])
        ensures
            b@ == self@,
    {
        self.bytes
    }
}

} // verus!

verus! {

// ---------------------------------------------------------------------
// The bytes a signature covers.
// ---------------------------------------------------------------------

/// Whether an entry at `path` lies under `signatures/`, so that no
/// signature covers it.
pub open spec fn is_signature_entry(path: Seq<char>) -> bool {
    SIGNATURES_DIR@.len() <= path.len() && path.take(SIGNATURES_DIR@.len() as int)
        == SIGNATURES_DIR@
}

/// Entries as `(path, contents)` values.
pub open spec fn entry_views<S: EntryPath>(es: Seq<(S, Vec<u8>)>) -> Seq<(Seq<char>, Seq<u8>)> {
    Seq::new(es.len(), |i: int| (es[i].0.path_view(), es[i].1@))
}

/// The entries a signature covers: all but those under `signatures/`,
/// in their original order.
pub open spec fn covered_entries(es: Seq<(Seq<char>, Seq<u8>)>) -> Seq<(Seq<char>, Seq<u8>)>
    decreases es.len(),
{
    if es.len() == 0 {
        es
    } else {
        let rest = covered_entries(es.drop_last());
        if is_signature_entry(es.last().0) {
            rest
        } else {
            rest.push(es.last())
        }
    }
}

/// `s` with `e` placed before the first entry whose path sorts after
/// `e`'s.
pub open spec fn insert_by_path(s: Seq<(Seq<char>, Seq<u8>)>, e: (Seq<char>, Seq<u8>)) -> Seq<
    (Seq<char>, Seq<u8>),
>
    decreases s.len(),
{
    if s.len() == 0 {
        seq![e]
    } else if seq_lt(e.0, s[0].0) {
        seq![e] + s
    } else {
        seq![s[0]] + insert_by_path(s.drop_first(), e)
    }
}

/// The entries ordered by path; entries with equal paths keep their
/// relative order.
pub open spec fn sort_by_path(s: Seq<(Seq<char>, Seq<u8>)>) -> Seq<(Seq<char>, Seq<u8>)>
    decreases s.len(),
{
    if s.len() == 0 {
        s
    } else {
        insert_by_path(sort_by_path(s.drop_last()), s.last())
    }
}

/// One entry's record: its path in UTF-8, a zero byte, the contents'
/// length as a little-endian `u64`, then the contents.
pub open spec fn entry_record(e: (Seq<char>, Seq<u8>)) -> Seq<u8> {
    encode_utf8(e.0) + seq![0u8] + spec_u64_to_le_bytes(e.1.len() as u64) + e.1
}

/// The records of a sequence of entries, concatenated.
pub open spec fn records(s: Seq<(Seq<char>, Seq<u8>)>) -> Seq<u8>
    decreases s.len(),
{
    if s.len() == 0 {
        Seq::empty()
    } else {
        records(s.drop_last()) + entry_record(s.last())
    }
}

/// The bytes a package signature covers.
pub open spec fn spec_signable_bytes(es: Seq<(Seq<char>, Seq<u8>)>) -> Seq<u8> {
    records(sort_by_path(covered_entries(es)))
}

proof fn lemma_insert_at(s: Seq<(Seq<char>, Seq<u8>)>, e: (Seq<char>, Seq<u8>), k: int)
    requires
        0 <= k <= s.len(),
        forall|j: int| 0 <= j < k ==> !seq_lt(e.0, #[trigger] s[j].0),
        k < s.len() ==> seq_lt(e.0, s[k].0),
    ensures
        insert_by_path(s, e) == s.insert(k, e),
    decreases s.len(),
{
    if s.len() == 0 {
        assert(seq![e] =~= s.insert(k, e));
    } else if k == 0 {
        assert(seq![e] + s =~= s.insert(0, e));
    } else {
        assert forall|j: int| 0 <= j < k - 1 implies !seq_lt(e.0, #[trigger] s.drop_first()[j].0) by {
            assert(s.drop_first()[j] == s[j + 1]);
        }
        lemma_insert_at(s.drop_first(), e, k - 1);
        assert(seq![s[0]] + s.drop_first().insert(k - 1, e) =~= s.insert(k, e));
    }
}

spec fn pick(ev: Seq<(Seq<char>, Seq<u8>)>, order: Seq<usize>) -> Seq<(Seq<char>, Seq<u8>)> {
    Seq::new(order.len(), |j: int| ev[order[j] as int])
}

fn is_signature_path(path: &str) -> (r: bool)
    ensures
        r == is_signature_entry(path@),
{
    crate::text::has_prefix(path, SIGNATURES_DIR)
}

/// The deterministic bytes a package's signature covers: every entry
/// outside `signatures/`, ordered by path, each as its record (see
/// `entry_record`).
pub fn signable_bytes<S: EntryPath>(entries: &[(S, Vec<u8>)]) -> (out: Vec<u8>)
    ensures
        out@ == spec_signable_bytes(entry_views(entries@)),
{
    let ghost ev = entry_views(entries@);
    let mut order: Vec<usize> = Vec::new();
    let mut i: usize = 0;
    while i < entries.len()
        invariant
            i <= entries.len(),
            ev == entry_views(entries@),
            forall|j: int| 0 <= j < order.len() ==> #[trigger] order@[j] < i,
            pick(ev, order@) == sort_by_path(covered_entries(ev.take(i as int))),
        decreases entries.len() - i,
    {
        let path = entries[i].0.entry_path();
        let ghost e = ev[i as int];
        proof {
            assert(ev.take(i + 1).drop_last() =~= ev.take(i as int));
            assert(ev.take(i + 1).last() == e);
        }
        if !is_signature_path(path) {
            let mut k: usize = 0;
            let mut found = false;
            while k < order.len() && !found
                invariant
                    i < entries.len(),
                    ev == entry_views(entries@),
                    path@ == e.0,
                    k <= order.len(),
                    forall|j: int| 0 <= j < order.len() ==> #[trigger] order@[j] < i,
                    forall|j: int| 0 <= j < k ==> !seq_lt(e.0, #[trigger] pick(ev, order@)[j].0),
                    found ==> k < order.len() && seq_lt(e.0, pick(ev, order@)[k as int].0),
                decreases order.len() - k + (if found { 0int } else { 1int }),
            {
                let other = entries[order[k]].0.entry_path();
                assert(pick(ev, order@)[k as int] == ev[order@[k as int] as int]);
                if crate::text::str_lt(path, other) {
                    found = true;
                } else {
                    k += 1;
                }
            }
            proof {
                lemma_insert_at(pick(ev, order@), e, k as int);
            }
            let ghost before = order@;
            order.insert(k, i);
            proof {
                assert(pick(ev, order@) =~= pick(ev, before).insert(k as int, e));
                let c = covered_entries(ev.take(i as int));
                assert(covered_entries(ev.take(i + 1)) == c.push(e));
                assert(c.push(e).drop_last() =~= c);
                assert(c.push(e).last() == e);
            }
        } else {
            assert(covered_entries(ev.take(i + 1)) == covered_entries(ev.take(i as int)));
        }
        i += 1;
    }
    assert(ev.take(entries.len() as int) =~= ev);
    let ghost sorted = pick(ev, order@);
    let mut buf: Vec<u8> = Vec::new();
    let mut m: usize = 0;
    while m < order.len()
        invariant
            ev == entry_views(entries@),
            sorted == pick(ev, order@),
            forall|j: int| 0 <= j < order.len() ==> #[trigger] order@[j] < entries.len(),
            m <= order.len(),
            buf@ == records(sorted.take(m as int)),
        decreases order.len() - m,
    {
        let idx = order[m];
        let path = entries[idx].0.entry_path();
        let contents = &entries[idx].1;
        let ghost before = buf@;
        crate::text::append_bytes(&mut buf, path.as_bytes());
        buf.push(0u8);
        let len_bytes = u64_to_le_bytes(contents.len() as u64);
        crate::text::append_bytes(&mut buf, len_bytes.as_slice());
        crate::text::append_bytes(&mut buf, contents.as_slice());
        proof {
            assert(sorted[m as int] == ev[idx as int]);
            assert(sorted.take(m + 1).drop_last() =~= sorted.take(m as int));
            assert(buf@ =~= before + entry_record(sorted[m as int]));
        }
        m += 1;
    }
    assert(sorted.take(order.len() as int) =~= sorted);
    buf
}

} // verus!

verus! {

/// A signature did not verify against the given public key.
#[derive(Debug, Clone, Copy, PartialEq, Eq)]
pub struct SignatureVerificationFailed;

impl SignatureVerificationFailed {
    /// The error's message.
    pub fn message(&self) -> (s: String)
        ensures
            s@ == "signature does not verify against the given public key"@,
    {
        "signature does not verify against the given public key".to_owned()
    }
}

/// Signs `entries` (see `signable_bytes`) with `signing_key`. The
/// signature always verifies under the key's own public key.
pub fn sign<S: EntryPath>(entries: &[(S, Vec<u8>)], signing_key: &SigningKey) -> (s: Signature)
    ensures
        s@ == spec_signature(signing_key@, spec_signable_bytes(entry_views(entries@))),
        spec_verifies(
            spec_public_key(signing_key@),
            spec_signable_bytes(entry_views(entries@)),
            s@,
        ),
{
    let bytes = signable_bytes(entries);
    let s = Signature { bytes: ed25519_sign(&signing_key.secret, bytes.as_slice()) };
    s
}

/// Checks that `signature` is a valid signature over `entries` (see
/// `signable_bytes`) by `verifying_key`.
pub fn verify<S: EntryPath>(
    entries: &[(S, Vec<u8>)],
    signature: &Signature,
    verifying_key: &VerifyingKey,
) -> (r: Result<(), SignatureVerificationFailed>)
    ensures
        r is Ok <==> spec_verifies(
            verifying_key@,
            spec_signable_bytes(entry_views(entries@)),
            signature@,
        ),
{
    let bytes = signable_bytes(entries);
    if verifying_key.verify_bytes(bytes.as_slice(), signature) {
        Ok(())
    } else {
        Err(SignatureVerificationFailed)
    }
}

/// Adding an entry under `signatures/` does not change the bytes a
/// signature covers.
pub proof fn lemma_signature_entries_not_covered(
    es: Seq<(Seq<char>, Seq<u8>)>,
    e: (Seq<char>, Seq<u8>),
)
    requires
        is_signature_entry(e.0),
    ensures
        spec_signable_bytes(es.push(e)) == spec_signable_bytes(es),
{
    assert(es.push(e).drop_last() =~= es);
}

} // verus!
