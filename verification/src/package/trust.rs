//! Trust levels for loaded packages, derived from what a package's
//! signature can prove.

use vstd::prelude::*;
use crate::errors::PackageError;
use crate::package::archive::{first_entry, spec_signature_status, PackageReader, SignatureStatus};
use crate::package::signing::{VerifyingKey, PUBLIC_KEY_MEMBER_PATH};

verus! {

/// How a loaded package is trusted. Deliberately unordered.
#[derive(Debug, Clone, Copy, PartialEq, Eq, Hash, Structural)]
pub enum TrustLevel {
    /// Built into the runtime itself.
    System,
    /// Signed with an official key.
    Official,
    /// Signed with a community-vetted key.
    Community,
    /// Unsigned, or signed by a key the store does not recognize.
    Unknown,
    /// Developed locally.
    Local,
    /// Otherwise untrusted, but explicitly allowed by the user.
    Experimental,
}

/// The level registered for `key`: the last registration of it.
pub open spec fn registered_level(s: Seq<(Seq<u8>, TrustLevel)>, key: Seq<u8>) -> Option<TrustLevel>
    decreases s.len(),
{
    if s.len() == 0 {
        None
    } else if s.last().0 == key {
        Some(s.last().1)
    } else {
        registered_level(s.drop_last(), key)
    }
}

fn key_bytes_eq(a: &[u8; 32], b: &[u8; 32]) -> (r: bool)
    ensures
        r == (a@ == b@),
{
    let mut i: usize = 0;
    while i < 32
        invariant
            i <= 32,
            forall|j: int| 0 <= j < i ==> a@[j] == b@[j],
        decreases 32 - i,
    {
        if a[i] != b[i] {
            return false;
        }
        i += 1;
    }
    assert(a@ =~= b@);
    true
}

/// The public keys this runtime recognizes, and the level each implies.
pub struct TrustStore {
    known_keys: Vec<([u8; 32], TrustLevel)>,
}

impl View for TrustStore {
    type V = Seq<(Seq<u8>, TrustLevel)>;

    closed spec fn view(&self) -> Seq<(Seq<u8>, TrustLevel)> {
        Seq::new(self.known_keys@.len(), |i: int| (self.known_keys@[i].0@, self.known_keys@[i].1))
    }
}

proof fn lemma_update_last_match(
    s: Seq<(Seq<u8>, TrustLevel)>,
    i: int,
    level: TrustLevel,
    k: Seq<u8>,
)
    requires
        0 <= i < s.len(),
        forall|j: int| i < j < s.len() ==> #[trigger] s[j].0 != s[i].0,
    ensures
        registered_level(s.update(i, (s[i].0, level)), k) == if k == s[i].0 {
            Some(level)
        } else {
            registered_level(s, k)
        },
    decreases s.len(),
{
    let t = s.update(i, (s[i].0, level));
    if i == s.len() - 1 {
        assert(t.drop_last() =~= s.drop_last());
    } else {
        assert(t.drop_last() =~= s.drop_last().update(i, (s[i].0, level)));
        assert forall|j: int| i < j < s.drop_last().len() implies #[trigger] s.drop_last()[j].0
            != s.drop_last()[i].0 by {
            assert(s.drop_last()[j] == s[j]);
        }
        lemma_update_last_match(s.drop_last(), i, level, k);
    }
}

impl TrustStore {
    /// An empty store: no key is recognized.
    pub fn new() -> (s: TrustStore)
        ensures
            s@ == Seq::<(Seq<u8>, TrustLevel)>::empty(),
    {
        let s = TrustStore { known_keys: Vec::new() };
        assert(s@ =~= Seq::<(Seq<u8>, TrustLevel)>::empty());
        s
    }

    /// Registers `key` as implying `level`, replacing any earlier level
    /// for it.
    pub fn trust(&mut self, key: VerifyingKey, level: TrustLevel)
        ensures
            forall|k: Seq<u8>|
                #[trigger] registered_level(final(self)@, k) == if k == key@ {
                    Some(level)
                } else {
                    registered_level(old(self)@, k)
                },
    {
        let bytes = key.to_bytes();
        let ghost old_view = self@;
        let mut i: usize = self.known_keys.len();
        while i > 0
            invariant
                i <= self.known_keys.len(),
                bytes@ == key@,
                self@.len() == self.known_keys.len(),
                self@ == old_view,
                old_view == old(self)@,
                forall|j: int| i <= j < self@.len() ==> #[trigger] self@[j].0 != bytes@,
            decreases i,
        {
            if key_bytes_eq(&self.known_keys[i - 1].0, &bytes) {
                proof {
                    assert(self@[i - 1].0 == bytes@);
                }
                let ghost before = self@;
                self.known_keys.set(i - 1, (bytes, level));
                proof {
                    assert(self@ =~= before.update(i - 1, (before[i - 1].0, level)));
                    assert forall|k: Seq<u8>|
                        #[trigger] registered_level(self@, k) == if k == key@ {
                            Some(level)
                        } else {
                            registered_level(before, k)
                        } by {
                        lemma_update_last_match(before, i - 1, level, k);
                    }
                }
                return;
            }
            i -= 1;
        }
        let ghost before = self@;
        self.known_keys.push((bytes, level));
        proof {
            assert(self@.drop_last() =~= before);
            assert forall|k: Seq<u8>|
                #[trigger] registered_level(self@, k) == if k == key@ {
                    Some(level)
                } else {
                    registered_level(before, k)
                } by {
                if k != key@ {
                    assert(self@.last().0 == bytes@);
                }
            }
        }
    }

    /// The level registered for `key`, if any.
    pub fn level_for(&self, key: &VerifyingKey) -> (r: Option<TrustLevel>)
        ensures
            r == registered_level(self@, key@),
    {
        let bytes = key.to_bytes();
        let mut i: usize = self.known_keys.len();
        assert(self@.take(i as int) =~= self@);
        while i > 0
            invariant
                i <= self.known_keys.len(),
                bytes@ == key@,
                self@.len() == self.known_keys.len(),
                registered_level(self@, key@) == registered_level(self@.take(i as int), key@),
            decreases i,
        {
            proof {
                assert(self@.take(i as int).drop_last() =~= self@.take(i - 1));
                assert(self@.take(i as int).last() == self@[i - 1]);
            }
            if key_bytes_eq(&self.known_keys[i - 1].0, &bytes) {
                assert(self@[i - 1].0 == bytes@);
                assert(self@.take(i as int).last().0 == key@);
                return Some(self.known_keys[i - 1].1);
            }
            i -= 1;
        }
        None
    }
}

/// The level `classify` gives a package with entries `es`: the
/// registered level of the bundled key where the signature verifies and
/// the key is registered, `Unknown` otherwise.
pub open spec fn spec_classify(
    es: Seq<(Seq<char>, Seq<u8>)>,
    store: Seq<(Seq<u8>, TrustLevel)>,
) -> TrustLevel {
    if spec_signature_status(es) != SignatureStatus::Verified {
        TrustLevel::Unknown
    } else {
        match registered_level(store, first_entry(es, PUBLIC_KEY_MEMBER_PATH@)->0) {
            Some(level) => level,
            None => TrustLevel::Unknown,
        }
    }
}

/// Classifies a package by what its embedded signature proves: a valid
/// signature by a key in `trust_store` gets that key's level; anything
/// else is `Unknown`.
pub fn classify(reader: &PackageReader, trust_store: &TrustStore) -> (r: Result<
    TrustLevel,
    PackageError,
>)
    ensures
        r == Ok::<TrustLevel, PackageError>(spec_classify(reader.entries_view(), trust_store@)),
{
    match reader.signature_status() {
        Ok(SignatureStatus::Verified) => {},
        _ => {
            return Ok(TrustLevel::Unknown);
        },
    }
    let key_bytes = match reader.read_entry(PUBLIC_KEY_MEMBER_PATH) {
        Ok(Some(b)) => b,
        _ => {
            return Ok(TrustLevel::Unknown);
        },
    };
    if key_bytes.len() != 32 {
        return Ok(TrustLevel::Unknown);
    }
    let mut array = [0u8; 32];
    let mut i: usize = 0;
    while i < 32
        invariant
            key_bytes@.len() == 32,
            i <= 32,
            forall|j: int| 0 <= j < i ==> array@[j] == key_bytes@[j],
        decreases 32 - i,
    {
        array[i] = key_bytes[i];
        i += 1;
    }
    assert(array@ =~= key_bytes@);
    let key = match VerifyingKey::from_bytes(&array) {
        Some(k) => k,
        None => {
            return Ok(TrustLevel::Unknown);
        },
    };
    match trust_store.level_for(&key) {
        Some(level) => Ok(level),
        None => Ok(TrustLevel::Unknown),
    }
}

} // verus!
