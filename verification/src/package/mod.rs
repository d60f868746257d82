//! The `.nyp` package format: layout, manifest, signing and trust.
//!
//! A `.nyp` file is a `tar` archive, `zstd`-compressed, holding
//! `manifest.toml`, and optionally `payload/`, `assets/` and
//! `signatures/`.

pub mod manifest;
pub mod signing;
pub mod archive;
pub mod trust;
pub mod canonical;

use vstd::prelude::*;
use crate::errors::PackageError;

verus! {

/// The version of the `.nyp` container layout itself (not of any one
/// package). Bumped only for breaking layout changes.
pub const NYP_FORMAT_VERSION: u32 = 1;

/// Anything that names an archive entry by a path: `&str` and `String`.
pub trait EntryPath {
    /// The path's characters.
    spec fn path_view(&self) -> Seq<char>;

    /// The path as a string slice.
    fn entry_path(&self) -> (p: &str)
        ensures
            p@ == self.path_view(),
    ;
}

impl<'a> EntryPath for &'a str {
    open spec fn path_view(&self) -> Seq<char> {
        (**self)@
    }

    fn entry_path(&self) -> (p: &str) {
        *self
    }
}

impl EntryPath for String {
    open spec fn path_view(&self) -> Seq<char> {
        self@
    }

    fn entry_path(&self) -> (p: &str) {
        self.as_str()
    }
}

/// A top-level member of a `.nyp` archive.
#[derive(Debug, Clone, Copy, PartialEq, Eq, Hash, Structural)]
pub enum PackageMember {
    /// `manifest.toml`: package metadata; the only required member.
    Manifest,
    /// `payload/`: the module's compiled code.
    Payload,
    /// `assets/`: optional bundled resources.
    Assets,
    /// `signatures/`: optional Ed25519 signatures.
    Signatures,
}

/// The path of a member within the archive.
pub open spec fn member_path(m: PackageMember) -> Seq<char> {
    match m {
        PackageMember::Manifest => "manifest.toml"@,
        PackageMember::Payload => "payload/"@,
        PackageMember::Assets => "assets/"@,
        PackageMember::Signatures => "signatures/"@,
    }
}

/// Whether an archive must contain the member.
pub open spec fn member_required(m: PackageMember) -> bool {
    m == PackageMember::Manifest
}

/// Every member, in the order the format lists them.
pub open spec fn all_members() -> Seq<PackageMember> {
    seq![
        PackageMember::Manifest,
        PackageMember::Payload,
        PackageMember::Assets,
        PackageMember::Signatures,
    ]
}

impl PackageMember {
    /// Every top-level member, in the order the format lists them.
    pub fn all() -> (v: Vec<PackageMember>)
        ensures
            v@ == all_members(),
    {
        let v = vec![
            PackageMember::Manifest,
            PackageMember::Payload,
            PackageMember::Assets,
            PackageMember::Signatures,
        ];
        assert(v@ =~= all_members());
        v
    }

    /// This member's path within the archive.
    pub fn path(self) -> (p: &'static str)
        ensures
            p@ == member_path(self),
    {
        match self {
            PackageMember::Manifest => "manifest.toml",
            PackageMember::Payload => "payload/",
            PackageMember::Assets => "assets/",
            PackageMember::Signatures => "signatures/",
        }
    }

    /// Whether a valid archive must contain this member (only the
    /// manifest must).
    pub fn required(self) -> (r: bool)
        ensures
            r == member_required(self),
    {
        match self {
            PackageMember::Manifest => true,
            _ => false,
        }
    }
}

/// Whether `path` is among the entries' paths.
pub open spec fn has_entry<S: EntryPath>(entries: Seq<S>, path: Seq<char>) -> bool {
    exists|i: int| 0 <= i < entries.len() && #[trigger] entries[i].path_view() == path
}

fn contains_path<S: EntryPath>(entries: &[S], path: &str) -> (r: bool)
    ensures
        r == has_entry(entries@, path@),
{
    let mut i: usize = 0;
    while i < entries.len()
        invariant
            i <= entries.len(),
            forall|j: int| 0 <= j < i ==> (#[trigger] entries@[j]).path_view() != path@,
        decreases entries.len() - i,
    {
        if crate::text::str_eq(entries[i].entry_path(), path) {
            return true;
        }
        i += 1;
    }
    false
}

/// The error for a missing required member at `path`.
pub open spec fn is_missing_member(e: PackageError, path: Seq<char>) -> bool {
    e matches PackageError::MissingMember { path: p } && p@ == path
}

/// Checks that the top-level paths of a candidate archive include every
/// required member. Fails with `MissingMember` naming the first required
/// member (in `PackageMember::all` order) that is absent; since only the
/// manifest is required, that is `manifest.toml`.
pub fn validate_layout<S: EntryPath>(entries: &[S]) -> (r: Result<(), PackageError>)
    ensures
        r is Ok <==> has_entry(entries@, member_path(PackageMember::Manifest)),
        r is Err ==> is_missing_member(r->Err_0, member_path(PackageMember::Manifest)),
{
    let members = PackageMember::all();
    let mut k: usize = 0;
    while k < members.len()
        invariant
            members@ == all_members(),
            k <= members.len(),
            forall|j: int|
                0 <= j < k ==> (member_required(#[trigger] members@[j]) ==> has_entry(
                    entries@,
                    member_path(members@[j]),
                )),
        decreases members.len() - k,
    {
        let member = members[k];
        if member.required() && !contains_path(entries, member.path()) {
            assert(k == 0);
            return Err(PackageError::MissingMember { path: member.path().to_owned() });
        }
        k += 1;
    }
    assert(member_required(members@[0]));
    Ok(())
}

} // verus!
