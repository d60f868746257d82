//! Semantic versions of packages and the version requirements that
//! manifests place on their dependencies. Parsing, ordering and matching
//! are semver's; this module holds their results as plain values.

use vstd::prelude::*;
use crate::text::{decimal, push_char, push_decimal, push_str};

verus! {

/// A semantic version `major.minor.patch[-pre][+build]`.
#[derive(Debug, PartialEq, Eq, Hash)]
pub struct Version {
    pub major: u64,
    pub minor: u64,
    pub patch: u64,
    /// Pre-release identifiers, without the leading `-`; empty for a release.
    pub pre: String,
    /// Build metadata, without the leading `+`; usually empty.
    pub build: String,
}

/// A version as plain values: `(major, minor, patch, pre, build)`.
pub type VersionView = (u64, u64, u64, Seq<char>, Seq<char>);

/// semver's precedence order on versions: `a` sorts strictly before `b`.
pub uninterp spec fn spec_version_lt(a: VersionView, b: VersionView) -> bool;

/// Whether a version satisfies the requirement whose canonical text is `req`.
pub uninterp spec fn spec_req_matches(req: Seq<char>, v: VersionView) -> bool;

/// What semver reads from the text of a version, if it is one.
pub uninterp spec fn spec_parse_version(text: Seq<char>) -> Option<VersionView>;

/// The canonical text of the requirement semver reads from `text`, if it is one.
pub uninterp spec fn spec_parse_req(text: Seq<char>) -> Option<Seq<char>>;

impl View for Version {
    type V = VersionView;

    open spec fn view(&self) -> VersionView {
        (self.major, self.minor, self.patch, self.pre@, self.build@)
    }
}

impl Version {
    /// A release version with no pre-release or build part.
    pub fn new(major: u64, minor: u64, patch: u64) -> (v: Self)
        ensures
            v@ == (major, minor, patch, Seq::<char>::empty(), Seq::<char>::empty()),
    {
        Self { major, minor, patch, pre: String::new(), build: String::new() }
    }

    /// Structural equality of versions.
    pub fn same_as(&self, other: &Self) -> (r: bool)
        ensures
            r == (self@ == other@),
    {
        self.major == other.major && self.minor == other.minor && self.patch == other.patch
            && self.pre == other.pre && self.build == other.build
    }

    /// The canonical text `major.minor.patch[-pre][+build]`.
    pub open spec fn spec_text(self) -> Seq<char> {
        let core = decimal(self.major as nat).push('.') + decimal(self.minor as nat).push('.')
            + decimal(self.patch as nat);
        let with_pre = if self.pre@.len() == 0 { core } else { core.push('-') + self.pre@ };
        if self.build@.len() == 0 { with_pre } else { with_pre.push('+') + self.build@ }
    }

    /// Render as semver writes a version.
    pub fn to_string(&self) -> (s: String)
        ensures
            s@ == self.spec_text(),
    {
        let mut s = String::new();
        push_decimal(&mut s, self.major);
        push_char(&mut s, '.');
        push_decimal(&mut s, self.minor);
        push_char(&mut s, '.');
        push_decimal(&mut s, self.patch);
        if !self.pre.as_str().is_empty() {
            push_char(&mut s, '-');
            push_str(&mut s, self.pre.as_str());
        }
        if !self.build.as_str().is_empty() {
            push_char(&mut s, '+');
            push_str(&mut s, self.build.as_str());
        }
        assert(s@ =~= self.spec_text());
        s
    }

    /// Parse the text of a version as semver does.
    pub fn parse(text: &str) -> (r: Option<Self>)
        ensures
            r matches Some(v) ==> spec_parse_version(text@) == Some(v@),
            r is None ==> spec_parse_version(text@) is None,
    {
        match semver_parse_version(text) {
            Some((major, minor, patch, pre, build)) => Some(Self { major, minor, patch, pre, build }),
            None => None,
        }
    }

    /// Whether this version sorts strictly before `other` in semver's order.
    pub fn precedes(&self, other: &Self) -> (r: bool)
        ensures
            r == spec_version_lt(self@, other@),
            self@ == other@ ==> !r,
            r ==> !spec_version_lt(other@, self@),
            !r ==> forall|c: VersionView|
                #[trigger] spec_version_lt(self@, c) ==> spec_version_lt(other@, c),
    {
        semver_lt(self, other)
    }
}

/// `semver::Version::parse`, the fields of the version read taken as
/// plain values.
#[verifier::external_body]
fn semver_parse_version(text: &str) -> (r: Option<(u64, u64, u64, String, String)>)
    ensures
        r matches Some(t) ==> spec_parse_version(text@) == Some((t.0, t.1, t.2, t.3@, t.4@)),
        r is None ==> spec_parse_version(text@) is None,
{
    match semver::Version::parse(text) {
        Ok(v) => Some((v.major, v.minor, v.patch, v.pre.as_str().to_string(), v.build.as_str().to_string())),
        Err(_) => None,
    }
}

/// semver's `<` on versions (`semver::Version`'s derived `Ord`), with
/// the fields of `a` and `b`; a pre-release or build text semver refuses
/// is taken as empty. `semver::Version`'s order is a strict total order
/// (derived over its fields, whose own orders are total), so the order on
/// views that it induces is a strict weak order: no version sorts before
/// itself, `a < b` rules out `b < a`, and where `a < b` fails, every
/// version after `a` is also after `b`.
#[verifier::external_body]
fn semver_lt(a: &Version, b: &Version) -> (r: bool)
    ensures
        r == spec_version_lt(a@, b@),
        a@ == b@ ==> !r,
        r ==> !spec_version_lt(b@, a@),
        !r ==> forall|c: VersionView|
            #[trigger] spec_version_lt(a@, c) ==> spec_version_lt(b@, c),
{
    let x = semver::Version { major: a.major, minor: a.minor, patch: a.patch,
        pre: semver::Prerelease::new(&a.pre).unwrap_or(semver::Prerelease::EMPTY),
        build: semver::BuildMetadata::new(&a.build).unwrap_or(semver::BuildMetadata::EMPTY) };
    let y = semver::Version { major: b.major, minor: b.minor, patch: b.patch,
        pre: semver::Prerelease::new(&b.pre).unwrap_or(semver::Prerelease::EMPTY),
        build: semver::BuildMetadata::new(&b.build).unwrap_or(semver::BuildMetadata::EMPTY) };
    x < y
}

impl Clone for Version {
    fn clone(&self) -> (v: Self)
        ensures
            v == *self,
    {
        Version {
            major: self.major,
            minor: self.minor,
            patch: self.patch,
            pre: self.pre.clone(),
            build: self.build.clone(),
        }
    }
}

/// A requirement on a dependency's version, such as `^1.2` or `>=1.0, <2.0`.
#[derive(Debug, PartialEq, Eq)]
pub struct VersionReq {
    /// The requirement as semver renders it.
    pub text: String,
}

impl Clone for VersionReq {
    fn clone(&self) -> (q: Self)
        ensures
            q == *self,
    {
        VersionReq { text: self.text.clone() }
    }
}

impl VersionReq {
    /// Parse the text of a requirement as semver does.
    pub fn parse(text: &str) -> (r: Option<Self>)
        ensures
            r matches Some(q) ==> spec_parse_req(text@) == Some(q.text@),
            r is None ==> spec_parse_req(text@) is None,
    {
        match semver_parse_req(text) {
            Some(text) => Some(Self { text }),
            None => None,
        }
    }

    /// Whether `version` satisfies this requirement.
    pub fn matches(&self, version: &Version) -> (r: bool)
        ensures
            r == spec_req_matches(self.text@, version@),
    {
        semver_req_matches(self.text.as_str(), version)
    }
}

/// `semver::VersionReq::parse`, the requirement read rendered back as
/// text by its `Display`.
#[verifier::external_body]
fn semver_parse_req(text: &str) -> (r: Option<String>)
    ensures
        r matches Some(t) ==> spec_parse_req(text@) == Some(t@),
        r is None ==> spec_parse_req(text@) is None,
{
    match semver::VersionReq::parse(text) {
        Ok(q) => Some(q.to_string()),
        Err(_) => None,
    }
}

/// `semver::VersionReq::matches` for the requirement written `req` and
/// the version `v`; text semver does not read as a requirement matches
/// nothing.
#[verifier::external_body]
fn semver_req_matches(req: &str, v: &Version) -> (r: bool)
    ensures
        r == spec_req_matches(req@, v@),
{
    let version = semver::Version { major: v.major, minor: v.minor, patch: v.patch,
        pre: semver::Prerelease::new(&v.pre).unwrap_or(semver::Prerelease::EMPTY),
        build: semver::BuildMetadata::new(&v.build).unwrap_or(semver::BuildMetadata::EMPTY) };
    semver::VersionReq::parse(req).map_or(false, |q| q.matches(&version))
}

} // verus!
