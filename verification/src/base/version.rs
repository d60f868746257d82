//! Semantic versions of platform APIs, and named API versions.

use vstd::prelude::*;
use crate::text::{decimal, push_char, push_decimal, str_eq};

verus! {

/// A `major.minor.patch` version.
#[derive(Debug, Clone, Copy, PartialEq, Eq, Hash, PartialOrd, Ord, Structural)]
pub struct SemVer {
    pub major: u32,
    pub minor: u32,
    pub patch: u32,
}

impl SemVer {
    /// The version `major.minor.patch`.
    pub fn new(major: u32, minor: u32, patch: u32) -> (v: Self)
        ensures
            v == (SemVer { major, minor, patch }),
    {
        SemVer { major, minor, patch }
    }

    /// Whether `required` is compatible with this version: the same
    /// major, and a minor at least this version's.
    pub fn is_compatible_with(&self, required: &SemVer) -> (r: bool)
        ensures
            r == (self.major == required.major && required.minor >= self.minor),
    {
        self.major == required.major && required.minor >= self.minor
    }

    /// The text `major.minor.patch`.
    pub open spec fn spec_text(self) -> Seq<char> {
        decimal(self.major as nat).push('.') + decimal(self.minor as nat).push('.') + decimal(
            self.patch as nat,
        )
    }

    /// Renders as `major.minor.patch`.
    pub fn to_string(&self) -> (s: String)
        ensures
            s@ == self.spec_text(),
    {
        let mut s = String::new();
        push_decimal(&mut s, self.major as u64);
        push_char(&mut s, '.');
        push_decimal(&mut s, self.minor as u64);
        push_char(&mut s, '.');
        push_decimal(&mut s, self.patch as u64);
        assert(s@ =~= self.spec_text());
        s
    }
}

/// A version of a named API domain.
#[derive(Debug, Clone, PartialEq, Eq)]
pub struct ApiVersion {
    pub domain: String,
    pub version: SemVer,
}

impl ApiVersion {
    /// The version `major.minor.patch` of `domain`.
    pub fn new(domain: &str, major: u32, minor: u32, patch: u32) -> (v: Self)
        ensures
            v.domain@ == domain@,
            v.version == (SemVer { major, minor, patch }),
    {
        ApiVersion { domain: domain.to_owned(), version: SemVer::new(major, minor, patch) }
    }

    /// Whether this version satisfies `required`: the same domain, and
    /// `required`'s version compatible with this one (see
    /// `SemVer::is_compatible_with`).
    pub fn satisfies(&self, required: &ApiVersion) -> (r: bool)
        ensures
            r == (self.domain@ == required.domain@ && self.version.major == required.version.major
                && required.version.minor >= self.version.minor),
    {
        str_eq(self.domain.as_str(), required.domain.as_str()) && self.version.is_compatible_with(
            &required.version,
        )
    }
}

} // verus!
