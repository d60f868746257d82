//! The package manifest (`manifest.toml`) as the loader reads it.

use vstd::prelude::*;
use crate::module_api::capability::Capability;
use crate::module_api::metadata::{ModuleMetadata, ModuleType};
use crate::module_api::platform::Platform;
use crate::module_api::resource_limits::ResourceLimits;
use crate::module_api::versioning::ApiVersion;
use crate::versions::{Version, VersionReq};

verus! {

/// A dependency's version requirement, and whether it may be absent.
#[derive(Debug, Clone, PartialEq, Eq)]
pub struct DependencySpec {
    pub version_req: VersionReq,
    pub optional: bool,
}

/// The `[package]` table.
#[derive(Debug, Clone, PartialEq, Eq)]
pub struct PackageInfo {
    pub name: String,
    pub version: Version,
    pub module_type: ModuleType,
    pub api_version: ApiVersion,
    pub author: String,
    pub description: String,
}

/// The `[capabilities]` table.
#[derive(Debug, Clone, Default, PartialEq, Eq)]
pub struct Capabilities {
    pub required: Vec<Capability>,
    pub provided: Vec<String>,
}

/// The `[platforms]` table; an empty list means every platform.
#[derive(Debug, Clone, Default, PartialEq, Eq)]
pub struct Platforms {
    pub supported: Vec<Platform>,
}

/// A parsed package manifest. Dependencies are kept in a list of
/// `(name, spec)` pairs with distinct names.
#[derive(Debug, Clone, PartialEq, Eq)]
pub struct PackageManifest {
    pub package: PackageInfo,
    pub dependencies: Vec<(String, DependencySpec)>,
    pub capabilities: Capabilities,
    pub platforms: Platforms,
}

/// Whether `c` has the Unicode `White_Space` property: tab through
/// carriage return, space, next line, no-break space, Ogham space mark,
/// en quad through hair space, line and paragraph separators, narrow
/// no-break space, medium mathematical space and ideographic space.
pub open spec fn spec_is_whitespace(c: char) -> bool {
    let n = c as u32;
    ||| 0x09 <= n <= 0x0D
    ||| n == 0x20
    ||| n == 0x85
    ||| n == 0xA0
    ||| n == 0x1680
    ||| 0x2000 <= n <= 0x200A
    ||| n == 0x2028
    ||| n == 0x2029
    ||| n == 0x202F
    ||| n == 0x205F
    ||| n == 0x3000
}

/// `char::is_whitespace`, which std documents as the Unicode `White_Space`
/// property; the contract writes that property out.
#[verifier::external_body]
fn is_whitespace(c: char) -> (r: bool)
    ensures
        r == spec_is_whitespace(c),
{
    c.is_whitespace()
}

/// Whether `s` is nothing but whitespace, so that `str::trim` (which
/// strips the same `White_Space` characters) leaves it empty.
pub open spec fn spec_is_blank(s: Seq<char>) -> bool {
    forall|i: int| 0 <= i < s.len() ==> spec_is_whitespace(#[trigger] s[i])
}

/// Whether `s` is blank.
fn is_blank(s: &str) -> (r: bool)
    ensures
        r == spec_is_blank(s@),
{
    let chars = crate::text::chars_of(s);
    let mut i: usize = 0;
    while i < chars.len()
        invariant
            chars@ == s@,
            i <= chars@.len(),
            forall|j: int| 0 <= j < i ==> spec_is_whitespace(#[trigger] s@[j]),
        decreases chars@.len() - i,
    {
        if !is_whitespace(chars[i]) {
            return false;
        }
        i += 1;
    }
    true
}

/// The reason given when a manifest's package name is blank.
pub open spec fn empty_name_reason() -> Seq<char> {
    "package.name must not be empty"@
}

/// The error `validate` reports for a blank name.
pub open spec fn is_empty_name_error(e: crate::errors::PackageError) -> bool {
    e matches crate::errors::PackageError::InvalidManifest { reason } && reason@
        == empty_name_reason()
}

impl PackageManifest {
    /// A manifest with the given package and dependencies, no declared
    /// capabilities, and no platform restriction.
    pub fn new(package: PackageInfo, dependencies: Vec<(String, DependencySpec)>) -> (m: Self)
        ensures
            m.package == package,
            m.dependencies@ == dependencies@,
            m.capabilities.required@.len() == 0,
            m.capabilities.provided@.len() == 0,
            m.platforms.supported@.len() == 0,
    {
        Self {
            package,
            dependencies,
            capabilities: Capabilities { required: Vec::new(), provided: Vec::new() },
            platforms: Platforms { supported: Vec::new() },
        }
    }

    /// Check what the schema alone cannot: the package name is not blank.
    pub fn validate(&self) -> (r: Result<(), crate::errors::PackageError>)
        ensures
            r is Ok <==> !spec_is_blank(self.package.name@),
            r matches Err(e) ==> is_empty_name_error(e),
    {
        if is_blank(self.package.name.as_str()) {
            proof {
                reveal_strlit("package.name must not be empty");
            }
            return Err(crate::errors::PackageError::InvalidManifest {
                reason: "package.name must not be empty".to_owned(),
            });
        }
        Ok(())
    }

    /// The module metadata this manifest declares: its identity, required
    /// capabilities, provided tags and platforms; no provided capabilities
    /// and unbounded resource limits.
    pub fn to_module_metadata(&self) -> (m: ModuleMetadata)
        ensures
            m.name == self.package.name,
            m.version == self.package.version,
            m.module_type == self.package.module_type,
            m.api_version == self.package.api_version,
            m.author == self.package.author,
            m.description == self.package.description,
            m.required_capabilities@ == self.capabilities.required@,
            m.provided_capabilities@.len() == 0,
            m.provided_tags@ == self.capabilities.provided@,
            m.platforms@ == self.platforms.supported@,
            m.resource_limits == ResourceLimits::unbounded_spec(),
    {
        ModuleMetadata {
            name: self.package.name.clone(),
            version: self.package.version.clone(),
            module_type: self.package.module_type,
            api_version: self.package.api_version,
            author: self.package.author.clone(),
            description: self.package.description.clone(),
            required_capabilities: self.capabilities.required.clone(),
            provided_capabilities: Vec::new(),
            provided_tags: self.capabilities.provided.clone(),
            platforms: self.platforms.supported.clone(),
            resource_limits: ResourceLimits::unbounded(),
        }
    }
}

} // verus!
